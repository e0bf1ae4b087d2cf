//! What holds of every chain that is built, of its matrix and of its densities.

use crate::builder::{lemma_built_chain_wf, lemma_successors_hold_self};
use crate::data_reader::{NetworkView, StreetView};
use crate::density::{density_of, inbound_density, parcel, sources_known};
use crate::markov_chain::{
    build_outcome,
    built_chain,
    built_node,
    built_transitions,
    chain_wf,
    connects,
    minimum,
    other_probability,
    probability_sum,
    self_probability,
    successors,
    travel_time,
    travel_times,
    ChainView,
    NodeView,
    SourceView,
};
use crate::transition_matrix::{flattened, lookup, matrix_of, row_entries, Entry, MatrixView};
use vstd::prelude::*;

verus! {

/// The least of a sequence of numbers is one of them, and none of them is smaller.
pub proof fn lemma_minimum_is_least(times: Seq<real>)
    requires
        times.len() > 0,
    ensures
        forall|i: int| 0 <= i < times.len() ==> minimum(times) <= #[trigger] times[i],
        exists|i: int| 0 <= i < times.len() && minimum(times) == #[trigger] times[i],
    decreases times.len(),
{
    if times.len() == 1 {
        assert(minimum(times) == times[0]);
    } else {
        let front = times.drop_last();
        lemma_minimum_is_least(front);
        let w = choose|i: int| 0 <= i < front.len() && minimum(front) == #[trigger] front[i];
        assert(front[w] == times[w]);
        assert(times.last() == times[times.len() - 1]);
        assert forall|i: int| 0 <= i < times.len() implies minimum(times) <= #[trigger] times[i] by {
            if i < front.len() {
                assert(front[i] == times[i]);
            }
        }
    }
}

/// The probability of staying is known wherever the least travel time is positive
/// and not above the segment's own; it is `1 - least / travel_time`, so at least 0
/// and below 1, and it is 0 exactly where the segment's travel time is the least.
pub proof fn law_self_probability_range(travel_time: real, least: real)
    requires
        0real < least <= travel_time,
    ensures
        self_probability(travel_time, least).is_some(),
        0real <= self_probability(travel_time, least).unwrap() < 1real,
        self_probability(travel_time, least).unwrap() == 1real - least / travel_time,
        travel_time == least <==> self_probability(travel_time, least).unwrap() == 0real,
{
    let n = travel_time / least;
    assert(n >= 1real && (travel_time == least <==> n == 1real)) by (nonlinear_arith)
        requires
            n == travel_time / least,
            0real < least <= travel_time,
    ;
    let p = (n - 1real) / n;
    assert(0real <= p < 1real && (n == 1real <==> p == 0real)) by (nonlinear_arith)
        requires
            p == (n - 1real) / n,
            n >= 1real,
    ;
    assert(p == 1real - least / travel_time) by (nonlinear_arith)
        requires
            p == (n - 1real) / n,
            n == travel_time / least,
            0real < least <= travel_time,
    ;
}

/// What the probability of staying leaves is shared out in full: with more than one
/// transition, the probability of staying and that of all the others add up to 1.
pub proof fn law_shares_add_up(staying: real, transition_count: nat)
    requires
        0real <= staying <= 1real,
        transition_count > 1,
    ensures
        other_probability(Some(staying), transition_count).is_some(),
        other_probability(Some(staying), transition_count).unwrap() >= 0real,
        staying + (transition_count - 1) as real * other_probability(
            Some(staying),
            transition_count,
        ).unwrap() == 1real,
{
    let others = (transition_count - 1) as real;
    let share = (1real - staying) / others;
    assert(share >= 0real && staying + others * share == 1real) by (nonlinear_arith)
        requires
            share == (1real - staying) / others,
            others >= 1real,
            0real <= staying <= 1real,
    ;
}

/// A chain has one state for each segment of the network, and its matrix has one
/// row and one column for each state.
pub proof fn law_state_count(source: SourceView, network: NetworkView)
    requires
        build_outcome(source, network).is_ok(),
    ensures
        build_outcome(source, network).unwrap().graph.len() == network.edges.len(),
        matrix_of(build_outcome(source, network).unwrap()).dim == network.edges.len(),
{
}

/// A state holds its segment with half the lanes where the segment runs both ways,
/// and with all of them where it runs one way; nothing else of the segment changes.
pub proof fn law_lane_adjustment(source: SourceView, network: NetworkView, x: int)
    requires
        build_outcome(source, network).is_ok(),
        0 <= x < network.edges.len(),
    ensures
        ({
            let before = network.edges[x];
            let after = build_outcome(source, network).unwrap().graph[x].street_data;
            &&& before.oneway ==> after.lanes == before.lanes
            &&& !before.oneway ==> after.lanes == before.lanes / 2real
            &&& after == StreetView { lanes: after.lanes, ..before }
        }),
{
}

/// How often an id occurs among the first `upto` of a sequence of ids.
pub open spec fn occurrences(ids: Seq<u64>, id: u64, upto: int) -> nat
    decreases upto,
{
    if upto <= 0 {
        0
    } else if ids[upto - 1] == id {
        occurrences(ids, id, upto - 1) + 1
    } else {
        occurrences(ids, id, upto - 1)
    }
}

/// Sequences that agree on their first ids hold an id equally often there.
proof fn lemma_occurrences_agree(a: Seq<u64>, b: Seq<u64>, id: u64, upto: int)
    requires
        upto <= a.len(),
        upto <= b.len(),
        forall|i: int| 0 <= i < upto ==> a[i] == b[i],
    ensures
        occurrences(a, id, upto) == occurrences(b, id, upto),
    decreases upto,
{
    if upto > 0 {
        lemma_occurrences_agree(a, b, id, upto - 1);
    }
}

/// The successors of a state are positions of segments, in strictly rising order;
/// each is the state itself or a segment that starts where the state ends; and
/// every such segment is among them.
pub proof fn lemma_successors_characterised(edges: Seq<StreetView>, x: int, upto: int)
    requires
        0 <= upto <= u64::MAX,
    ensures
        forall|j: int|
            0 <= j < successors(edges, x, upto).len() ==> {
                &&& 0 <= (#[trigger] successors(edges, x, upto)[j]) < upto
                &&& connects(edges, x, successors(edges, x, upto)[j] as int)
            },
        forall|i: int, j: int|
            0 <= i < j < successors(edges, x, upto).len() ==> (#[trigger] successors(
                edges,
                x,
                upto,
            )[i]) < (#[trigger] successors(edges, x, upto)[j]),
        forall|y: int|
            0 <= y < upto && connects(edges, x, y) ==> #[trigger] successors(
                edges,
                x,
                upto,
            ).contains(y as u64),
    decreases upto,
{
    if upto > 0 {
        lemma_successors_characterised(edges, x, upto - 1);
        let before = successors(edges, x, upto - 1);
        let all = successors(edges, x, upto);
        assert forall|j: int| 0 <= j < all.len() implies {
            &&& 0 <= (#[trigger] all[j]) < upto
            &&& connects(edges, x, all[j] as int)
        } by {
            if j < before.len() {
                assert(all[j] == before[j]);
            }
        }
        assert forall|i: int, j: int| 0 <= i < j < all.len() implies (#[trigger] all[i]) < (
        #[trigger] all[j]) by {
            assert(all[i] == before[i]);
            if j < before.len() {
                assert(all[j] == before[j]);
            }
        }
        assert forall|y: int| 0 <= y < upto && connects(edges, x, y) implies #[trigger] all.contains(
            y as u64,
        ) by {
            if y < upto - 1 {
                assert(before.contains(y as u64));
                let j = choose|j: int| 0 <= j < before.len() && before[j] == y as u64;
                assert(all[j] == y as u64);
            } else {
                assert(all[all.len() - 1] == y as u64);
            }
        }
    }
}

/// A state occurs once among its successors, once they reach its position.
proof fn lemma_self_occurs_once(edges: Seq<StreetView>, x: int, upto: int)
    requires
        0 <= x <= u64::MAX,
        0 <= upto <= u64::MAX,
    ensures
        occurrences(
            successors(edges, x, upto),
            x as u64,
            successors(edges, x, upto).len() as int,
        ) == if x < upto {
            1nat
        } else {
            0nat
        },
    decreases upto,
{
    if upto > 0 {
        lemma_self_occurs_once(edges, x, upto - 1);
        let before = successors(edges, x, upto - 1);
        let all = successors(edges, x, upto);
        if connects(edges, x, upto - 1) {
            lemma_occurrences_agree(all, before, x as u64, before.len() as int);
            assert(all[all.len() - 1] == (upto - 1) as u64);
        }
    }
}

/// The probabilities of transitions add up to as many times the probability of
/// staying as the state occurs among the targets, and the other for every other target.
proof fn lemma_sum_by_occurrences(targets: Seq<u64>, x: u64, staying: real, leaving: real, upto: int)
    requires
        0 <= upto <= targets.len(),
    ensures
        probability_sum(built_transitions(targets, x, Some(staying), Some(leaving)), upto) == Some(
            occurrences(targets, x, upto) as real * staying + (upto - occurrences(
                targets,
                x,
                upto,
            )) as real * leaving,
        ),
    decreases upto,
{
    if upto > 0 {
        lemma_sum_by_occurrences(targets, x, staying, leaving, upto - 1);
        let c = occurrences(targets, x, upto - 1) as real;
        let d = (upto - 1 - occurrences(targets, x, upto - 1)) as real;
        let ts = built_transitions(targets, x, Some(staying), Some(leaving));
        assert(ts[upto - 1].probability == if targets[upto - 1] == x {
            Some(staying)
        } else {
            Some(leaving)
        });
        assert((c + 1real) * staying == c * staying + staying) by (nonlinear_arith);
        assert((d + 1real) * leaving == d * leaving + leaving) by (nonlinear_arith);
        if targets[upto - 1] == x {
            assert(occurrences(targets, x, upto) as real == c + 1real);
            assert((upto - occurrences(targets, x, upto)) as real == d);
        } else {
            assert(occurrences(targets, x, upto) as real == c);
            assert((upto - occurrences(targets, x, upto)) as real == d + 1real);
        }
    } else {
        assert(0real * staying + 0real * leaving == 0real) by (nonlinear_arith);
    }
}

/// The transitions of a state: one for each successor; exactly one of them leads
/// to the state itself, and every other one to a segment that starts where the
/// state ends.
pub proof fn law_transitions_follow_the_streets(source: SourceView, network: NetworkView, x: int)
    requires
        network.edges.len() <= u64::MAX,
        build_outcome(source, network).is_ok(),
        0 <= x < network.edges.len(),
    ensures
        ({
            let transitions = build_outcome(source, network).unwrap().graph[x].transitions;
            &&& transitions.len() >= 1
            &&& exists|j: int| 0 <= j < transitions.len() && (#[trigger] transitions[j]).id_to == x
            &&& forall|i: int, j: int|
                0 <= i < j < transitions.len() ==> (#[trigger] transitions[i]).id_to < (
                #[trigger] transitions[j]).id_to
            &&& forall|j: int|
                0 <= j < transitions.len() && (#[trigger] transitions[j]).id_to != x ==> {
                    &&& transitions[j].id_to < network.edges.len()
                    &&& network.edges[transitions[j].id_to as int].start == network.edges[x].end
                }
            &&& forall|y: int|
                0 <= y < network.edges.len() && network.edges[y].start == network.edges[x].end
                    ==> exists|j: int|
                    0 <= j < transitions.len() && (#[trigger] transitions[j]).id_to == y
        }),
{
    let n = network.edges.len() as int;
    let targets = successors(network.edges, x, n);
    let transitions = built_node(source, network, x).transitions;
    lemma_successors_characterised(network.edges, x, n);
    lemma_successors_hold_self(network.edges, x, n);
    assert(transitions.len() == targets.len());
    assert forall|j: int| 0 <= j < transitions.len() implies (#[trigger] transitions[j]).id_to
        == targets[j] by {}
    let own = choose|j: int| 0 <= j < targets.len() && targets[j] == x as u64;
    assert(transitions[own].id_to == x);
    assert forall|y: int|
        0 <= y < network.edges.len() && network.edges[y].start
            == network.edges[x].end implies exists|j: int|
        0 <= j < transitions.len() && (#[trigger] transitions[j]).id_to == y by {
        assert(connects(network.edges, x, y));
        assert(targets.contains(y as u64));
        let j = choose|j: int| 0 <= j < targets.len() && targets[j] == y as u64;
        assert(transitions[j].id_to == y);
    }
}

/// The probabilities of the transitions that leave a state add up to 1, where the
/// state has more than one transition and the least travel time of the network is
/// not zero.
pub proof fn law_probabilities_sum_to_one(source: SourceView, network: NetworkView, x: int)
    requires
        network.edges.len() <= u64::MAX,
        build_outcome(source, network).is_ok(),
        0 <= x < network.edges.len(),
        minimum(travel_times(source, network.edges)) > 0real,
        build_outcome(source, network).unwrap().graph[x].transitions.len() > 1,
    ensures
        ({
            let transitions = build_outcome(source, network).unwrap().graph[x].transitions;
            probability_sum(transitions, transitions.len() as int) == Some(1real)
        }),
{
    let n = network.edges.len() as int;
    let times = travel_times(source, network.edges);
    let least = minimum(times);
    let own = times[x];
    let targets = successors(network.edges, x, n);
    let count = targets.len();
    lemma_minimum_is_least(times);
    law_self_probability_range(own, least);
    let staying = self_probability(own, least).unwrap();
    law_shares_add_up(staying, count);
    let leaving = other_probability(Some(staying), count).unwrap();
    lemma_sum_by_occurrences(targets, x as u64, staying, leaving, count as int);
    lemma_self_occurs_once(network.edges, x, n);
    assert(1nat as real * staying == staying) by (nonlinear_arith);
    assert(built_node(source, network, x).transitions == built_transitions(
        targets,
        x as u64,
        Some(staying),
        Some(leaving),
    ));
}

/// The probability of staying on a segment is at least 0 and below 1, where the
/// least travel time of the network is not zero; it is 0 on exactly the segments
/// whose travel time is the least, and there is such a segment.
pub proof fn law_staying_probability(source: SourceView, network: NetworkView, x: int)
    requires
        network.edges.len() <= u64::MAX,
        build_outcome(source, network).is_ok(),
        0 <= x < network.edges.len(),
        minimum(travel_times(source, network.edges)) > 0real,
    ensures
        ({
            let transitions = build_outcome(source, network).unwrap().graph[x].transitions;
            let least = minimum(travel_times(source, network.edges));
            let own = travel_time(source, network.edges, x).unwrap();
            &&& forall|j: int|
                0 <= j < transitions.len() && (#[trigger] transitions[j]).id_to == x ==> {
                    &&& transitions[j].probability.is_some()
                    &&& 0real <= transitions[j].probability.unwrap() < 1real
                    &&& own == least <==> transitions[j].probability.unwrap() == 0real
                }
            &&& exists|y: int|
                0 <= y < network.edges.len() && #[trigger] travel_time(
                    source,
                    network.edges,
                    y,
                ).unwrap() == least
        }),
{
    let times = travel_times(source, network.edges);
    let least = minimum(times);
    lemma_minimum_is_least(times);
    law_self_probability_range(times[x], least);
    let y = choose|i: int| 0 <= i < times.len() && minimum(times) == #[trigger] times[i];
    assert(travel_time(source, network.edges, y).unwrap() == least);
}

/// Whether the transitions of every state lead to states of rising ids.
pub open spec fn transitions_rising(chain: ChainView) -> bool {
    forall|x: int, i: int, j: int|
        0 <= x < chain.graph.len() && 0 <= i < j < chain.graph[x].transitions.len() ==> (
        #[trigger] chain.graph[x].transitions[i]).id_to < (
        #[trigger] chain.graph[x].transitions[j]).id_to
}

/// The place of the transition `j` of the state `x` among the entries of a chain.
pub open spec fn place_of(graph: Seq<NodeView>, x: int, j: int) -> int {
    flattened(graph, x).len() + j
}

/// The entry that the transition `j` of the state `x` gives.
pub open spec fn entry_of(graph: Seq<NodeView>, x: int, j: int) -> Entry {
    row_entries(graph[x])[j]
}

/// Whether `q` is the place of a transition of a state below `upto`.
pub open spec fn placed(graph: Seq<NodeView>, upto: int, q: int) -> bool {
    exists|x: int, j: int|
        0 <= x < upto && 0 <= j < graph[x].transitions.len() && q == #[trigger] place_of(
            graph,
            x,
            j,
        )
}

/// The entries of the states below `upto` are their transitions, state after state:
/// the transition `j` of the state `x` stands at the place that the entries of the
/// states below `x` leave free, and every entry is such a transition.
proof fn lemma_flattened_places(graph: Seq<NodeView>, upto: int)
    requires
        0 <= upto <= graph.len(),
    ensures
        forall|x: int, j: int|
            0 <= x < upto && 0 <= j < graph[x].transitions.len() ==> {
                &&& (#[trigger] place_of(graph, x, j)) < flattened(graph, upto).len()
                &&& flattened(graph, upto)[place_of(graph, x, j)] == entry_of(graph, x, j)
            },
        forall|q: int| 0 <= q < flattened(graph, upto).len() ==> #[trigger] placed(graph, upto, q),
    decreases upto,
{
    if upto > 0 {
        lemma_flattened_places(graph, upto - 1);
        let before = flattened(graph, upto - 1);
        let row = row_entries(graph[upto - 1]);
        let all = flattened(graph, upto);
        assert(all == before + row);
        assert forall|x: int, j: int|
            0 <= x < upto && 0 <= j < graph[x].transitions.len() implies {
            &&& (#[trigger] place_of(graph, x, j)) < all.len()
            &&& all[place_of(graph, x, j)] == entry_of(graph, x, j)
        } by {
            let entry = entry_of(graph, x, j);
            let place = place_of(graph, x, j);
            assert(all.len() == before.len() + row.len());
            if x < upto - 1 {
                assert(place < before.len());
                assert(before[place] == entry);
                assert(all[place] == before[place]);
            } else {
                assert(place == before.len() + j);
                assert(row.len() == graph[x].transitions.len());
                assert(all[before.len() + j] == row[j]);
            }
            assert(place < all.len());
        }
        assert forall|q: int| 0 <= q < all.len() implies #[trigger] placed(graph, upto, q) by {
            if q < before.len() {
                assert(placed(graph, upto - 1, q));
                let (x, j) = choose|x: int, j: int|
                    0 <= x < upto - 1 && 0 <= j < graph[x].transitions.len() && q
                        == #[trigger] place_of(graph, x, j);
                assert(q == place_of(graph, x, j));
            } else {
                assert(q == place_of(graph, upto - 1, q - before.len()));
            }
        }
    }
}

/// The matrix holds for a row and a column the probability of the first entry that
/// has them.
proof fn lemma_lookup_first(entries: Seq<Entry>, row: u64, col: u64, place: int, from: int)
    requires
        0 <= from <= place < entries.len(),
        entries[place].0 == row,
        entries[place].1 == col,
        forall|q: int| from <= q < place ==> !((#[trigger] entries[q]).0 == row && entries[q].1 == col),
    ensures
        lookup(entries, row, col, from) == entries[place].2,
    decreases place - from,
{
    if from < place {
        assert(!(entries[from].0 == row && entries[from].1 == col));
        lemma_lookup_first(entries, row, col, place, from + 1);
    }
}

/// The matrix holds zero for a row and a column that no entry has.
proof fn lemma_lookup_absent(entries: Seq<Entry>, row: u64, col: u64, from: int)
    requires
        0 <= from,
        forall|q: int|
            from <= q < entries.len() ==> !((#[trigger] entries[q]).0 == row && entries[q].1 == col),
    ensures
        lookup(entries, row, col, from) == Some(0real),
    decreases entries.len() - from,
{
    if from < entries.len() {
        assert(!(entries[from].0 == row && entries[from].1 == col));
        lemma_lookup_absent(entries, row, col, from + 1);
    }
}

/// In the matrix of a well-formed chain whose transitions lead to rising ids, each
/// transition is an entry, and the matrix holds its probability for its two states.
pub proof fn lemma_matrix_holds_transition(chain: ChainView, x: int, j: int)
    requires
        chain.graph.len() <= usize::MAX,
        chain_wf(chain),
        transitions_rising(chain),
        0 <= x < chain.graph.len(),
        0 <= j < chain.graph[x].transitions.len(),
    ensures
        ({
            let t = chain.graph[x].transitions[j];
            let entries = matrix_of(chain).entries;
            &&& entries.contains((chain.graph[x].id as usize, t.id_to as usize, t.probability))
            &&& lookup(entries, chain.graph[x].id, t.id_to, 0) == t.probability
        }),
{
    let graph = chain.graph;
    let n = graph.len() as int;
    let entries = flattened(graph, n);
    let t = graph[x].transitions[j];
    let place = place_of(graph, x, j);
    lemma_flattened_places(graph, n);
    assert(place < entries.len());
    assert(entries[place] == entry_of(graph, x, j));
    assert(graph[x].id == x);
    assert(t.id_to < n);
    assert forall|q: int| 0 <= q < place implies !((#[trigger] entries[q]).0 == graph[x].id
        && entries[q].1 == t.id_to) by {
        assert(placed(graph, n, q));
        let (y, i) = choose|y: int, i: int|
            0 <= y < n && 0 <= i < graph[y].transitions.len() && q == #[trigger] place_of(
                graph,
                y,
                i,
            );
        assert(entries[q] == entry_of(graph, y, i));
        assert(graph[y].id == y);
        assert(graph[y].transitions[i].id_to < n);
        if y == x {
            assert(graph[x].transitions[i].id_to < graph[x].transitions[j].id_to);
        }
    }
    lemma_lookup_first(entries, graph[x].id, t.id_to, place, 0);
}

/// In the matrix of a well-formed chain, a pair of states with no transition from
/// the one to the other has the probability zero.
pub proof fn lemma_matrix_holds_zero(chain: ChainView, row: u64, col: u64)
    requires
        chain.graph.len() <= usize::MAX,
        chain_wf(chain),
        forall|x: int, j: int|
            0 <= x < chain.graph.len() && 0 <= j < chain.graph[x].transitions.len() ==> !(
            chain.graph[x].id == row && (#[trigger] chain.graph[x].transitions[j]).id_to == col),
    ensures
        lookup(matrix_of(chain).entries, row, col, 0) == Some(0real),
{
    let graph = chain.graph;
    let n = graph.len() as int;
    let entries = flattened(graph, n);
    lemma_flattened_places(graph, n);
    assert forall|q: int| 0 <= q < entries.len() implies !((#[trigger] entries[q]).0 == row
        && entries[q].1 == col) by {
        assert(placed(graph, n, q));
        let (y, i) = choose|y: int, i: int|
            0 <= y < n && 0 <= i < graph[y].transitions.len() && q == #[trigger] place_of(
                graph,
                y,
                i,
            );
        assert(entries[q] == entry_of(graph, y, i));
        assert(graph[y].id == y);
        assert(graph[y].transitions[i].id_to < n);
        assert(!(graph[y].id == row && graph[y].transitions[i].id_to == col));
    }
    lemma_lookup_absent(entries, row, col, 0);
}

/// A chain that is built is well formed, and its transitions lead to rising ids.
pub proof fn lemma_built_chain_rising(source: SourceView, network: NetworkView)
    requires
        network.edges.len() <= u64::MAX,
        build_outcome(source, network).is_ok(),
    ensures
        chain_wf(built_chain(source, network)),
        transitions_rising(built_chain(source, network)),
{
    let chain = built_chain(source, network);
    let n = network.edges.len() as int;
    lemma_built_chain_wf(source, network);
    assert forall|x: int, i: int, j: int|
        0 <= x < chain.graph.len() && 0 <= i < j < chain.graph[x].transitions.len() implies (
    #[trigger] chain.graph[x].transitions[i]).id_to < (
    #[trigger] chain.graph[x].transitions[j]).id_to by {
        lemma_successors_characterised(network.edges, x, n);
        let targets = successors(network.edges, x, n);
        assert(chain.graph[x].transitions[i].id_to == targets[i]);
        assert(chain.graph[x].transitions[j].id_to == targets[j]);
    }
}

/// Every transition of a chain that is built is an entry of its matrix, and the
/// matrix holds the transition's probability for its two states.
pub proof fn law_matrix_round_trip(source: SourceView, network: NetworkView, x: int, j: int)
    requires
        network.edges.len() <= usize::MAX,
        build_outcome(source, network).is_ok(),
        0 <= x < network.edges.len(),
        0 <= j < build_outcome(source, network).unwrap().graph[x].transitions.len(),
    ensures
        ({
            let chain = build_outcome(source, network).unwrap();
            let t = chain.graph[x].transitions[j];
            let entries = matrix_of(chain).entries;
            &&& entries.contains((chain.graph[x].id as usize, t.id_to as usize, t.probability))
            &&& lookup(entries, chain.graph[x].id, t.id_to, 0) == t.probability
        }),
{
    lemma_built_chain_rising(source, network);
    assert(build_outcome(source, network).unwrap() == built_chain(source, network));
    lemma_matrix_holds_transition(built_chain(source, network), x, j);
}

/// A pair of states with no transition from the one to the other has the
/// probability zero in the matrix of a chain that is built.
pub proof fn law_absent_pairs_are_zero(source: SourceView, network: NetworkView, row: u64, col: u64)
    requires
        network.edges.len() <= usize::MAX,
        build_outcome(source, network).is_ok(),
        ({
            let chain = build_outcome(source, network).unwrap();
            forall|x: int, j: int|
                0 <= x < chain.graph.len() && 0 <= j < chain.graph[x].transitions.len() ==> !(
                chain.graph[x].id == row && (#[trigger] chain.graph[x].transitions[j]).id_to
                    == col)
        }),
    ensures
        lookup(matrix_of(build_outcome(source, network).unwrap()).entries, row, col, 0) == Some(
            0real,
        ),
{
    lemma_built_chain_rising(source, network);
    assert(build_outcome(source, network).unwrap() == built_chain(source, network));
    lemma_matrix_holds_zero(built_chain(source, network), row, col);
}

/// Whether no probability that a matrix holds is negative.
pub open spec fn probabilities_nonnegative(matrix: MatrixView) -> bool {
    forall|k: int|
        0 <= k < matrix.entries.len() ==> match (#[trigger] matrix.entries[k]).2 {
            Some(p) => p >= 0real,
            None => true,
        }
}

/// Whether every probability that a matrix holds is known.
pub open spec fn probabilities_known(matrix: MatrixView) -> bool {
    forall|k: int| 0 <= k < matrix.entries.len() ==> (#[trigger] matrix.entries[k]).2.is_some()
}

/// Whether every segment of a chain has a positive length and a positive number of lanes.
pub open spec fn segments_positive(chain: ChainView) -> bool {
    forall|x: int|
        0 <= x < chain.graph.len() ==> (#[trigger] chain.graph[x]).street_data.length > 0real
            && chain.graph[x].street_data.lanes > 0real
}

/// A parcel of a known probability is known and not negative, where the segment
/// has a positive length and positive lanes.
proof fn lemma_parcel_nonnegative(vehicle_count: u64, probability: real, length: real, lanes: real)
    requires
        probability >= 0real,
        length > 0real,
        lanes > 0real,
    ensures
        parcel(vehicle_count, Some(probability), length, lanes).is_some(),
        parcel(vehicle_count, Some(probability), length, lanes).unwrap() >= 0real,
{
    let v = vehicle_count as real;
    assert(length * lanes > 0real && (v * probability) / (length * lanes) >= 0real)
        by (nonlinear_arith)
        requires
            v >= 0real,
            probability >= 0real,
            length > 0real,
            lanes > 0real,
    ;
}

/// What a matrix of no negative probability holds for a row and a column is not
/// negative.
proof fn lemma_lookup_nonnegative(matrix: MatrixView, row: u64, col: u64, from: int)
    requires
        0 <= from,
        probabilities_nonnegative(matrix),
    ensures
        match lookup(matrix.entries, row, col, from) {
            Some(p) => p >= 0real,
            None => true,
        },
        probabilities_known(matrix) ==> lookup(matrix.entries, row, col, from).is_some(),
    decreases matrix.entries.len() - from,
{
    if from < matrix.entries.len() {
        let entry = matrix.entries[from];
        if !(entry.0 == row && entry.1 == col) {
            lemma_lookup_nonnegative(matrix, row, col, from + 1);
        }
    }
}

/// What the transitions into a state contribute to its density is not negative.
proof fn lemma_inbound_nonnegative(
    chain: ChainView,
    matrix: MatrixView,
    vehicle_count: u64,
    col: u64,
    upto: int,
)
    requires
        0 <= upto <= matrix.entries.len(),
        col < chain.graph.len(),
        sources_known(chain, matrix),
        segments_positive(chain),
        probabilities_nonnegative(matrix),
    ensures
        match inbound_density(chain.graph, matrix.entries, vehicle_count, col, upto) {
            Some(d) => d >= 0real,
            None => true,
        },
        probabilities_known(matrix) ==> inbound_density(
            chain.graph,
            matrix.entries,
            vehicle_count,
            col,
            upto,
        ).is_some(),
    decreases upto,
{
    if upto > 0 {
        lemma_inbound_nonnegative(chain, matrix, vehicle_count, col, upto - 1);
        let entry = matrix.entries[upto - 1];
        if entry.1 == col {
            let from = chain.graph[entry.0 as int].street_data;
            match entry.2 {
                Some(p) => {
                    lemma_parcel_nonnegative(vehicle_count, p, from.length, from.lanes);
                },
                None => {},
            }
        }
    }
}

/// No density is negative: where the segments have positive lengths and lanes and
/// the matrix holds no negative probability, the density of a state is not
/// negative, and it is known where every probability of the matrix is.
pub proof fn law_density_nonnegative(
    chain: ChainView,
    matrix: MatrixView,
    vehicle_count: u64,
    x: int,
)
    requires
        chain_wf(chain),
        sources_known(chain, matrix),
        segments_positive(chain),
        probabilities_nonnegative(matrix),
        0 <= x < chain.graph.len(),
    ensures
        match density_of(chain, matrix, vehicle_count, x) {
            Some(d) => d >= 0real,
            None => true,
        },
        probabilities_known(matrix) ==> density_of(chain, matrix, vehicle_count, x).is_some(),
{
    let node = chain.graph[x];
    lemma_lookup_nonnegative(matrix, node.street_start.id, node.street_end.id, 0);
    match lookup(matrix.entries, node.street_start.id, node.street_end.id, 0) {
        Some(p) => {
            lemma_parcel_nonnegative(
                vehicle_count,
                p,
                node.street_data.length,
                node.street_data.lanes,
            );
        },
        None => {},
    }
    lemma_inbound_nonnegative(
        chain,
        matrix,
        vehicle_count,
        node.id,
        matrix.entries.len() as int,
    );
}

} // verus!
