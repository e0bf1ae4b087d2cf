//! The density estimate: one pass over the transition matrix that adds, for each
//! state, what the state itself and every transition into it contribute.

use crate::markov_chain::{
    chain_wf,
    node_views,
    transition_views,
    ChainView,
    MarkovChain,
    MarkovNode,
    MarkovTransition,
    NodeView,
    TrafficFlow,
    TrafficFlowView,
};
use crate::ratio::Ratio;
use crate::transition_matrix::{lookup, Entry, MatrixView, TransitionMatrix};
use crate::value::{q_add, q_div, q_mul, Value};
use vstd::prelude::*;

verus! {

/// Why no density could be estimated.
#[derive(Debug, Clone, Copy, PartialEq, Eq, Structural)]
pub enum DensityError {
    /// The matrix holds a transition into a state of the chain from a row that is
    /// no state of the chain.
    UnknownSourceState,
}

/// One contribution to a density: the vehicles that take a transition, over the
/// length of the segment they come from times its lanes.
pub open spec fn parcel(vehicle_count: u64, probability: Option<real>, length: real, lanes: real)
    -> Option<real> {
    q_div(q_mul(Some(vehicle_count as real), probability), q_mul(Some(length), Some(lanes)))
}

/// Whether every transition into a state of the chain comes from a state of the chain.
pub open spec fn sources_known(chain: ChainView, matrix: MatrixView) -> bool {
    forall|k: int|
        0 <= k < matrix.entries.len() && (#[trigger] matrix.entries[k]).1 < chain.graph.len()
            ==> matrix.entries[k].0 < chain.graph.len()
}

/// What the first `upto` entries of the matrix contribute to the density of the
/// state `col`: a parcel for each entry in its column, from the segment of the
/// entry's row.
pub open spec fn inbound_density(
    graph: Seq<NodeView>,
    entries: Seq<Entry>,
    vehicle_count: u64,
    col: u64,
    upto: int,
) -> Option<real>
    decreases upto,
{
    if upto <= 0 {
        Some(0real)
    } else {
        let entry = entries[upto - 1];
        let before = inbound_density(graph, entries, vehicle_count, col, upto - 1);
        if entry.1 == col {
            let from = graph[entry.0 as int].street_data;
            q_add(before, parcel(vehicle_count, entry.2, from.length, from.lanes))
        } else {
            before
        }
    }
}

/// The density of the state at position `x`: its own parcel, with the probability
/// that the matrix holds for the ids of the intersections at its two ends, and what
/// the transitions into it contribute.
pub open spec fn density_of(chain: ChainView, matrix: MatrixView, vehicle_count: u64, x: int)
    -> Option<real> {
    let node = chain.graph[x];
    let own = parcel(
        vehicle_count,
        lookup(matrix.entries, node.street_start.id, node.street_end.id, 0),
        node.street_data.length,
        node.street_data.lanes,
    );
    q_add(
        own,
        inbound_density(
            chain.graph,
            matrix.entries,
            vehicle_count,
            node.id,
            matrix.entries.len() as int,
        ),
    )
}

/// A state with another density, and all else as it was.
pub open spec fn with_density(node: NodeView, density: Option<real>) -> NodeView {
    NodeView {
        traffic_data: Some(
            TrafficFlowView { estimated_density: density, ..node.traffic_data.unwrap() },
        ),
        ..node
    }
}

/// A chain with the density of every state estimated from the matrix.
pub open spec fn with_densities(chain: ChainView, matrix: MatrixView, vehicle_count: u64)
    -> ChainView {
    ChainView {
        name: chain.name,
        graph: Seq::new(
            chain.graph.len(),
            |x: int| with_density(chain.graph[x], density_of(chain, matrix, vehicle_count, x)),
        ),
    }
}

/// Whether no density of the chain is negative.
pub open spec fn densities_nonnegative(chain: ChainView) -> bool {
    forall|x: int|
        0 <= x < chain.graph.len() ==> match (#[trigger] chain.graph[x]).traffic_data {
            Some(flow) => match flow.estimated_density {
                Some(d) => d >= 0real,
                None => true,
            },
            None => true,
        }
}

/// A copy of the transitions.
fn copy_transitions(transitions: &Vec<MarkovTransition>) -> (r: Vec<MarkovTransition>)
    ensures
        transition_views(r@) == transition_views(transitions@),
{
    let mut out: Vec<MarkovTransition> = Vec::new();
    let mut j: usize = 0;
    while j < transitions.len()
        invariant
            j <= transitions.len(),
            out@.len() == j,
            forall|k: int| 0 <= k < j ==> (#[trigger] out@[k])@ == transitions@[k]@,
        decreases transitions.len() - j,
    {
        let t = &transitions[j];
        out.push(MarkovTransition { id_to: t.id_to, probability: t.probability.duplicate() });
        j += 1;
    }
    assert(transition_views(out@) =~= transition_views(transitions@));
    out
}

impl MarkovChain {
    /// The state with the given id, where the chain has one.
    pub fn node(&self, i: u64) -> (r: Option<&MarkovNode>)
        ensures
            r.is_some() <==> i < self@.graph.len(),
            r.is_some() ==> r.unwrap()@ == self@.graph[i as int] && r.unwrap()@.id == i,
    {
        proof {
            use_type_invariant(self);
        }
        if i < self.graph.len() as u64 {
            let node = &self.graph[i as usize];
            assert(self@.graph[i as int] == node@);
            Some(node)
        } else {
            None
        }
    }

    /// One contribution to a density.
    pub fn calculate_density_parcel(v: u64, prob: &Value, l: &Ratio, n: &Ratio) -> (r: Value)
        ensures
            r@ == parcel(v, prob@, l@, n@),
    {
        Value::from_u64(v).mul(prob).div(&Value::Known(l.mul(n)))
    }

    /// The density of the state at position `x`.
    fn density_at(&self, t_mtx: &TransitionMatrix, vehicle_count: u64, x: usize) -> (r: Value)
        requires
            x < self@.graph.len(),
            sources_known(self@, t_mtx@),
        ensures
            r@ == density_of(self@, t_mtx@, vehicle_count, x as int),
            r@.is_some() ==> r@.unwrap() >= 0real,
    {
        proof {
            use_type_invariant(self);
        }
        let node = &self.graph[x];
        assert(self@.graph[x as int] == node@);
        let self_prob = t_mtx.index((node.street_start.id, node.street_end.id));
        let mut density = MarkovChain::calculate_density_parcel(
            vehicle_count,
            &self_prob,
            &node.street_data.length,
            &node.street_data.lanes,
        );
        let ghost own = density@;
        let mut k: usize = 0;
        while k < t_mtx.matrix.len()
            invariant
                k <= t_mtx.matrix.len(),
                x < self.graph@.len(),
                self@.graph[x as int] == node@,
                chain_wf(self@),
                sources_known(self@, t_mtx@),
                density@ == q_add(
                    own,
                    inbound_density(self@.graph, t_mtx@.entries, vehicle_count, node.id, k as int),
                ),
            decreases t_mtx.matrix.len() - k,
        {
            let entry = &t_mtx.matrix[k];
            assert(t_mtx@.entries[k as int] == (entry.0, entry.1, entry.2@));
            if entry.1 as u64 == node.id {
                let from = self.node(entry.0 as u64).unwrap();
                let part = MarkovChain::calculate_density_parcel(
                    vehicle_count,
                    &entry.2,
                    &from.street_data.length,
                    &from.street_data.lanes,
                );
                density = density.add(&part);
            }
            k += 1;
        }
        match &density {
            Value::Known(d) => {
                proof {
                    use_type_invariant(d);
                    d.lemma_nonnegative();
                }
            },
            Value::Unknown => {},
        }
        density
    }

    /// Estimates the density of every state from the matrix, for the given number
    /// of vehicles, and leaves travel times, speeds and transitions as they are.
    ///
    /// Nothing changes where the matrix holds a transition into a state of the
    /// chain from a row that is no state of the chain.
    pub fn calculate_density_from_matrix(&mut self, t_mtx: &TransitionMatrix, vehicle_count: u64)
        -> (r: Result<(), DensityError>)
        ensures
            r.is_ok() <==> sources_known(old(self)@, t_mtx@),
            r.is_ok() ==> final(self)@ == with_densities(old(self)@, t_mtx@, vehicle_count),
            r.is_ok() ==> densities_nonnegative(final(self)@),
            r.is_err() ==> final(self)@ == old(self)@,
    {
        proof {
            use_type_invariant(&*self);
        }
        let n = self.graph.len();
        let mut k: usize = 0;
        while k < t_mtx.matrix.len()
            invariant
                k <= t_mtx.matrix.len(),
                n == self@.graph.len(),
                forall|j: int|
                    0 <= j < k && (#[trigger] t_mtx@.entries[j]).1 < n ==> t_mtx@.entries[j].0 < n,
            decreases t_mtx.matrix.len() - k,
        {
            let entry = &t_mtx.matrix[k];
            assert(t_mtx@.entries[k as int] == (entry.0, entry.1, entry.2@));
            if entry.1 < n && entry.0 >= n {
                return Err(DensityError::UnknownSourceState);
            }
            k += 1;
        }
        let mut graph: Vec<MarkovNode> = Vec::new();
        let mut x: usize = 0;
        while x < n
            invariant
                x <= n,
                n == self@.graph.len(),
                chain_wf(self@),
                sources_known(self@, t_mtx@),
                graph@.len() == x,
                forall|i: int|
                    0 <= i < x ==> (#[trigger] graph@[i])@ == with_density(
                        self@.graph[i],
                        density_of(self@, t_mtx@, vehicle_count, i),
                    ),
                forall|i: int|
                    0 <= i < x ==> match (#[trigger] graph@[i])@.traffic_data.unwrap().estimated_density {
                        Some(d) => d >= 0real,
                        None => true,
                    },
            decreases n - x,
        {
            let node = &self.graph[x];
            assert(self@.graph[x as int] == node@);
            let density = self.density_at(t_mtx, vehicle_count, x);
            let flow = node.traffic_data.as_ref().unwrap();
            let updated = MarkovNode {
                id: node.id,
                id_osm: node.id_osm,
                street_start: node.street_start,
                street_end: node.street_end,
                street_data: node.street_data.duplicate(),
                traffic_data: Some(
                    TrafficFlow {
                        estimated_travel_time: flow.estimated_travel_time.duplicate(),
                        estimated_average_speed: flow.estimated_average_speed.duplicate(),
                        estimated_density: density,
                    },
                ),
                transitions: copy_transitions(&node.transitions),
            };
            graph.push(updated);
            x += 1;
        }
        proof {
            let after = with_densities(self@, t_mtx@, vehicle_count);
            assert(node_views(graph@) =~= after.graph);
            assert forall|i: int| 0 <= i < after.graph.len() implies {
                &&& (#[trigger] after.graph[i]).id == i
                &&& after.graph[i].traffic_data.is_some()
                &&& forall|j: int|
                    0 <= j < after.graph[i].transitions.len() ==> (
                    #[trigger] after.graph[i].transitions[j]).id_to < after.graph.len()
            } by {
                assert(after.graph[i].transitions == self@.graph[i].transitions);
            }
        }
        self.graph = graph;
        Ok(())
    }
}

} // verus!
