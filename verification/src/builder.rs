//! Building the chain: states, traffic estimates, transitions and their
//! normalized probabilities.

use crate::data_reader::{
    first_with_id,
    street_views,
    Intersection,
    NetworkData,
    NetworkView,
    Street,
    StreetView,
};
use crate::markov_chain::{
    adjusted,
    build_outcome,
    built_chain,
    built_node,
    built_transitions,
    chain_wf,
    connects,
    minimum,
    node_views,
    other_probability,
    resolved,
    self_probability,
    successors,
    traffic_flow,
    transition_views,
    travel_time,
    travel_times,
    BuildError,
    ChainView,
    MarkovChain,
    MarkovNode,
    MarkovTransition,
    SourceView,
    TrafficDataSource,
    TrafficFlow,
};
use crate::ratio::Ratio;
use crate::value::Value;
use vstd::prelude::*;

verus! {

/// Whether two texts are the same.
pub fn same_text(a: &str, b: &str) -> (r: bool)
    ensures
        r == (a@ == b@),
{
    let n = a.unicode_len();
    if n != b.unicode_len() {
        return false;
    }
    let mut i: usize = 0;
    while i < n
        invariant
            i <= n,
            n == a@.len(),
            n == b@.len(),
            forall|k: int| 0 <= k < i ==> a@[k] == b@[k],
        decreases n - i,
    {
        if a.get_char(i) != b.get_char(i) {
            return false;
        }
        i += 1;
    }
    assert(a@ =~= b@);
    true
}

impl TrafficDataSource {
    /// The source that a name selects: `gmaps` the directions service, with no
    /// response yet, `osm` the network's own data, any other name the unknown source.
    pub fn from_str(s: &str) -> (r: TrafficDataSource)
        ensures
            r@ == if s@ == "gmaps"@ {
                SourceView::GoogleRoutes(Seq::empty())
            } else if s@ == "osm"@ {
                SourceView::OpenStreetMap
            } else {
                SourceView::Unknown
            },
    {
        if same_text(s, "gmaps") {
            let responses = Vec::new();
            let r = TrafficDataSource::GoogleRoutes(responses);
            assert(r@ =~= SourceView::GoogleRoutes(Seq::empty())) by {
                assert(r@->GoogleRoutes_0 =~= Seq::empty());
            }
            r
        } else if same_text(s, "osm") {
            TrafficDataSource::OpenStreetMap
        } else {
            TrafficDataSource::Unknown
        }
    }
}

/// The segment as a state holds it: with half its lanes where it runs both ways.
pub fn adjust_lanes(street: &Street) -> (r: Street)
    ensures
        r@ == adjusted(street@),
{
    let lanes = if street.oneway {
        street.lanes.duplicate()
    } else {
        street.lanes.div(&Ratio::from_u64(2)).unwrap()
    };
    Street {
        id: street.id,
        start: street.start,
        end: street.end,
        lanes,
        maxspeed: street.maxspeed,
        length: street.length.duplicate(),
        oneway: street.oneway,
        highway: street.highway.clone(),
    }
}

impl MarkovChain {
    /// The traffic estimates that a source gives for the segment at position `index`
    /// of the network.
    pub fn get_traffic_data(source: &TrafficDataSource, street_info: &Street, index: usize) -> (r:
        Option<TrafficFlow>)
        ensures
            r.is_some() == traffic_flow(source@, street_info@, index as int).is_some(),
            r.is_some() ==> r.unwrap()@ == traffic_flow(
                source@,
                street_info@,
                index as int,
            ).unwrap(),
    {
        match source {
            TrafficDataSource::OpenStreetMap => {
                let length = Value::Known(street_info.length.duplicate());
                let speed = Value::from_u64(street_info.maxspeed as u64);
                let kilometres = length.div(&Value::from_u64(1000));
                Some(
                    TrafficFlow {
                        estimated_travel_time: kilometres.div(&speed),
                        estimated_average_speed: speed,
                        estimated_density: Value::Unknown,
                    },
                )
            },
            TrafficDataSource::GoogleRoutes(responses) => {
                if index < responses.len() {
                    let response = &responses[index];
                    Some(
                        TrafficFlow {
                            estimated_travel_time: Value::Known(
                                response.estimated_travel_time.duplicate(),
                            ),
                            estimated_average_speed: Value::Known(
                                response.estimated_average_speed.duplicate(),
                            ),
                            estimated_density: Value::Unknown,
                        },
                    )
                } else {
                    None
                }
            },
            _ => None,
        }
    }
}

/// The views of a vector of numbers, in order.
pub open spec fn ratio_views(numbers: Seq<Ratio>) -> Seq<real> {
    Seq::new(numbers.len(), |i: int| numbers[i]@)
}

/// Every id among the successors of a state is the position of a segment.
pub proof fn lemma_successors_bounded(edges: Seq<StreetView>, x: int, upto: int)
    requires
        upto <= u64::MAX,
    ensures
        forall|j: int|
            0 <= j < successors(edges, x, upto).len() ==> 0 <= (#[trigger] successors(
                edges,
                x,
                upto,
            )[j]) < upto,
    decreases upto,
{
    if upto > 0 {
        lemma_successors_bounded(edges, x, upto - 1);
        let before = successors(edges, x, upto - 1);
        let all = successors(edges, x, upto);
        assert forall|j: int| 0 <= j < all.len() implies 0 <= (#[trigger] all[j]) < upto by {
            if j < before.len() {
                assert(all[j] == before[j]);
            } else {
                assert(all[j] == (upto - 1) as u64);
            }
        }
    }
}

/// A state is among its own successors.
pub proof fn lemma_successors_hold_self(edges: Seq<StreetView>, x: int, upto: int)
    requires
        0 <= x < upto,
    ensures
        successors(edges, x, upto).contains(x as u64),
        successors(edges, x, upto).len() >= 1,
    decreases upto,
{
    if x == upto - 1 {
        let s = successors(edges, x, upto - 1).push(x as u64);
        assert(s[s.len() - 1] == x as u64);
    } else {
        lemma_successors_hold_self(edges, x, upto - 1);
        let before = successors(edges, x, upto - 1);
        let j = choose|j: int| 0 <= j < before.len() && before[j] == x as u64;
        if connects(edges, x, upto - 1) {
            assert(before.push((upto - 1) as u64)[j] == x as u64);
        }
    }
}

/// The intersections at the two ends of every segment, unless an end of one is no
/// intersection of the network.
fn resolve_endpoints(network: &NetworkData) -> (r: Option<Vec<(Intersection, Intersection)>>)
    ensures
        r.is_some() <==> forall|x: int| 0 <= x < network@.edges.len() ==> resolved(network@, x),
        r.is_some() ==> {
            &&& r.unwrap()@.len() == network@.edges.len()
            &&& forall|x: int|
                0 <= x < network@.edges.len() ==> {
                    &&& (#[trigger] r.unwrap()@[x]).0 == first_with_id(
                        network@.nodes,
                        network@.edges[x].start,
                        0,
                    ).unwrap()
                    &&& r.unwrap()@[x].1 == first_with_id(
                        network@.nodes,
                        network@.edges[x].end,
                        0,
                    ).unwrap()
                }
        },
{
    let mut out: Vec<(Intersection, Intersection)> = Vec::new();
    let mut x: usize = 0;
    while x < network.edges.len()
        invariant
            x <= network.edges.len(),
            out@.len() == x,
            forall|k: int| 0 <= k < x ==> resolved(network@, k),
            forall|k: int|
                0 <= k < x ==> {
                    &&& (#[trigger] out@[k]).0 == first_with_id(
                        network@.nodes,
                        network@.edges[k].start,
                        0,
                    ).unwrap()
                    &&& out@[k].1 == first_with_id(
                        network@.nodes,
                        network@.edges[k].end,
                        0,
                    ).unwrap()
                },
        decreases network.edges.len() - x,
    {
        let street = &network.edges[x];
        assert(network@.edges[x as int] == street@);
        let start = network.find_intersection(street.start);
        let end = network.find_intersection(street.end);
        match (start, end) {
            (Some(a), Some(b)) => {
                out.push((a, b));
            },
            _ => {
                assert(!resolved(network@, x as int));
                return None;
            },
        }
        x += 1;
    }
    Some(out)
}

/// The traffic estimates of every segment and their travel times, unless the travel
/// time of one is not known.
fn collect_flows(source: &TrafficDataSource, edges: &Vec<Street>) -> (r: Option<
    (Vec<TrafficFlow>, Vec<Ratio>),
>)
    ensures
        r.is_some() <==> forall|x: int|
            0 <= x < edges@.len() ==> travel_time(source@, street_views(edges@), x).is_some(),
        r.is_some() ==> {
            &&& r.unwrap().0@.len() == edges@.len()
            &&& r.unwrap().1@.len() == edges@.len()
            &&& forall|x: int|
                0 <= x < edges@.len() ==> Some((#[trigger] r.unwrap().0@[x])@) == traffic_flow(
                    source@,
                    edges@[x]@,
                    x,
                )
            &&& forall|x: int|
                0 <= x < edges@.len() ==> Some((#[trigger] r.unwrap().1@[x])@) == travel_time(
                    source@,
                    street_views(edges@),
                    x,
                )
        },
{
    let mut flows: Vec<TrafficFlow> = Vec::new();
    let mut times: Vec<Ratio> = Vec::new();
    let mut x: usize = 0;
    while x < edges.len()
        invariant
            x <= edges.len(),
            flows@.len() == x,
            times@.len() == x,
            forall|k: int|
                0 <= k < x ==> travel_time(source@, street_views(edges@), k).is_some(),
            forall|k: int|
                0 <= k < x ==> Some((#[trigger] flows@[k])@) == traffic_flow(
                    source@,
                    edges@[k]@,
                    k,
                ),
            forall|k: int|
                0 <= k < x ==> Some((#[trigger] times@[k])@) == travel_time(
                    source@,
                    street_views(edges@),
                    k,
                ),
        decreases edges.len() - x,
    {
        assert(street_views(edges@)[x as int] == edges@[x as int]@);
        match MarkovChain::get_traffic_data(source, &edges[x], x) {
            Some(flow) => {
                match &flow.estimated_travel_time {
                    Value::Known(time) => {
                        times.push(time.duplicate());
                    },
                    Value::Unknown => {
                        assert(travel_time(source@, street_views(edges@), x as int).is_none());
                        return None;
                    },
                }
                flows.push(flow);
            },
            None => {
                assert(travel_time(source@, street_views(edges@), x as int).is_none());
                return None;
            },
        }
        x += 1;
    }
    Some((flows, times))
}

/// The least of the given numbers.
fn least_of(numbers: &Vec<Ratio>) -> (r: Ratio)
    requires
        numbers@.len() > 0,
    ensures
        r@ == minimum(ratio_views(numbers@)),
{
    let ghost all = ratio_views(numbers@);
    let mut best = numbers[0].duplicate();
    let mut i: usize = 1;
    assert(all.take(1).len() == 1);
    while i < numbers.len()
        invariant
            1 <= i <= numbers.len(),
            all == ratio_views(numbers@),
            best@ == minimum(all.take(i as int)),
        decreases numbers.len() - i,
    {
        proof {
            let next = all.take(i + 1);
            assert(next.drop_last() =~= all.take(i as int));
            assert(next.last() == numbers@[i as int]@);
        }
        if numbers[i].less_than(&best) {
            best = numbers[i].duplicate();
        }
        i += 1;
    }
    assert(all.take(numbers@.len() as int) =~= all);
    best
}

/// The ids of the states that the state `x` has a transition to, in rising order.
pub fn successors_of(edges: &Vec<Street>, x: usize) -> (r: Vec<u64>)
    requires
        x < edges@.len(),
    ensures
        r@ == successors(street_views(edges@), x as int, edges@.len() as int),
{
    let mut out: Vec<u64> = Vec::new();
    let mut y: usize = 0;
    while y < edges.len()
        invariant
            y <= edges.len(),
            x < edges.len(),
            out@ == successors(street_views(edges@), x as int, y as int),
        decreases edges.len() - y,
    {
        assert(street_views(edges@)[y as int] == edges@[y as int]@);
        assert(street_views(edges@)[x as int] == edges@[x as int]@);
        if y == x || edges[y].start == edges[x].end {
            out.push(y as u64);
        }
        y += 1;
    }
    out
}

/// The transitions to the given states, for the state `x`.
fn make_transitions(targets: &Vec<u64>, x: u64, staying: &Value, leaving: &Value) -> (r: Vec<
    MarkovTransition,
>)
    ensures
        transition_views(r@) == built_transitions(targets@, x, staying@, leaving@),
{
    let mut out: Vec<MarkovTransition> = Vec::new();
    let mut j: usize = 0;
    while j < targets.len()
        invariant
            j <= targets.len(),
            out@.len() == j,
            forall|k: int|
                0 <= k < j ==> (#[trigger] out@[k])@ == built_transitions(
                    targets@,
                    x,
                    staying@,
                    leaving@,
                )[k],
        decreases targets.len() - j,
    {
        let probability = if targets[j] == x {
            staying.duplicate()
        } else {
            leaving.duplicate()
        };
        out.push(MarkovTransition { id_to: targets[j], probability });
        j += 1;
    }
    assert(transition_views(out@) =~= built_transitions(targets@, x, staying@, leaving@));
    out
}

impl MarkovChain {
    /// The probability of staying on a segment, from its travel time and the least
    /// travel time of the network.
    pub fn self_probability(travel_time: &Ratio, least: &Ratio) -> (r: Value)
        ensures
            r@ == self_probability(travel_time@, least@),
    {
        let time = Value::Known(travel_time.duplicate());
        let normalized = time.div(&Value::Known(least.duplicate()));
        normalized.sub(&Value::from_u64(1)).div(&normalized)
    }

    /// The probability of each transition to another segment, from the probability
    /// of staying and the number of all transitions of the state.
    pub fn other_probability(staying: &Value, transition_count: usize) -> (r: Value)
        requires
            transition_count >= 1,
        ensures
            r@ == other_probability(staying@, transition_count as nat),
    {
        let others = Value::from_u64((transition_count - 1) as u64);
        Value::from_u64(1).sub(staying).div(&others)
    }
}

/// A chain that is built is well formed: ids are positions, every state has traffic
/// estimates, and every transition leads to a state of the chain.
pub proof fn lemma_built_chain_wf(source: SourceView, network: NetworkView)
    requires
        network.edges.len() <= u64::MAX,
        build_outcome(source, network).is_ok(),
    ensures
        chain_wf(built_chain(source, network)),
{
    let chain = built_chain(source, network);
    let n = network.edges.len() as int;
    assert forall|x: int| 0 <= x < chain.graph.len() implies {
        &&& (#[trigger] chain.graph[x]).id == x
        &&& chain.graph[x].traffic_data.is_some()
        &&& forall|j: int|
            0 <= j < chain.graph[x].transitions.len() ==> (
            #[trigger] chain.graph[x].transitions[j]).id_to < chain.graph.len()
    } by {
        assert(chain.graph[x] == built_node(source, network, x));
        assert(travel_time(source, network.edges, x).is_some());
        lemma_successors_bounded(network.edges, x, n);
        let targets = successors(network.edges, x, n);
        assert forall|j: int| 0 <= j < chain.graph[x].transitions.len() implies (
        #[trigger] chain.graph[x].transitions[j]).id_to < chain.graph.len() by {
            assert(chain.graph[x].transitions[j].id_to == targets[j]);
        }
    }
}

impl MarkovChain {
    /// The chain over the segments of a network: one state for each segment, in
    /// their order, with the traffic estimates of the given source, a transition
    /// from each state to itself and to every segment that starts where it ends,
    /// and the probabilities normalized by the least travel time of the network.
    ///
    /// There is no chain where an end of a segment is no intersection of the
    /// network, where the network has no segment, or where the travel time of a
    /// segment is not known.
    pub fn new_from_network(
        traffic_data_source: TrafficDataSource,
        network_graph: NetworkData,
    ) -> (r: Result<MarkovChain, BuildError>)
        ensures
            match r {
                Ok(chain) => build_outcome(traffic_data_source@, network_graph@) == Ok::<
                    ChainView,
                    BuildError,
                >(chain@),
                Err(e) => build_outcome(traffic_data_source@, network_graph@) == Err::<
                    ChainView,
                    BuildError,
                >(e),
            },
            r.is_ok() ==> r.unwrap()@.graph.len() == network_graph@.edges.len(),
            r.is_ok() ==> chain_wf(r.unwrap()@),
    {
        let ghost source = traffic_data_source@;
        let ghost network = network_graph@;
        let n = network_graph.edges.len();
        let endpoints = match resolve_endpoints(&network_graph) {
            Some(found) => found,
            None => {
                return Err(BuildError::UnresolvedIntersection);
            },
        };
        if n == 0 {
            return Err(BuildError::EmptyNetwork);
        }
        let (flows, times) = match collect_flows(&traffic_data_source, &network_graph.edges) {
            Some(found) => found,
            None => {
                return Err(BuildError::UnknownTravelTime);
            },
        };
        let least = least_of(&times);
        assert(ratio_views(times@) =~= travel_times(source, network.edges));
        let mut graph: Vec<MarkovNode> = Vec::new();
        let mut x: usize = 0;
        while x < n
            invariant
                x <= n,
                n == network_graph.edges@.len(),
                source == traffic_data_source@,
                network == network_graph@,
                endpoints@.len() == n,
                flows@.len() == n,
                times@.len() == n,
                least@ == minimum(travel_times(source, network.edges)),
                forall|k: int|
                    0 <= k < n ==> {
                        &&& (#[trigger] endpoints@[k]).0 == first_with_id(
                            network.nodes,
                            network.edges[k].start,
                            0,
                        ).unwrap()
                        &&& endpoints@[k].1 == first_with_id(
                            network.nodes,
                            network.edges[k].end,
                            0,
                        ).unwrap()
                    },
                forall|k: int|
                    0 <= k < n ==> Some((#[trigger] flows@[k])@) == traffic_flow(
                        source,
                        network_graph.edges@[k]@,
                        k,
                    ),
                forall|k: int|
                    0 <= k < n ==> Some((#[trigger] times@[k])@) == travel_time(
                        source,
                        network.edges,
                        k,
                    ),
                graph@.len() == x,
                forall|k: int| 0 <= k < x ==> (#[trigger] graph@[k])@ == built_node(source, network, k),
            decreases n - x,
        {
            let street = &network_graph.edges[x];
            let targets = successors_of(&network_graph.edges, x);
            proof {
                lemma_successors_hold_self(network.edges, x as int, n as int);
                assert(network.edges[x as int] == street@);
            }
            let staying = MarkovChain::self_probability(&times[x], &least);
            let leaving = MarkovChain::other_probability(&staying, targets.len());
            let transitions = make_transitions(&targets, x as u64, &staying, &leaving);
            let node = MarkovNode {
                id: x as u64,
                id_osm: street.id,
                street_start: endpoints[x].0,
                street_end: endpoints[x].1,
                street_data: adjust_lanes(street),
                traffic_data: Some(flows[x].duplicate()),
                transitions,
            };
            assert(node@ == built_node(source, network, x as int));
            graph.push(node);
            x += 1;
        }
        proof {
            assert(node_views(graph@) =~= built_chain(source, network).graph);
            lemma_built_chain_wf(source, network);
        }
        Ok(MarkovChain { name: network_graph.name, graph })
    }
}

} // verus!
