//! The Markov chain over street segments: its states, its transitions and the
//! rules by which it is built from a road network.

pub use crate::density::DensityError;
pub use crate::transition_matrix::TransitionMatrix;
pub use crate::value::Value;

use crate::data_reader::{first_with_id, Intersection, NetworkView, Street, StreetView};
use crate::google_routes::{RoutesResponse, RoutesView};
use crate::value::{q_add, q_div, q_sub};
use vstd::prelude::*;
use vstd::string::*;

verus! {

/// What is estimated of the traffic on one segment: the travel time in hours, the
/// average speed in kilometres per hour, and the density.
#[derive(Debug)]
pub struct TrafficFlow {
    pub(crate) estimated_travel_time: Value,
    pub(crate) estimated_average_speed: Value,
    pub(crate) estimated_density: Value,
}

/// A traffic flow with its quantities as real numbers, `None` where one is unknown.
pub struct TrafficFlowView {
    pub estimated_travel_time: Option<real>,
    pub estimated_average_speed: Option<real>,
    pub estimated_density: Option<real>,
}

impl View for TrafficFlow {
    type V = TrafficFlowView;

    open(crate) spec fn view(&self) -> TrafficFlowView {
        TrafficFlowView {
            estimated_travel_time: self.estimated_travel_time@,
            estimated_average_speed: self.estimated_average_speed@,
            estimated_density: self.estimated_density@,
        }
    }
}

impl TrafficFlow {
    pub fn estimated_travel_time(&self) -> (r: &Value)
        ensures
            r@ == self@.estimated_travel_time,
    {
        &self.estimated_travel_time
    }

    pub fn estimated_average_speed(&self) -> (r: &Value)
        ensures
            r@ == self@.estimated_average_speed,
    {
        &self.estimated_average_speed
    }

    pub fn estimated_density(&self) -> (r: &Value)
        ensures
            r@ == self@.estimated_density,
    {
        &self.estimated_density
    }

    /// A copy of the flow.
    pub fn duplicate(&self) -> (r: TrafficFlow)
        ensures
            r@ == self@,
    {
        TrafficFlow {
            estimated_travel_time: self.estimated_travel_time.duplicate(),
            estimated_average_speed: self.estimated_average_speed.duplicate(),
            estimated_density: self.estimated_density.duplicate(),
        }
    }
}

/// A transition to the state `id_to`, taken with the given probability.
#[derive(Debug)]
pub struct MarkovTransition {
    pub(crate) id_to: u64,
    pub(crate) probability: Value,
}

/// A transition with its probability as a real number, `None` where it is unknown.
pub struct TransitionView {
    pub id_to: u64,
    pub probability: Option<real>,
}

impl View for MarkovTransition {
    type V = TransitionView;

    open(crate) spec fn view(&self) -> TransitionView {
        TransitionView { id_to: self.id_to, probability: self.probability@ }
    }
}

impl MarkovTransition {
    pub fn id_to(&self) -> (r: u64)
        ensures
            r == self@.id_to,
    {
        self.id_to
    }

    pub fn probability(&self) -> (r: &Value)
        ensures
            r@ == self@.probability,
    {
        &self.probability
    }
}

/// The views of a vector of transitions, in order.
pub open spec fn transition_views(transitions: Seq<MarkovTransition>) -> Seq<TransitionView> {
    Seq::new(transitions.len(), |j: int| transitions[j]@)
}

/// A state of the chain: one street segment, with the intersections at its two
/// ends, its traffic estimates and the transitions that leave it.
#[derive(Debug)]
pub struct MarkovNode {
    pub(crate) id: u64,
    pub(crate) id_osm: u64,
    pub(crate) street_start: Intersection,
    pub(crate) street_end: Intersection,
    pub(crate) street_data: Street,
    pub(crate) traffic_data: Option<TrafficFlow>,
    pub(crate) transitions: Vec<MarkovTransition>,
}

/// A state with its quantities as real numbers.
pub struct NodeView {
    pub id: u64,
    pub id_osm: u64,
    pub street_start: Intersection,
    pub street_end: Intersection,
    pub street_data: StreetView,
    pub traffic_data: Option<TrafficFlowView>,
    pub transitions: Seq<TransitionView>,
}

impl View for MarkovNode {
    type V = NodeView;

    open(crate) spec fn view(&self) -> NodeView {
        NodeView {
            id: self.id,
            id_osm: self.id_osm,
            street_start: self.street_start,
            street_end: self.street_end,
            street_data: self.street_data@,
            traffic_data: match self.traffic_data {
                Some(flow) => Some(flow@),
                None => None,
            },
            transitions: transition_views(self.transitions@),
        }
    }
}

impl MarkovNode {
    pub fn id(&self) -> (r: u64)
        ensures
            r == self@.id,
    {
        self.id
    }

    pub fn id_osm(&self) -> (r: u64)
        ensures
            r == self@.id_osm,
    {
        self.id_osm
    }

    pub fn street_start(&self) -> (r: Intersection)
        ensures
            r == self@.street_start,
    {
        self.street_start
    }

    pub fn street_end(&self) -> (r: Intersection)
        ensures
            r == self@.street_end,
    {
        self.street_end
    }

    pub fn street_data(&self) -> (r: &Street)
        ensures
            r@ == self@.street_data,
    {
        &self.street_data
    }

    pub fn traffic_data(&self) -> (r: Option<&TrafficFlow>)
        ensures
            r.is_some() == self@.traffic_data.is_some(),
            r.is_some() ==> r.unwrap()@ == self@.traffic_data.unwrap(),
    {
        self.traffic_data.as_ref()
    }

    pub fn transitions(&self) -> (r: &Vec<MarkovTransition>)
        ensures
            transition_views(r@) == self@.transitions,
    {
        &self.transitions
    }
}

/// The views of a vector of states, in order.
pub open spec fn node_views(graph: Seq<MarkovNode>) -> Seq<NodeView> {
    Seq::new(graph.len(), |x: int| graph[x]@)
}

/// Where the traffic estimates of a chain come from.
#[derive(Debug)]
pub enum TrafficDataSource {
    /// A directions service, with the response it gave for each segment of the
    /// network, in the order of the segments.
    GoogleRoutes(Vec<RoutesResponse>),
    /// The network's own data: length and speed limit of each segment.
    OpenStreetMap,
    /// No estimates.
    NoSource,
    /// A source that was asked for by a name that is not known: no estimates.
    Unknown,
}

/// A source with the quantities it holds as real numbers.
pub enum SourceView {
    GoogleRoutes(Seq<RoutesView>),
    OpenStreetMap,
    NoSource,
    Unknown,
}

impl View for TrafficDataSource {
    type V = SourceView;

    open spec fn view(&self) -> SourceView {
        match self {
            TrafficDataSource::GoogleRoutes(responses) => SourceView::GoogleRoutes(
                Seq::new(responses@.len(), |i: int| responses@[i]@),
            ),
            TrafficDataSource::OpenStreetMap => SourceView::OpenStreetMap,
            TrafficDataSource::NoSource => SourceView::NoSource,
            TrafficDataSource::Unknown => SourceView::Unknown,
        }
    }
}

/// Why no chain could be built from a network.
#[derive(Debug, Clone, Copy, PartialEq, Eq, Structural)]
pub enum BuildError {
    /// A segment starts or ends at an id that no intersection of the network has.
    UnresolvedIntersection,
    /// The network has no segment, so there is no shortest travel time.
    EmptyNetwork,
    /// The travel time of a segment is not known.
    UnknownTravelTime,
}

/// A Markov chain over the segments of a network.
#[derive(Debug)]
pub struct MarkovChain {
    pub(crate) name: String,
    pub(crate) graph: Vec<MarkovNode>,
}

/// A chain with its quantities as real numbers.
pub struct ChainView {
    pub name: Seq<char>,
    pub graph: Seq<NodeView>,
}

impl View for MarkovChain {
    type V = ChainView;

    open(crate) spec fn view(&self) -> ChainView {
        ChainView { name: self.name@, graph: node_views(self.graph@) }
    }
}

impl MarkovChain {
    /// What holds of every chain that the program holds.
    #[verifier::type_invariant]
    pub open(crate) spec fn wf(&self) -> bool {
        chain_wf(self@)
    }

    pub fn name(&self) -> (r: &String)
        ensures
            r@ == self@.name,
    {
        &self.name
    }

    /// The name of the file that holds a chain: in the directory `path`, for the
    /// traffic data source of the given name.
    pub fn file_name(path: &str, data_source_str: &str) -> (r: String)
        ensures
            r@ == path@ + "/markov_chain_"@ + data_source_str@ + ".json"@,
    {
        let mut name = String::new();
        name.append(path);
        name.append("/markov_chain_");
        name.append(data_source_str);
        name.append(".json");
        assert(name@ =~= path@ + "/markov_chain_"@ + data_source_str@ + ".json"@);
        name
    }

    /// The states of the chain, in the order of their ids.
    pub fn graph(&self) -> (r: &Vec<MarkovNode>)
        ensures
            node_views(r@) == self@.graph,
            chain_wf(self@),
    {
        proof {
            use_type_invariant(self);
        }
        &self.graph
    }
}

/// What holds of every chain: the id of a state is its position, every state has
/// traffic estimates, and every transition leads to a state of the chain.
pub open spec fn chain_wf(chain: ChainView) -> bool {
    forall|x: int|
        0 <= x < chain.graph.len() ==> {
            &&& (#[trigger] chain.graph[x]).id == x
            &&& chain.graph[x].traffic_data.is_some()
            &&& forall|j: int|
                0 <= j < chain.graph[x].transitions.len() ==> (
                #[trigger] chain.graph[x].transitions[j]).id_to < chain.graph.len()
        }
}

// The rules of the build

/// The estimates that the network's own data give for a segment: the travel time
/// is the length in kilometres over the speed limit.
pub open spec fn osm_flow(street: StreetView) -> TrafficFlowView {
    TrafficFlowView {
        estimated_travel_time: q_div(
            q_div(Some(street.length), Some(1000real)),
            Some(street.maxspeed as real),
        ),
        estimated_average_speed: Some(street.maxspeed as real),
        estimated_density: None,
    }
}

/// The estimates that a directions service's response gives.
pub open spec fn routes_flow(response: RoutesView) -> TrafficFlowView {
    TrafficFlowView {
        estimated_travel_time: Some(response.estimated_travel_time),
        estimated_average_speed: Some(response.estimated_average_speed),
        estimated_density: None,
    }
}

/// The estimates that a source gives for the segment at position `index`.
pub open spec fn traffic_flow(source: SourceView, street: StreetView, index: int) -> Option<
    TrafficFlowView,
> {
    match source {
        SourceView::OpenStreetMap => Some(osm_flow(street)),
        SourceView::GoogleRoutes(responses) => if 0 <= index < responses.len() {
            Some(routes_flow(responses[index]))
        } else {
            None
        },
        _ => None,
    }
}

/// The travel time that a source gives for the segment at position `x` of a network.
pub open spec fn travel_time(source: SourceView, edges: Seq<StreetView>, x: int) -> Option<real> {
    match traffic_flow(source, edges[x], x) {
        Some(flow) => flow.estimated_travel_time,
        None => None,
    }
}

/// A segment as a state holds it: a street that runs both ways has half its lanes.
pub open spec fn adjusted(street: StreetView) -> StreetView {
    StreetView {
        lanes: if street.oneway {
            street.lanes
        } else {
            street.lanes / 2real
        },
        ..street
    }
}

/// Whether the state `x` has a transition to the state `y`: to itself, and to every
/// segment that starts where `x` ends.
pub open spec fn connects(edges: Seq<StreetView>, x: int, y: int) -> bool {
    y == x || edges[y].start == edges[x].end
}

/// The ids of the states below `upto` that `x` has a transition to, in rising order.
pub open spec fn successors(edges: Seq<StreetView>, x: int, upto: int) -> Seq<u64>
    decreases upto,
{
    if upto <= 0 {
        Seq::empty()
    } else if connects(edges, x, upto - 1) {
        successors(edges, x, upto - 1).push((upto - 1) as u64)
    } else {
        successors(edges, x, upto - 1)
    }
}

/// The least of a sequence of numbers that is not empty.
pub open spec fn minimum(times: Seq<real>) -> real
    decreases times.len(),
{
    if times.len() <= 1 {
        times[0]
    } else if times.last() < minimum(times.drop_last()) {
        times.last()
    } else {
        minimum(times.drop_last())
    }
}

/// The travel times of all segments of a network, where each is known.
pub open spec fn travel_times(source: SourceView, edges: Seq<StreetView>) -> Seq<real> {
    Seq::new(edges.len(), |x: int| travel_time(source, edges, x).unwrap())
}

/// The probability of staying on a segment: with `n` the travel time over the
/// least travel time of the network, `(n - 1) / n`.
pub open spec fn self_probability(travel_time: real, least: real) -> Option<real> {
    let normalized = q_div(Some(travel_time), Some(least));
    q_div(q_sub(normalized, Some(1real)), normalized)
}

/// The probability of each transition to another segment: what the probability
/// of staying leaves, in equal shares.
pub open spec fn other_probability(staying: Option<real>, transition_count: nat) -> Option<
    real,
> {
    q_div(q_sub(Some(1real), staying), Some((transition_count - 1) as real))
}

/// The sum of the probabilities of the first `upto` transitions, unknown as soon
/// as one of them is.
pub open spec fn probability_sum(transitions: Seq<TransitionView>, upto: int) -> Option<real>
    decreases upto,
{
    if upto <= 0 {
        Some(0real)
    } else {
        q_add(probability_sum(transitions, upto - 1), transitions[upto - 1].probability)
    }
}

/// The transitions to the given states, for the state `x`.
pub open spec fn built_transitions(
    targets: Seq<u64>,
    x: u64,
    staying: Option<real>,
    leaving: Option<real>,
) -> Seq<TransitionView> {
    Seq::new(
        targets.len(),
        |j: int|
            TransitionView {
                id_to: targets[j],
                probability: if targets[j] == x {
                    staying
                } else {
                    leaving
                },
            },
    )
}

/// The state that is built for the segment at position `x`.
pub open spec fn built_node(source: SourceView, network: NetworkView, x: int) -> NodeView {
    let street = network.edges[x];
    let least = minimum(travel_times(source, network.edges));
    let targets = successors(network.edges, x, network.edges.len() as int);
    let staying = self_probability(travel_time(source, network.edges, x).unwrap(), least);
    NodeView {
        id: x as u64,
        id_osm: street.id,
        street_start: first_with_id(network.nodes, street.start, 0).unwrap(),
        street_end: first_with_id(network.nodes, street.end, 0).unwrap(),
        street_data: adjusted(street),
        traffic_data: traffic_flow(source, street, x),
        transitions: built_transitions(
            targets,
            x as u64,
            staying,
            other_probability(staying, targets.len()),
        ),
    }
}

/// The chain that is built from a network.
pub open spec fn built_chain(source: SourceView, network: NetworkView) -> ChainView {
    ChainView {
        name: network.name,
        graph: Seq::new(network.edges.len(), |x: int| built_node(source, network, x)),
    }
}

/// Whether both ends of the segment at position `x` are intersections of the network.
pub open spec fn resolved(network: NetworkView, x: int) -> bool {
    &&& first_with_id(network.nodes, network.edges[x].start, 0).is_some()
    &&& first_with_id(network.nodes, network.edges[x].end, 0).is_some()
}

/// What building a chain from a network gives: the chain, or the reason why there is none.
pub open spec fn build_outcome(source: SourceView, network: NetworkView) -> Result<
    ChainView,
    BuildError,
> {
    if exists|x: int| 0 <= x < network.edges.len() && !resolved(network, x) {
        Err(BuildError::UnresolvedIntersection)
    } else if network.edges.len() == 0 {
        Err(BuildError::EmptyNetwork)
    } else if exists|x: int|
        0 <= x < network.edges.len() && travel_time(source, network.edges, x).is_none() {
        Err(BuildError::UnknownTravelTime)
    } else {
        Ok(built_chain(source, network))
    }
}

} // verus!
