use geomarkover::builder::{adjust_lanes, same_text, successors_of};
use geomarkover::data_reader::{Intersection, NetworkData, Street};
use geomarkover::google_routes::RoutesResponse;
use geomarkover::markov_chain::{BuildError, MarkovChain, MarkovNode, TrafficDataSource};
use geomarkover::ratio::Ratio;
use geomarkover::value::Value;

fn frac(num: u64, den: u64) -> Ratio {
    Ratio::from_fraction(num, den).unwrap()
}

fn is(v: &Value, num: u64, den: u64) -> bool {
    match v {
        Value::Known(r) => r.equals(&frac(num, den)),
        Value::Unknown => false,
    }
}

fn street(id: u64, start: u64, end: u64, length_m: u64, maxspeed: u8, oneway: bool) -> Street {
    Street::new(
        id,
        start,
        end,
        Ratio::from_u64(3),
        maxspeed,
        Ratio::from_u64(length_m),
        oneway,
        "tertiary".to_string(),
    )
}

fn corners(ids: &[u64]) -> Vec<Intersection> {
    ids.iter().map(|id| Intersection::new(*id, 10 * (*id as i64), -20 * (*id as i64))).collect()
}

fn network(ids: &[u64], edges: Vec<Street>) -> NetworkData {
    NetworkData::new("place".to_string(), corners(ids), edges)
}

fn build(nw: NetworkData) -> MarkovChain {
    MarkovChain::new_from_network(TrafficDataSource::OpenStreetMap, nw).unwrap()
}

fn targets(node: &MarkovNode) -> Vec<u64> {
    node.transitions().iter().map(|t| t.id_to()).collect()
}

/// A crossing: four segments into and out of the intersection 5, with travel
/// times of 1, 2, 3 and 4 times the least.
fn crossing() -> NetworkData {
    network(
        &[1, 2, 5],
        vec![
            street(100, 1, 5, 100, 50, true),
            street(200, 5, 2, 200, 50, false),
            street(300, 5, 1, 300, 50, true),
            street(400, 2, 5, 400, 50, false),
        ],
    )
}

#[test]
fn source_is_selected_by_name() {
    match TrafficDataSource::from_str("gmaps") {
        TrafficDataSource::GoogleRoutes(responses) => assert!(responses.is_empty()),
        other => panic!("{:?}", other),
    }
    assert!(matches!(TrafficDataSource::from_str("osm"), TrafficDataSource::OpenStreetMap));
    assert!(matches!(TrafficDataSource::from_str("here"), TrafficDataSource::Unknown));
    assert!(matches!(TrafficDataSource::from_str(""), TrafficDataSource::Unknown));
    assert!(matches!(TrafficDataSource::from_str("OSM"), TrafficDataSource::Unknown));
}

#[test]
fn texts_are_compared_letter_by_letter() {
    assert!(same_text("osm", "osm"));
    assert!(!same_text("osm", "osn"));
    assert!(!same_text("osm", "os"));
    assert!(same_text("", ""));
    assert!(same_text("Florianópolis", "Florianópolis"));
}

#[test]
fn intersection_is_found_by_id() {
    let nw = NetworkData::new(
        "place".to_string(),
        vec![Intersection::new(7, 1, 2), Intersection::new(8, 3, 4), Intersection::new(7, 5, 6)],
        Vec::new(),
    );
    assert_eq!(nw.find_intersection(7), Some(Intersection::new(7, 1, 2)));
    assert_eq!(nw.find_intersection(8), Some(Intersection::new(8, 3, 4)));
    assert_eq!(nw.find_intersection(9), None);
}

#[test]
fn lanes_are_halved_where_the_street_runs_both_ways() {
    let both = adjust_lanes(&street(1, 1, 2, 100, 50, false));
    assert!(both.lanes.equals(&frac(3, 2)));
    let one = adjust_lanes(&street(1, 1, 2, 100, 50, true));
    assert!(one.lanes.equals(&Ratio::from_u64(3)));
    assert_eq!(both.id, 1);
    assert_eq!(both.start, 1);
    assert_eq!(both.end, 2);
    assert_eq!(both.maxspeed, 50);
    assert!(both.length.equals(&Ratio::from_u64(100)));
    assert!(!both.oneway);
    assert_eq!(both.highway, "tertiary");
}

#[test]
fn states_hold_their_segments_with_adjusted_lanes() {
    let chain = build(crossing());
    let graph = chain.graph();
    assert!(graph[0].street_data().lanes.equals(&Ratio::from_u64(3)));
    assert!(graph[1].street_data().lanes.equals(&frac(3, 2)));
    assert!(graph[2].street_data().lanes.equals(&Ratio::from_u64(3)));
    assert!(graph[3].street_data().lanes.equals(&frac(3, 2)));
}

#[test]
fn travel_time_from_length_and_speed_limit() {
    let source = TrafficDataSource::OpenStreetMap;
    let flow = MarkovChain::get_traffic_data(&source, &street(1, 1, 2, 500, 50, true), 0).unwrap();
    assert!(is(flow.estimated_travel_time(), 1, 100));
    assert!(is(flow.estimated_average_speed(), 50, 1));
    assert!(!flow.estimated_density().is_known());
}

#[test]
fn travel_time_is_unknown_without_a_speed_limit() {
    let source = TrafficDataSource::OpenStreetMap;
    let flow = MarkovChain::get_traffic_data(&source, &street(1, 1, 2, 500, 0, true), 0).unwrap();
    assert!(!flow.estimated_travel_time().is_known());
    assert!(is(flow.estimated_average_speed(), 0, 1));
}

#[test]
fn no_estimates_without_a_source() {
    let s = street(1, 1, 2, 500, 50, true);
    assert!(MarkovChain::get_traffic_data(&TrafficDataSource::NoSource, &s, 0).is_none());
    assert!(MarkovChain::get_traffic_data(&TrafficDataSource::Unknown, &s, 0).is_none());
}

#[test]
fn route_response_from_distance_and_duration() {
    let r = RoutesResponse::from_leg(1000, 60, None);
    assert!(r.distance.equals(&Ratio::from_u64(1000)));
    assert!(r.time_secs.equals(&Ratio::from_u64(60)));
    assert!(r.estimated_average_speed.equals(&Ratio::from_u64(60)));
    assert!(r.estimated_travel_time.equals(&frac(1, 60)));
}

#[test]
fn route_response_prefers_the_duration_in_traffic() {
    let r = RoutesResponse::from_leg(1000, 60, Some(120));
    assert!(r.time_secs.equals(&Ratio::from_u64(120)));
    assert!(r.estimated_average_speed.equals(&Ratio::from_u64(30)));
    assert!(r.estimated_travel_time.equals(&frac(1, 30)));
}

#[test]
fn route_response_has_least_distance_and_duration() {
    let r = RoutesResponse::from_leg(0, 0, None);
    assert!(r.distance.equals(&Ratio::from_u64(1)));
    assert!(r.time_secs.equals(&frac(1, 10000)));
    assert!(r.estimated_average_speed.equals(&Ratio::from_u64(36000)));
    assert!(r.estimated_travel_time.equals(&frac(1, 36_000_000)));
    let negative = RoutesResponse::from_leg(5, -3, Some(-7));
    assert!(negative.time_secs.equals(&frac(1, 10000)));
    let copy = r.duplicate();
    assert!(copy.estimated_travel_time.equals(&r.estimated_travel_time));
}

#[test]
fn estimates_of_a_directions_service_go_by_position() {
    let source = TrafficDataSource::GoogleRoutes(vec![
        RoutesResponse::from_leg(1000, 60, None),
        RoutesResponse::from_leg(1000, 120, None),
    ]);
    let s = street(1, 1, 2, 500, 50, true);
    let second = MarkovChain::get_traffic_data(&source, &s, 1).unwrap();
    assert!(is(second.estimated_travel_time(), 1, 30));
    assert!(is(second.estimated_average_speed(), 30, 1));
    assert!(!second.estimated_density().is_known());
    assert!(MarkovChain::get_traffic_data(&source, &s, 2).is_none());
}

#[test]
fn chain_from_a_directions_service() {
    let nw = network(
        &[1, 2],
        vec![street(10, 1, 2, 100, 50, true), street(20, 2, 1, 100, 50, true)],
    );
    let source = TrafficDataSource::GoogleRoutes(vec![
        RoutesResponse::from_leg(1000, 60, None),
        RoutesResponse::from_leg(1000, 240, None),
    ]);
    let chain = MarkovChain::new_from_network(source, nw).unwrap();
    let graph = chain.graph();
    assert!(is(graph[0].transitions()[0].probability(), 0, 1));
    assert!(is(graph[0].transitions()[1].probability(), 1, 1));
    assert!(is(graph[1].transitions()[1].probability(), 3, 4));
    assert!(is(graph[1].transitions()[0].probability(), 1, 4));
    assert!(is(graph[1].traffic_data().unwrap().estimated_travel_time(), 1, 15));
}

#[test]
fn chain_fails_where_a_response_is_missing() {
    let nw = network(
        &[1, 2],
        vec![street(10, 1, 2, 100, 50, true), street(20, 2, 1, 100, 50, true)],
    );
    let source = TrafficDataSource::GoogleRoutes(vec![RoutesResponse::from_leg(1000, 60, None)]);
    let built = MarkovChain::new_from_network(source, nw);
    assert_eq!(built.err(), Some(BuildError::UnknownTravelTime));
}

#[test]
fn chain_fails_without_estimates() {
    for name in ["gmaps", "none", ""] {
        let nw = network(&[1, 2], vec![street(10, 1, 2, 100, 50, true)]);
        let built = MarkovChain::new_from_network(TrafficDataSource::from_str(name), nw);
        assert_eq!(built.err(), Some(BuildError::UnknownTravelTime));
    }
    let nw = network(&[1, 2], vec![street(10, 1, 2, 100, 50, true)]);
    let built = MarkovChain::new_from_network(TrafficDataSource::NoSource, nw);
    assert_eq!(built.err(), Some(BuildError::UnknownTravelTime));
}

#[test]
fn chain_fails_on_a_segment_without_speed_limit() {
    let nw = network(
        &[1, 2],
        vec![street(10, 1, 2, 100, 50, true), street(20, 2, 1, 100, 0, true)],
    );
    let built = MarkovChain::new_from_network(TrafficDataSource::OpenStreetMap, nw);
    assert_eq!(built.err(), Some(BuildError::UnknownTravelTime));
}

#[test]
fn chain_fails_on_an_empty_network() {
    let built = MarkovChain::new_from_network(
        TrafficDataSource::OpenStreetMap,
        network(&[1, 2], Vec::new()),
    );
    assert_eq!(built.err(), Some(BuildError::EmptyNetwork));
}

#[test]
fn chain_fails_on_an_unresolved_end_before_anything_else() {
    let start = network(&[2], vec![street(10, 1, 2, 100, 50, true)]);
    let built = MarkovChain::new_from_network(TrafficDataSource::OpenStreetMap, start);
    assert_eq!(built.err(), Some(BuildError::UnresolvedIntersection));
    let end = network(&[1], vec![street(10, 1, 2, 100, 0, true)]);
    let built = MarkovChain::new_from_network(TrafficDataSource::NoSource, end);
    assert_eq!(built.err(), Some(BuildError::UnresolvedIntersection));
}

#[test]
fn one_state_for_each_segment_with_ids_in_order() {
    let chain = build(crossing());
    let graph = chain.graph();
    assert_eq!(chain.name(), "place");
    assert_eq!(graph.len(), 4);
    for (x, node) in graph.iter().enumerate() {
        assert_eq!(node.id(), x as u64);
        assert_eq!(node.id_osm(), 100 * (x as u64 + 1));
    }
    assert_eq!(graph[0].street_start(), Intersection::new(1, 10, -20));
    assert_eq!(graph[0].street_end(), Intersection::new(5, 50, -100));
    assert_eq!(graph[3].street_start(), Intersection::new(2, 20, -40));
    assert_eq!(graph[3].street_end(), Intersection::new(5, 50, -100));
}

#[test]
fn ids_start_anew_with_every_chain() {
    let first = build(crossing());
    let second = build(crossing());
    assert_eq!(first.graph()[0].id(), 0);
    assert_eq!(second.graph()[0].id(), 0);
    assert_eq!(second.graph()[3].id(), 3);
}

#[test]
fn successors_are_the_state_and_what_starts_at_its_end() {
    let nw = crossing();
    assert_eq!(successors_of(&nw.edges, 0), vec![0, 1, 2]);
    assert_eq!(successors_of(&nw.edges, 1), vec![1, 3]);
    assert_eq!(successors_of(&nw.edges, 2), vec![0, 2]);
    assert_eq!(successors_of(&nw.edges, 3), vec![1, 2, 3]);
    let chain = build(nw);
    let graph = chain.graph();
    assert_eq!(targets(&graph[0]), vec![0, 1, 2]);
    assert_eq!(targets(&graph[1]), vec![1, 3]);
    assert_eq!(targets(&graph[2]), vec![0, 2]);
    assert_eq!(targets(&graph[3]), vec![1, 2, 3]);
}

#[test]
fn probabilities_follow_the_normalized_travel_time() {
    let chain = build(crossing());
    let graph = chain.graph();
    // travel times 1, 2, 3, 4 times the least
    assert!(is(graph[0].transitions()[0].probability(), 0, 1));
    assert!(is(graph[0].transitions()[1].probability(), 1, 2));
    assert!(is(graph[0].transitions()[2].probability(), 1, 2));
    assert!(is(graph[1].transitions()[0].probability(), 1, 2));
    assert!(is(graph[1].transitions()[1].probability(), 1, 2));
    assert!(is(graph[2].transitions()[0].probability(), 1, 3));
    assert!(is(graph[2].transitions()[1].probability(), 2, 3));
    assert!(is(graph[3].transitions()[0].probability(), 1, 8));
    assert!(is(graph[3].transitions()[1].probability(), 1, 8));
    assert!(is(graph[3].transitions()[2].probability(), 3, 4));
}

#[test]
fn probabilities_of_a_state_add_up_to_one() {
    let chain = build(crossing());
    for node in chain.graph().iter() {
        let mut total = Value::from_u64(0);
        for t in node.transitions().iter() {
            total = total.add(t.probability());
        }
        assert!(is(&total, 1, 1));
    }
}

#[test]
fn probability_of_staying_is_below_one_and_zero_at_the_least_travel_time() {
    let chain = build(crossing());
    let one = Ratio::from_u64(1);
    for (x, node) in chain.graph().iter().enumerate() {
        let own: Vec<_> = node.transitions().iter().filter(|t| t.id_to() == node.id()).collect();
        assert_eq!(own.len(), 1);
        match own[0].probability() {
            Value::Known(p) => {
                assert!(p.less_than(&one));
                assert_eq!(p.is_zero(), x == 0);
            }
            Value::Unknown => panic!("unknown"),
        }
    }
}

#[test]
fn probability_formulas() {
    let staying = MarkovChain::self_probability(&frac(3, 100), &frac(1, 100));
    assert!(is(&staying, 2, 3));
    assert!(is(&MarkovChain::other_probability(&staying, 3), 1, 6));
    assert!(is(&MarkovChain::self_probability(&frac(1, 100), &frac(1, 100)), 0, 1));
    assert!(!MarkovChain::self_probability(&frac(1, 100), &frac(0, 1)).is_known());
    assert!(!MarkovChain::other_probability(&staying, 1).is_known());
    assert!(!MarkovChain::other_probability(&Value::Unknown, 3).is_known());
}

#[test]
fn dead_end_keeps_only_the_transition_to_itself() {
    let nw = network(
        &[1, 2, 3],
        vec![street(10, 1, 2, 100, 50, true), street(20, 2, 3, 300, 50, true)],
    );
    let chain = build(nw);
    let graph = chain.graph();
    assert_eq!(targets(&graph[0]), vec![0, 1]);
    assert_eq!(targets(&graph[1]), vec![1]);
    assert!(is(graph[1].transitions()[0].probability(), 2, 3));
}

#[test]
fn segment_of_no_length_leaves_every_probability_unknown() {
    let nw = network(
        &[1, 2],
        vec![street(10, 1, 2, 0, 50, true), street(20, 2, 1, 100, 50, true)],
    );
    let chain = build(nw);
    for node in chain.graph().iter() {
        assert_eq!(node.transitions().len(), 2);
        for t in node.transitions().iter() {
            assert!(!t.probability().is_known());
        }
    }
}

#[test]
fn parallel_segments_have_one_transition_to_themselves_each() {
    let nw = network(
        &[1, 2],
        vec![
            street(10, 1, 2, 100, 50, true),
            street(20, 1, 2, 100, 50, true),
            street(30, 2, 1, 100, 50, true),
        ],
    );
    let chain = build(nw);
    let graph = chain.graph();
    assert_eq!(targets(&graph[0]), vec![0, 2]);
    assert_eq!(targets(&graph[1]), vec![1, 2]);
    assert_eq!(targets(&graph[2]), vec![0, 1, 2]);
}

#[test]
fn segment_that_ends_where_it_starts() {
    let nw = network(
        &[1, 2],
        vec![street(10, 1, 1, 100, 50, true), street(20, 1, 2, 100, 50, true)],
    );
    let chain = build(nw);
    let graph = chain.graph();
    assert_eq!(targets(&graph[0]), vec![0, 1]);
    assert_eq!(targets(&graph[1]), vec![1]);
}

#[test]
fn estimates_of_each_state_come_from_its_segment() {
    let chain = build(crossing());
    let graph = chain.graph();
    for (x, node) in graph.iter().enumerate() {
        let flow = node.traffic_data().unwrap();
        assert!(is(flow.estimated_travel_time(), (x as u64 + 1) * 100, 50_000));
        assert!(is(flow.estimated_average_speed(), 50, 1));
        assert!(!flow.estimated_density().is_known());
        let copy = flow.duplicate();
        assert!(is(copy.estimated_travel_time(), (x as u64 + 1) * 100, 50_000));
    }
}

#[test]
fn files_are_named_after_the_source() {
    assert_eq!(MarkovChain::file_name("output/place", "osm"), "output/place/markov_chain_osm.json");
    assert_eq!(MarkovChain::file_name("", ""), "/markov_chain_.json");
}
