use geomarkover::data_reader::{Intersection, NetworkData, Street};
use geomarkover::density::DensityError;
use geomarkover::markov_chain::{MarkovChain, TrafficDataSource};
use geomarkover::ratio::Ratio;
use geomarkover::transition_matrix::{
    delimited_text,
    dense_text,
    matrix_file_name,
    TransitionMatrix,
};
use geomarkover::value::Value;

fn frac(num: u64, den: u64) -> Ratio {
    Ratio::from_fraction(num, den).unwrap()
}

fn known(num: u64, den: u64) -> Value {
    Value::Known(frac(num, den))
}

fn is(v: &Value, num: u64, den: u64) -> bool {
    match v {
        Value::Known(r) => r.equals(&frac(num, den)),
        Value::Unknown => false,
    }
}

fn street(id: u64, start: u64, end: u64, length_m: u64, lanes: u64, oneway: bool) -> Street {
    Street::new(
        id,
        start,
        end,
        Ratio::from_u64(lanes),
        50,
        Ratio::from_u64(length_m),
        oneway,
        "primary".to_string(),
    )
}

fn network(ids: &[u64], edges: Vec<Street>) -> NetworkData {
    let nodes = ids.iter().map(|id| Intersection::new(*id, 0, 0)).collect();
    NetworkData::new("place".to_string(), nodes, edges)
}

fn chain_of_three() -> MarkovChain {
    let nw = network(
        &[1, 2, 3],
        vec![
            street(10, 1, 2, 100, 1, true),
            street(20, 2, 3, 200, 1, true),
            street(30, 3, 1, 100, 1, true),
        ],
    );
    MarkovChain::new_from_network(TrafficDataSource::OpenStreetMap, nw).unwrap()
}

/// Two segments between the intersections 0 and 1, of 100 m and 400 m, with 2
/// lanes and 4 lanes that run both ways.
fn loop_over_small_ids() -> MarkovChain {
    let nw = network(
        &[0, 1],
        vec![street(10, 0, 1, 100, 2, true), street(20, 1, 0, 400, 4, false)],
    );
    MarkovChain::new_from_network(TrafficDataSource::OpenStreetMap, nw).unwrap()
}

fn places(entries: &[(usize, usize, Value)]) -> Vec<(usize, usize)> {
    entries.iter().map(|e| (e.0, e.1)).collect()
}

#[test]
fn matrix_has_one_row_for_each_state() {
    let chain = chain_of_three();
    let matrix = TransitionMatrix::new_from_markov_chain(&chain);
    assert_eq!(matrix.dim(), 3);
    assert_eq!(matrix.dim(), chain.graph().len());
}

#[test]
fn matrix_holds_every_transition_with_its_probability() {
    let chain = chain_of_three();
    let matrix = TransitionMatrix::new_from_markov_chain(&chain);
    let entries = matrix.matrix();
    assert_eq!(places(&entries), vec![(0, 0), (0, 1), (1, 1), (1, 2), (2, 0), (2, 2)]);
    let mut k = 0;
    for node in chain.graph().iter() {
        for t in node.transitions().iter() {
            let (row, col, p) = &entries[k];
            assert_eq!(*row as u64, node.id());
            assert_eq!(*col as u64, t.id_to());
            match (p, t.probability()) {
                (Value::Known(a), Value::Known(b)) => assert!(a.equals(b)),
                _ => panic!("unknown"),
            }
            match (matrix.index((node.id(), t.id_to())), t.probability()) {
                (Value::Known(a), Value::Known(b)) => assert!(a.equals(b)),
                _ => panic!("unknown"),
            }
            k += 1;
        }
    }
    assert_eq!(k, entries.len());
}

#[test]
fn matrix_holds_zero_for_a_pair_without_transition() {
    let matrix = TransitionMatrix::new_from_markov_chain(&chain_of_three());
    assert!(is(&matrix.index((0, 2)), 0, 1));
    assert!(is(&matrix.index((1, 0)), 0, 1));
    assert!(is(&matrix.index((2, 1)), 0, 1));
    assert!(is(&matrix.index((7, 7)), 0, 1));
    assert!(is(&matrix.index((u64::MAX, 0)), 0, 1));
    assert!(is(&matrix.index((1, 1)), 1, 2));
    assert!(is(&matrix.index((1, 2)), 1, 2));
}

#[test]
fn matrix_from_entries_must_lie_within_the_dimension() {
    assert!(TransitionMatrix::from_entries(2, vec![(0, 1, known(1, 1))]).is_some());
    assert!(TransitionMatrix::from_entries(2, vec![(0, 2, known(1, 1))]).is_none());
    assert!(TransitionMatrix::from_entries(2, vec![(2, 0, known(1, 1))]).is_none());
    assert!(TransitionMatrix::from_entries(0, Vec::new()).is_some());
    assert!(TransitionMatrix::from_entries(0, vec![(0, 0, Value::Unknown)]).is_none());
}

#[test]
fn lookup_takes_the_first_entry_and_the_grid_the_last() {
    let matrix = TransitionMatrix::from_entries(
        2,
        vec![(0, 1, known(1, 4)), (1, 1, Value::Unknown), (0, 1, known(3, 4))],
    )
    .unwrap();
    assert!(is(&matrix.index((0, 1)), 1, 4));
    assert!(!matrix.index((1, 1)).is_known());
    let row = matrix.dense_row(0);
    assert_eq!(row.len(), 2);
    assert!(is(&row[0], 0, 1));
    assert!(is(&row[1], 3, 4));
    let second = matrix.dense_row(1);
    assert!(is(&second[0], 0, 1));
    assert!(!second[1].is_known());
}

#[test]
fn inbound_and_outbound_entries() {
    let matrix = TransitionMatrix::new_from_markov_chain(&chain_of_three());
    assert_eq!(places(&matrix.to(0)), vec![(0, 0), (2, 0)]);
    assert_eq!(places(&matrix.to(1)), vec![(0, 1), (1, 1)]);
    assert_eq!(places(&matrix.to(2)), vec![(1, 2), (2, 2)]);
    assert_eq!(places(&matrix.to(3)), vec![]);
    assert_eq!(places(&matrix._from(0)), vec![(0, 0), (0, 1)]);
    assert_eq!(places(&matrix._from(1)), vec![(1, 1), (1, 2)]);
    assert_eq!(places(&matrix._from(2)), vec![(2, 0), (2, 2)]);
    assert_eq!(places(&matrix._from(9)), vec![]);
    let into = matrix.to(2);
    assert!(is(&into[0].2, 1, 2));
    assert!(is(&into[1].2, 0, 1));
}

#[test]
fn dense_grid_fills_in_zero() {
    let matrix = TransitionMatrix::new_from_markov_chain(&chain_of_three());
    let rows = matrix.dense_rows();
    let expected = [[(0, 1), (1, 1), (0, 1)], [(0, 1), (1, 2), (1, 2)], [(1, 1), (0, 1), (0, 1)]];
    assert_eq!(rows.len(), 3);
    for i in 0..3 {
        assert_eq!(rows[i].len(), 3);
        for j in 0..3 {
            assert!(is(&rows[i][j], expected[i][j].0, expected[i][j].1));
        }
    }
    let beyond = matrix.dense_row(5);
    assert_eq!(beyond.len(), 3);
    assert!(beyond.iter().all(|v| is(v, 0, 1)));
}

#[test]
fn text_of_a_grid() {
    let rows = vec![
        vec!["0".to_string(), "0.5".to_string()],
        vec!["NaN".to_string(), "1".to_string()],
    ];
    assert_eq!(dense_text(&rows), "0,0.5,\nNaN,1,\n");
    assert_eq!(delimited_text(&rows, "\t"), "0\t0.5\t\nNaN\t1\t\n");
    assert_eq!(dense_text(&Vec::new()), "");
    assert_eq!(dense_text(&vec![Vec::new()]), "\n");
}

#[test]
fn matrix_file_is_named_after_the_source() {
    assert_eq!(
        matrix_file_name("output/place", "gmaps"),
        "output/place/transition_matrix_gmaps.csv"
    );
}

#[test]
fn density_adds_the_parcels_of_the_state_and_of_what_leads_into_it() {
    let mut chain = loop_over_small_ids();
    let matrix = TransitionMatrix::new_from_markov_chain(&chain);
    // travel times 1 and 4 times the least: the matrix is [[0, 1], [1/4, 3/4]]
    assert!(is(&matrix.index((1, 0)), 1, 4));
    assert!(is(&matrix.index((1, 1)), 3, 4));
    assert_eq!(chain.calculate_density_from_matrix(&matrix, 10), Ok(()));
    let graph = chain.graph();
    // state 0, between the intersections 0 and 1: its own parcel with the
    // probability at (0, 1), 10 * 1 / (100 * 2); from state 0, 0; from state 1,
    // 10 * (1/4) / (400 * 2)
    assert!(is(graph[0].traffic_data().unwrap().estimated_density(), 17, 320));
    // state 1, between the intersections 1 and 0: its own parcel with the
    // probability at (1, 0), 10 * (1/4) / (400 * 2); from state 0,
    // 10 * 1 / (100 * 2); from state 1, 10 * (3/4) / (400 * 2)
    assert!(is(graph[1].traffic_data().unwrap().estimated_density(), 1, 16));
}

#[test]
fn density_leaves_all_else_as_it_was() {
    let mut chain = loop_over_small_ids();
    let matrix = TransitionMatrix::new_from_markov_chain(&chain);
    chain.calculate_density_from_matrix(&matrix, 10).unwrap();
    assert_eq!(chain.name(), "place");
    let graph = chain.graph();
    assert_eq!(graph.len(), 2);
    assert_eq!(graph[1].id(), 1);
    assert_eq!(graph[1].id_osm(), 20);
    assert_eq!(graph[1].street_start(), Intersection::new(1, 0, 0));
    assert_eq!(graph[1].street_end(), Intersection::new(0, 0, 0));
    assert!(graph[1].street_data().lanes.equals(&Ratio::from_u64(2)));
    assert!(graph[1].street_data().length.equals(&Ratio::from_u64(400)));
    let flow = graph[1].traffic_data().unwrap();
    assert!(is(flow.estimated_travel_time(), 400, 50_000));
    assert!(is(flow.estimated_average_speed(), 50, 1));
    let ts = graph[1].transitions();
    assert_eq!(ts.len(), 2);
    assert_eq!(ts[0].id_to(), 0);
    assert!(is(ts[0].probability(), 1, 4));
    assert_eq!(ts[1].id_to(), 1);
    assert!(is(ts[1].probability(), 3, 4));
}

#[test]
fn density_is_zero_without_vehicles_and_never_negative() {
    let mut chain = chain_of_three();
    let matrix = TransitionMatrix::new_from_markov_chain(&chain);
    chain.calculate_density_from_matrix(&matrix, 0).unwrap();
    for node in chain.graph().iter() {
        assert!(is(node.traffic_data().unwrap().estimated_density(), 0, 1));
    }
    chain.calculate_density_from_matrix(&matrix, 1000).unwrap();
    for node in chain.graph().iter() {
        match node.traffic_data().unwrap().estimated_density() {
            Value::Known(d) => {
                assert!(!d.less_than(&Ratio::from_u64(0)));
                assert!(f64::from_bits(d.to_ieee_double()) >= 0.0);
            }
            Value::Unknown => panic!("unknown"),
        }
    }
}

#[test]
fn density_is_unknown_where_a_probability_or_a_quotient_is() {
    let nw = network(
        &[1, 2],
        vec![street(10, 1, 2, 0, 1, true), street(20, 2, 1, 100, 1, true)],
    );
    let mut chain = MarkovChain::new_from_network(TrafficDataSource::OpenStreetMap, nw).unwrap();
    let matrix = TransitionMatrix::new_from_markov_chain(&chain);
    chain.calculate_density_from_matrix(&matrix, 5).unwrap();
    for node in chain.graph().iter() {
        assert!(!node.traffic_data().unwrap().estimated_density().is_known());
    }
    let mut other = loop_over_small_ids();
    let holes = TransitionMatrix::from_entries(2, vec![(0, 1, Value::Unknown)]).unwrap();
    other.calculate_density_from_matrix(&holes, 5).unwrap();
    assert!(!other.graph()[0].traffic_data().unwrap().estimated_density().is_known());
    assert!(!other.graph()[1].traffic_data().unwrap().estimated_density().is_known());
}

#[test]
fn density_parcel_formula() {
    let p = MarkovChain::calculate_density_parcel(10, &known(1, 4), &frac(400, 1), &frac(2, 1));
    assert!(is(&p, 1, 320));
    let none = MarkovChain::calculate_density_parcel(10, &known(1, 4), &frac(0, 1), &frac(2, 1));
    assert!(!none.is_known());
    let lost = MarkovChain::calculate_density_parcel(10, &Value::Unknown, &frac(1, 1), &frac(2, 1));
    assert!(!lost.is_known());
}

#[test]
fn density_fails_on_a_transition_from_no_state_of_the_chain() {
    let larger = chain_of_three();
    let matrix = TransitionMatrix::new_from_markov_chain(&larger);
    let mut chain = loop_over_small_ids();
    assert_eq!(
        chain.calculate_density_from_matrix(&matrix, 10),
        Err(DensityError::UnknownSourceState)
    );
    for node in chain.graph().iter() {
        assert!(!node.traffic_data().unwrap().estimated_density().is_known());
    }
}

#[test]
fn state_is_found_by_its_id() {
    let chain = chain_of_three();
    assert_eq!(chain.node(0).unwrap().id_osm(), 10);
    assert_eq!(chain.node(2).unwrap().id_osm(), 30);
    assert!(chain.node(3).is_none());
    assert!(chain.node(u64::MAX).is_none());
}
