use geomarkover::data_reader::{Intersection, NetworkData, Street};
use geomarkover::markov_chain::{BuildError, MarkovChain, TrafficDataSource};
use geomarkover::ratio::Ratio;
use geomarkover::transition_matrix::{dense_text, TransitionMatrix};
use geomarkover::value::Value;

fn to_f64(r: &Ratio) -> f64 {
    f64::from_bits(r.to_ieee_double())
}

fn known(v: &Value) -> &Ratio {
    match v {
        Value::Known(r) => r,
        Value::Unknown => panic!("the value is not known"),
    }
}

fn is(v: &Value, num: u64, den: u64) -> bool {
    known(v).equals(&Ratio::from_fraction(num, den).unwrap())
}

fn street(id: u64, start: u64, end: u64, length_m: u64, maxspeed: u8, oneway: bool) -> Street {
    Street::new(
        id,
        start,
        end,
        Ratio::from_u64(2),
        maxspeed,
        Ratio::from_u64(length_m),
        oneway,
        "residential".to_string(),
    )
}

fn corners(ids: &[u64]) -> Vec<Intersection> {
    ids.iter().map(|id| Intersection::new(*id, -276_075_094, -485_478_889)).collect()
}

fn loop_of_two() -> NetworkData {
    NetworkData::new(
        "loop".to_string(),
        corners(&[1, 2]),
        vec![street(10, 1, 2, 100, 50, true), street(20, 2, 1, 100, 50, true)],
    )
}

fn chain_of_three() -> NetworkData {
    NetworkData::new(
        "three".to_string(),
        corners(&[1, 2, 3]),
        vec![
            street(10, 1, 2, 100, 50, true),
            street(20, 2, 3, 200, 50, true),
            street(30, 3, 1, 100, 50, true),
        ],
    )
}

#[test]
fn two_segment_loop_gives_both_states_the_same_probabilities() {
    let chain = MarkovChain::new_from_network(TrafficDataSource::OpenStreetMap, loop_of_two())
        .unwrap();
    let graph = chain.graph();
    assert_eq!(graph.len(), 2);
    for (x, node) in graph.iter().enumerate() {
        assert_eq!(node.id(), x as u64);
        let ts = node.transitions();
        assert_eq!(ts.len(), 2);
        assert_eq!(ts[0].id_to(), 0);
        assert_eq!(ts[1].id_to(), 1);
        let own = &ts[x];
        let cross = &ts[1 - x];
        assert!(is(own.probability(), 0, 1));
        assert!(is(cross.probability(), 1, 1));
        let total = own.probability().add(cross.probability());
        assert!(is(&total, 1, 1));
    }
    let first = graph[0].transitions();
    let second = graph[1].transitions();
    assert!(known(first[0].probability()).equals(known(second[1].probability())));
    assert!(known(first[1].probability()).equals(known(second[0].probability())));
}

#[test]
fn segment_with_twice_the_least_travel_time_stays_with_one_half() {
    let chain = MarkovChain::new_from_network(TrafficDataSource::OpenStreetMap, chain_of_three())
        .unwrap();
    let graph = chain.graph();
    assert_eq!(graph.len(), 3);
    let middle = graph[1].transitions();
    assert_eq!(middle.len(), 2);
    assert_eq!(middle[0].id_to(), 1);
    assert!(is(middle[0].probability(), 1, 2));
    assert_eq!(middle[1].id_to(), 2);
    assert!(is(middle[1].probability(), 1, 2));
    assert_eq!(to_f64(known(middle[0].probability())), 0.5);
    let first = graph[0].transitions();
    assert!(is(first[0].probability(), 0, 1));
    assert!(is(first[1].probability(), 1, 1));
}

#[test]
fn dense_text_of_three_states_has_three_lines_of_three_fields() {
    let chain = MarkovChain::new_from_network(TrafficDataSource::OpenStreetMap, chain_of_three())
        .unwrap();
    let matrix = TransitionMatrix::new_from_markov_chain(&chain);
    assert_eq!(matrix.dim(), 3);
    let cells: Vec<Vec<String>> = matrix
        .dense_rows()
        .iter()
        .map(|row| row.iter().map(|v| format!("{}", to_f64(known(v)))).collect())
        .collect();
    let text = dense_text(&cells);
    assert_eq!(text, "0,1,0,\n0,0.5,0.5,\n1,0,0,\n");
    let lines: Vec<&str> = text.lines().collect();
    assert_eq!(lines.len(), 3);
    for line in lines {
        assert!(line.ends_with(','));
        let fields: Vec<&str> = line[..line.len() - 1].split(',').collect();
        assert_eq!(fields.len(), 3);
        for field in fields {
            assert!(field.parse::<f64>().is_ok());
        }
    }
}

#[test]
fn unresolved_end_fails_the_build() {
    let network = NetworkData::new(
        "broken".to_string(),
        corners(&[1]),
        vec![street(10, 1, 2, 100, 50, true)],
    );
    let built = MarkovChain::new_from_network(TrafficDataSource::OpenStreetMap, network);
    assert_eq!(built.err(), Some(BuildError::UnresolvedIntersection));
}
