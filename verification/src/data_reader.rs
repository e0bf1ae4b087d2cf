//! The road network: intersections and the street segments between them.

use crate::ratio::Ratio;
use vstd::prelude::*;

verus! {

/// A point where street segments meet. The coordinates are whole multiples of
/// a ten-millionth of a degree.
#[derive(Debug, Clone, Copy, PartialEq, Eq, Structural)]
pub struct Intersection {
    pub id: u64,
    pub latitude: i64,
    pub longitude: i64,
}

impl Intersection {
    pub fn new(id: u64, latitude: i64, longitude: i64) -> (r: Intersection)
        ensures
            r == (Intersection { id, latitude, longitude }),
    {
        Intersection { id, latitude, longitude }
    }
}

/// A directed street segment. `length` is in metres, `maxspeed` in kilometres per hour.
#[derive(Debug)]
pub struct Street {
    pub id: u64,
    pub start: u64,
    pub end: u64,
    pub lanes: Ratio,
    pub maxspeed: u8,
    pub length: Ratio,
    pub oneway: bool,
    pub highway: String,
}

/// What a street segment is, with its quantities as real numbers.
pub struct StreetView {
    pub id: u64,
    pub start: u64,
    pub end: u64,
    pub lanes: real,
    pub maxspeed: u8,
    pub length: real,
    pub oneway: bool,
    pub highway: Seq<char>,
}

impl View for Street {
    type V = StreetView;

    open spec fn view(&self) -> StreetView {
        StreetView {
            id: self.id,
            start: self.start,
            end: self.end,
            lanes: self.lanes@,
            maxspeed: self.maxspeed,
            length: self.length@,
            oneway: self.oneway,
            highway: self.highway@,
        }
    }
}

impl Street {
    pub fn new(
        id: u64,
        start: u64,
        end: u64,
        lanes: Ratio,
        maxspeed: u8,
        length: Ratio,
        oneway: bool,
        highway: String,
    ) -> (r: Street)
        ensures
            r@ == (StreetView {
                id,
                start,
                end,
                lanes: lanes@,
                maxspeed,
                length: length@,
                oneway,
                highway: highway@,
            }),
    {
        Street { id, start, end, lanes, maxspeed, length, oneway, highway }
    }

    /// A copy of the segment.
    pub fn duplicate(&self) -> (r: Street)
        ensures
            r@ == self@,
    {
        Street {
            id: self.id,
            start: self.start,
            end: self.end,
            lanes: self.lanes.duplicate(),
            maxspeed: self.maxspeed,
            length: self.length.duplicate(),
            oneway: self.oneway,
            highway: self.highway.clone(),
        }
    }
}

/// The views of a vector of street segments, in order.
pub open spec fn street_views(edges: Seq<Street>) -> Seq<StreetView> {
    Seq::new(edges.len(), |i: int| edges[i]@)
}

/// The first intersection at or after position `from` that has the given id.
pub open spec fn first_with_id(nodes: Seq<Intersection>, id: u64, from: int) -> Option<
    Intersection,
>
    decreases nodes.len() - from,
{
    if from < 0 || from >= nodes.len() {
        None
    } else if nodes[from].id == id {
        Some(nodes[from])
    } else {
        first_with_id(nodes, id, from + 1)
    }
}

/// A named directed graph of intersections and street segments.
#[derive(Debug)]
pub struct NetworkData {
    pub name: String,
    pub nodes: Vec<Intersection>,
    pub edges: Vec<Street>,
}

/// What a network is, with its quantities as real numbers.
pub struct NetworkView {
    pub name: Seq<char>,
    pub nodes: Seq<Intersection>,
    pub edges: Seq<StreetView>,
}

impl View for NetworkData {
    type V = NetworkView;

    open spec fn view(&self) -> NetworkView {
        NetworkView { name: self.name@, nodes: self.nodes@, edges: street_views(self.edges@) }
    }
}

impl NetworkData {
    pub fn new(name: String, nodes: Vec<Intersection>, edges: Vec<Street>) -> (r: NetworkData)
        ensures
            r@ == (NetworkView { name: name@, nodes: nodes@, edges: street_views(edges@) }),
    {
        NetworkData { name, nodes, edges }
    }

    /// The intersection that an id refers to: the first one in the network that has it.
    pub fn find_intersection(&self, id: u64) -> (r: Option<Intersection>)
        ensures
            r == first_with_id(self@.nodes, id, 0),
    {
        let mut i: usize = 0;
        while i < self.nodes.len()
            invariant
                i <= self.nodes.len(),
                first_with_id(self.nodes@, id, 0) == first_with_id(self.nodes@, id, i as int),
            decreases self.nodes.len() - i,
        {
            if self.nodes[i].id == id {
                return Some(self.nodes[i]);
            }
            i += 1;
        }
        None
    }
}

} // verus!
