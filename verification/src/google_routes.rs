//! What a directions service reports of one route, and what follows from it.

use crate::ratio::{quotient, Ratio};
use vstd::prelude::*;

verus! {

/// The distance of a route in metres: what was measured, and at least one metre.
pub open spec fn route_distance(distance_m: u32) -> real {
    if distance_m >= 1 {
        distance_m as real
    } else {
        1real
    }
}

/// The duration of a route in seconds: the duration in traffic where there is one,
/// and at least a ten-thousandth of a second.
pub open spec fn route_seconds(duration_s: i64, duration_in_traffic_s: Option<i64>) -> real {
    let seconds = match duration_in_traffic_s {
        Some(t) => t,
        None => duration_s,
    };
    if seconds >= 1 {
        seconds as real
    } else {
        quotient(1, 10000)
    }
}

/// The average speed in kilometres per hour: 3.6 times metres per second.
pub open spec fn route_speed(distance: real, seconds: real) -> real {
    quotient(18, 5) * distance / seconds
}

/// The travel time in hours: kilometres over kilometres per hour.
pub open spec fn route_travel_time(distance: real, speed: real) -> real {
    distance / 1000real / speed
}

/// The measurements of one route and the estimates derived from them.
#[derive(Debug)]
pub struct RoutesResponse {
    pub distance: Ratio,
    pub time_secs: Ratio,
    pub estimated_average_speed: Ratio,
    pub estimated_travel_time: Ratio,
}

/// A route's measurements and estimates as real numbers.
pub struct RoutesView {
    pub distance: real,
    pub time_secs: real,
    pub estimated_average_speed: real,
    pub estimated_travel_time: real,
}

impl View for RoutesResponse {
    type V = RoutesView;

    open spec fn view(&self) -> RoutesView {
        RoutesView {
            distance: self.distance@,
            time_secs: self.time_secs@,
            estimated_average_speed: self.estimated_average_speed@,
            estimated_travel_time: self.estimated_travel_time@,
        }
    }
}

/// The estimates that follow from a measured distance and duration.
pub open spec fn routes_view(
    distance_m: u32,
    duration_s: i64,
    duration_in_traffic_s: Option<i64>,
) -> RoutesView {
    let distance = route_distance(distance_m);
    let time_secs = route_seconds(duration_s, duration_in_traffic_s);
    let speed = route_speed(distance, time_secs);
    RoutesView {
        distance,
        time_secs,
        estimated_average_speed: speed,
        estimated_travel_time: route_travel_time(distance, speed),
    }
}

/// The average speed of a route is positive.
pub proof fn lemma_route_speed_positive(distance: real, seconds: real)
    requires
        distance >= 1real,
        seconds > 0real,
    ensures
        route_speed(distance, seconds) > 0real,
{
    let f = quotient(18, 5);
    assert(f > 0real) by (nonlinear_arith)
        requires
            f == 18real / 5real,
    ;
    assert(f * distance / seconds > 0real) by (nonlinear_arith)
        requires
            f > 0real,
            distance >= 1real,
            seconds > 0real,
    ;
}

impl RoutesResponse {
    /// The response for one leg of a route, from its distance in metres and its
    /// duration in seconds, with the duration in traffic where the service gave one.
    pub fn from_leg(distance_m: u32, duration_s: i64, duration_in_traffic_s: Option<i64>) -> (r:
        RoutesResponse)
        ensures
            r@ == routes_view(distance_m, duration_s, duration_in_traffic_s),
    {
        let distance = if distance_m >= 1 {
            Ratio::from_u64(distance_m as u64)
        } else {
            Ratio::from_u64(1)
        };
        let seconds: i64 = match duration_in_traffic_s {
            Some(t) => t,
            None => duration_s,
        };
        let time_secs = if seconds >= 1 {
            Ratio::from_u64(seconds as u64)
        } else {
            Ratio::from_fraction(1, 10000).unwrap()
        };
        proof {
            let q = quotient(1, 10000);
            assert(q > 0real) by (nonlinear_arith)
                requires
                    q == 1real / 10000real,
            ;
            lemma_route_speed_positive(distance@, time_secs@);
        }
        let factor = Ratio::from_fraction(18, 5).unwrap();
        let speed = factor.mul(&distance).div(&time_secs).unwrap();
        let kilometres = distance.div(&Ratio::from_u64(1000)).unwrap();
        let travel_time = kilometres.div(&speed).unwrap();
        RoutesResponse {
            distance,
            time_secs,
            estimated_average_speed: speed,
            estimated_travel_time: travel_time,
        }
    }

    /// A copy of the response.
    pub fn duplicate(&self) -> (r: RoutesResponse)
        ensures
            r@ == self@,
    {
        RoutesResponse {
            distance: self.distance.duplicate(),
            time_secs: self.time_secs.duplicate(),
            estimated_average_speed: self.estimated_average_speed.duplicate(),
            estimated_travel_time: self.estimated_travel_time.duplicate(),
        }
    }
}

} // verus!
