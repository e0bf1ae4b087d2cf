//! A road network as a discrete-time Markov chain over its street segments.
//!
//! Every segment of the network becomes a state. A state leads to itself and to
//! every segment that starts where its own segment ends. The probability of
//! staying grows with the travel time of the segment, measured against the
//! least travel time of the network; what it leaves is shared out equally among
//! the other transitions. From the chain come a sparse transition matrix and,
//! in one pass over that matrix, an estimate of the density of every segment.
//!
//! All quantities (lengths, lanes, travel times, speeds, probabilities,
//! densities) are exact non-negative fractions of unbounded size, so the laws
//! of the chain hold without tolerance: the probabilities of a state add up to
//! exactly one. A quantity that cannot be computed, such as a quotient by zero,
//! is unknown, and stays so through whatever is computed from it. Binary
//! floating-point numbers enter and leave as their bits, see
//! [`ratio::Ratio::from_ieee_double`] and [`ratio::Ratio::to_ieee_double`].
//!
//! - [`bignat`], [`ratio`], [`value`]: the numbers.
//! - [`data_reader`]: intersections, street segments, the network.
//! - [`google_routes`]: what follows from the answer of a directions service.
//! - [`markov_chain`]: states, transitions, the chain, and the rules by which a
//!   chain is built; [`builder`] builds it.
//! - [`transition_matrix`]: the matrix, its lookups and its dense text.
//! - [`density`]: the density estimate.
//! - [`laws`]: what holds of every chain, matrix and density.

pub mod bignat;
pub mod builder;
pub mod data_reader;
pub mod density;
pub mod google_routes;
pub mod laws;
pub mod markov_chain;
pub mod ratio;
pub mod transition_matrix;
pub mod value;
