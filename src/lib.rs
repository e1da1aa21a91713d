//! Root scanning by seeded Newton-Raphson iteration, generic over the
//! number type and over the function whose roots are sought.
//!
//! [`find_roots`] walks an interval with seeds spaced `epsilon * 10` apart,
//! runs a safeguarded Newton iteration ([`find_root_newton`]) from each seed,
//! and keeps the distinct roots that fall inside the interval.
pub mod newton;
pub mod number;
pub mod scan;

pub use newton::find_root_newton;
pub use number::{DifferentiableFunction, Real};
pub use scan::{count_seeds, find_roots, DEFAULT_MAX_ITERATIONS};
