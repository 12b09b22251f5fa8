//! Reorders a sequence of independent content blocks so that blocks with
//! similar locality-sensitive fingerprints cluster near each other, which
//! helps a downstream compressor. Offers a windowed stochastic local search
//! with plateau-triggered restart, and an alternate closed-tour formulation
//! for a hill-climbing search.

pub mod fingerprint;
pub mod rng;
pub mod fingerprint_index;
pub mod optimizer;
pub mod traveling_salesman;
pub mod window;
