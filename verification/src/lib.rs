//! Transition widgets of a PLONK prover and verifier: loading Fiat-Shamir
//! challenges, powers of the separator challenge α, polynomial openings and
//! coset-FFT polynomials, and the per-widget quotient contributions.

pub mod field;
pub mod labels;
pub mod transcript;
pub mod proving_key;
pub mod transition_widget;
pub mod arithmetic_kernel;
