//! Arithmetic in a finite field of prime order.
//!
//! [`FieldElement`] is a residue together with its modulus. Elements are made
//! by a validating constructor and combined with `+`, `-`, `*`, `/` and
//! [`FieldElement::pow`]; every operation yields a new element of the same
//! field or a [`FieldError`].

pub mod text;
pub mod error;
pub mod modular;
pub mod element;
pub mod number_theory;
pub mod laws;

pub use element::FieldElement;
pub use error::FieldError;
pub use modular::{mul_mod, pow_mod, rem_euclid};
