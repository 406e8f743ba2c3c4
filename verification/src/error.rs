//! The errors of field arithmetic.

use vstd::prelude::*;
use crate::text::{decimal, push_decimal};

verus! {

/// Why a field operation was refused.
#[derive(Debug, Clone, Copy, PartialEq, Eq, Structural)]
pub enum FieldError {
    /// The residue offered to the constructor is not below the modulus.
    Range { num: usize, prime: usize },
    /// The two operands belong to fields of different moduli.
    FieldMismatch,
    /// The divisor is zero, which has no inverse.
    DivisionByZero,
}

impl FieldError {
    /// The text of `message`. A range error names the refused residue and the
    /// valid range, `0` to `prime - 1`; a modulus of zero leaves no valid
    /// residue at all.
    pub open spec fn message_spec(self) -> Seq<char> {
        match self {
            FieldError::Range { num, prime } => if prime == 0 {
                "Num "@ + decimal(num as nat) + " not in field range, which is empty"@
            } else {
                "Num "@ + decimal(num as nat) + " not in field range 0 to "@ + decimal(
                    (prime - 1) as nat,
                )
            },
            FieldError::FieldMismatch => "Cannot add two nums in different fields"@,
            FieldError::DivisionByZero => "Cannot divide by zero in a field"@,
        }
    }

    /// A sentence that describes the error.
    pub fn message(&self) -> (text: String)
        ensures
            text@ == self.message_spec(),
    {
        let mut text: String = String::new();
        match *self {
            FieldError::Range { num, prime } => {
                text.push_str("Num ");
                push_decimal(&mut text, num);
                if prime == 0 {
                    text.push_str(" not in field range, which is empty");
                } else {
                    text.push_str(" not in field range 0 to ");
                    push_decimal(&mut text, prime - 1);
                }
            },
            FieldError::FieldMismatch => {
                text.push_str("Cannot add two nums in different fields");
            },
            FieldError::DivisionByZero => {
                text.push_str("Cannot divide by zero in a field");
            },
        }
        proof {
            assert(text@ =~= self.message_spec());
        }
        text
    }
}

} // verus!
