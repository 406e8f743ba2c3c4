//! Elements of a prime field and their arithmetic.

use vstd::prelude::*;
use vstd::arithmetic::power::pow;
use vstd::arithmetic::power::lemma_pow0;
use vstd::arithmetic::div_mod::lemma_small_mod;
use vstd::std_specs::cmp::PartialEqSpecImpl;
use vstd::std_specs::ops::{AddSpecImpl, SubSpecImpl, MulSpecImpl, DivSpecImpl};
use std::ops::{Add, Sub, Mul, Div};
use crate::error::FieldError;
use crate::modular::{mul_mod, pow_mod, rem_euclid};

verus! {

/// A residue `num` in the field of integers modulo `prime`.
#[derive(Debug, Clone, Copy)]
pub struct FieldElement {
    num: usize,
    prime: usize,
}

/// The exponent that is actually raised to: `power` brought into
/// `[0, prime - 2]` by the Euclidean remainder modulo `prime - 1`.
pub open spec fn effective_exponent(power: int, prime: nat) -> nat {
    (power % (prime - 1)) as nat
}

impl FieldElement {
    /// The residue.
    pub closed spec fn num(self) -> nat {
        self.num as nat
    }

    /// The modulus of the field.
    pub closed spec fn prime(self) -> nat {
        self.prime as nat
    }

    /// The element with the given residue and modulus.
    pub closed spec fn element_of(num: nat, prime: nat) -> FieldElement {
        FieldElement { num: num as usize, prime: prime as usize }
    }

    /// The invariant of every element: the residue lies below the modulus.
    pub open spec fn wf(self) -> bool {
        self.num() < self.prime()
    }

    /// What `pow` returns: the residue raised to the effective exponent and
    /// reduced modulo the prime.
    pub open spec fn pow_spec(self, power: int) -> FieldElement {
        Self::element_of(
            (pow(self.num() as int, effective_exponent(power, self.prime())) % (
            self.prime() as int)) as nat,
            self.prime(),
        )
    }

    /// What `+` returns: the sum of the residues, reduced, or the refusal of
    /// operands from different fields.
    pub open spec fn sum(self, rhs: FieldElement) -> Result<FieldElement, FieldError> {
        if self.prime() != rhs.prime() {
            Err(FieldError::FieldMismatch)
        } else {
            Ok(FieldElement::element_of((self.num() + rhs.num()) % self.prime(), self.prime()))
        }
    }

    /// What `-` returns: the difference of the residues, brought into
    /// `[0, prime)`, or the refusal of operands from different fields.
    pub open spec fn difference(self, rhs: FieldElement) -> Result<FieldElement, FieldError> {
        if self.prime() != rhs.prime() {
            Err(FieldError::FieldMismatch)
        } else {
            Ok(
                FieldElement::element_of(
                    ((self.num() - rhs.num()) % (self.prime() as int)) as nat,
                    self.prime(),
                ),
            )
        }
    }

    /// What `*` returns: the product of the residues, reduced, or the refusal
    /// of operands from different fields.
    pub open spec fn product(self, rhs: FieldElement) -> Result<FieldElement, FieldError> {
        if self.prime() != rhs.prime() {
            Err(FieldError::FieldMismatch)
        } else {
            Ok(FieldElement::element_of((self.num() * rhs.num()) % self.prime(), self.prime()))
        }
    }

    /// What `/` returns: the dividend times the divisor raised to `prime - 2`,
    /// reduced, or the refusal of operands from different fields or of a zero
    /// divisor.
    pub open spec fn quotient(self, rhs: FieldElement) -> Result<FieldElement, FieldError> {
        if self.prime() != rhs.prime() {
            Err(FieldError::FieldMismatch)
        } else if rhs.num() == 0 {
            Err(FieldError::DivisionByZero)
        } else {
            Ok(
                FieldElement::element_of(
                    ((self.num() * (pow(rhs.num() as int, (self.prime() - 2) as nat) % (
                    self.prime() as int))) % (self.prime() as int)) as nat,
                    self.prime(),
                ),
            )
        }
    }

    /// `element_of` builds what its arguments say, as long as they fit a
    /// machine word.
    pub broadcast proof fn lemma_element_of(num: nat, prime: nat)
        requires
            num <= usize::MAX,
            prime <= usize::MAX,
        ensures
            (#[trigger] Self::element_of(num, prime)).num() == num,
            Self::element_of(num, prime).prime() == prime,
    {
    }

    /// An element is determined by its residue and its modulus.
    pub proof fn lemma_determined_by_fields(self, other: FieldElement)
        requires
            self.num() == other.num(),
            self.prime() == other.prime(),
        ensures
            self == other,
            self == Self::element_of(self.num(), self.prime()),
    {
    }

    /// Both fields fit a machine word.
    pub proof fn lemma_fields_bounded(self)
        ensures
            self.num() <= usize::MAX,
            self.prime() <= usize::MAX,
    {
    }

    /// Makes the element `num` of the field modulo `prime`, or refuses a
    /// residue outside `[0, prime)`.
    pub fn new(num: usize, prime: usize) -> (r: Result<Self, FieldError>)
        ensures
            num < prime ==> r == Ok::<Self, FieldError>(Self::element_of(num as nat, prime as nat)),
            num < prime ==> (r matches Ok(e) && e.wf() && e.num() == num && e.prime() == prime),
            num >= prime ==> r == Err::<Self, FieldError>(FieldError::Range { num, prime }),
    {
        if num >= prime {
            return Err(FieldError::Range { num, prime });
        }
        Ok(Self { num, prime })
    }

    /// Raises the element to `power`, which may be negative: the exponent is
    /// first normalised modulo `prime - 1`, then the residue is raised by
    /// square-and-multiply.
    pub fn pow(&self, power: i64) -> (r: Result<Self, FieldError>)
        requires
            self.wf(),
            self.prime() >= 2,
        ensures
            r == Ok::<Self, FieldError>(self.pow_spec(power as int)),
            r matches Ok(e) && e.wf() && e.prime() == self.prime() && e.num() == pow(
                self.num() as int,
                effective_exponent(power as int, self.prime()),
            ) % (self.prime() as int),
    {
        let order: i128 = (self.prime - 1) as i128;
        let n: i128 = rem_euclid(power as i128, order);
        let exponent: usize = n as usize;
        let num: usize = pow_mod(self.num, exponent, self.prime);
        proof {
            if exponent == 0 {
                lemma_pow0(self.num as int);
                lemma_small_mod(1, self.prime as nat);
            }
        }
        Self::new(num, self.prime)
    }
}

impl PartialEq for FieldElement {
    /// Two elements are equal when both residue and modulus agree.
    fn eq(&self, other: &Self) -> (r: bool) {
        (self.num == other.num) && (self.prime == other.prime)
    }
}

impl PartialEqSpecImpl for FieldElement {
    open spec fn obeys_eq_spec() -> bool {
        true
    }

    open spec fn eq_spec(&self, other: &Self) -> bool {
        self.num() == other.num() && self.prime() == other.prime()
    }
}

impl AddSpecImpl for FieldElement {
    open spec fn obeys_add_spec() -> bool {
        true
    }

    open spec fn add_req(self, rhs: FieldElement) -> bool {
        self.wf() && rhs.wf()
    }

    open spec fn add_spec(self, rhs: FieldElement) -> Result<FieldElement, FieldError> {
        self.sum(rhs)
    }
}

impl Add for FieldElement {
    type Output = Result<FieldElement, FieldError>;

    /// The sum of two elements of one field, for well-formed operands
    /// (`add_req`). The sum of the residues is held in 128 bits, so it cannot
    /// wrap before it is reduced.
    fn add(self, rhs: FieldElement) -> (r: Self::Output)
        ensures
            r == self.sum(rhs),
            self.prime() != rhs.prime() ==> r == Err::<FieldElement, FieldError>(
                FieldError::FieldMismatch,
            ),
            self.prime() == rhs.prime() ==> (r matches Ok(e) && e.wf() && e.prime() == self.prime()
                && e.num() == (self.num() + rhs.num()) % self.prime()),
    {
        if rhs.prime != self.prime {
            return Err(FieldError::FieldMismatch);
        }
        let sum: u128 = self.num as u128 + rhs.num as u128;
        let num: u128 = sum % (self.prime as u128);
        FieldElement::new(num as usize, self.prime)
    }
}

impl SubSpecImpl for FieldElement {
    open spec fn obeys_sub_spec() -> bool {
        true
    }

    open spec fn sub_req(self, rhs: FieldElement) -> bool {
        self.wf() && rhs.wf()
    }

    open spec fn sub_spec(self, rhs: FieldElement) -> Result<FieldElement, FieldError> {
        self.difference(rhs)
    }
}

impl Sub for FieldElement {
    type Output = Result<FieldElement, FieldError>;

    /// The difference of two elements of one field, for well-formed operands
    /// (`sub_req`). The raw difference may be negative: it is taken in a
    /// signed type and brought back into `[0, prime)` by the Euclidean
    /// remainder.
    fn sub(self, rhs: FieldElement) -> (r: Self::Output)
        ensures
            r == self.difference(rhs),
            self.prime() != rhs.prime() ==> r == Err::<FieldElement, FieldError>(
                FieldError::FieldMismatch,
            ),
            self.prime() == rhs.prime() ==> (r matches Ok(e) && e.wf() && e.prime() == self.prime()
                && e.num() == (self.num() - rhs.num()) % (self.prime() as int)),
    {
        if rhs.prime != self.prime {
            return Err(FieldError::FieldMismatch);
        }
        let difference: i128 = self.num as i128 - rhs.num as i128;
        let num: i128 = rem_euclid(difference, self.prime as i128);
        FieldElement::new(num as usize, self.prime)
    }
}

impl MulSpecImpl for FieldElement {
    open spec fn obeys_mul_spec() -> bool {
        true
    }

    open spec fn mul_req(self, rhs: FieldElement) -> bool {
        self.wf() && rhs.wf()
    }

    open spec fn mul_spec(self, rhs: FieldElement) -> Result<FieldElement, FieldError> {
        self.product(rhs)
    }
}

impl Mul for FieldElement {
    type Output = Result<FieldElement, FieldError>;

    /// The product of two elements of one field, for well-formed operands
    /// (`mul_req`), reduced from a 128-bit product.
    fn mul(self, rhs: FieldElement) -> (r: Self::Output)
        ensures
            r == self.product(rhs),
            self.prime() != rhs.prime() ==> r == Err::<FieldElement, FieldError>(
                FieldError::FieldMismatch,
            ),
            self.prime() == rhs.prime() ==> (r matches Ok(e) && e.wf() && e.prime() == self.prime()
                && e.num() == (self.num() * rhs.num()) % self.prime()),
    {
        if rhs.prime != self.prime {
            return Err(FieldError::FieldMismatch);
        }
        let num: usize = mul_mod(rhs.num, self.num, self.prime);
        proof {
            assert(rhs.num * self.num == self.num * rhs.num) by (nonlinear_arith);
        }
        FieldElement::new(num, self.prime)
    }
}

impl DivSpecImpl for FieldElement {
    open spec fn obeys_div_spec() -> bool {
        true
    }

    open spec fn div_req(self, rhs: FieldElement) -> bool {
        self.wf() && rhs.wf()
    }

    open spec fn div_spec(self, rhs: FieldElement) -> Result<FieldElement, FieldError> {
        self.quotient(rhs)
    }
}

impl Div for FieldElement {
    type Output = Result<FieldElement, FieldError>;

    /// The quotient of two elements of one field, for well-formed operands
    /// (`div_req`): the dividend times the
    /// inverse of the divisor, which is the divisor raised to `prime - 2`.
    /// A zero divisor is refused.
    fn div(self, rhs: FieldElement) -> (r: Self::Output)
        ensures
            r == self.quotient(rhs),
            self.prime() != rhs.prime() ==> r == Err::<FieldElement, FieldError>(
                FieldError::FieldMismatch,
            ),
            self.prime() == rhs.prime() && rhs.num() == 0 ==> r == Err::<FieldElement, FieldError>(
                FieldError::DivisionByZero,
            ),
            self.prime() == rhs.prime() && rhs.num() != 0 ==> (r matches Ok(e) && e.wf() && e.prime()
                == self.prime() && e.num() == (self.num() * (pow(rhs.num() as int, (self.prime() - 2) as nat) % (
                self.prime() as int))) % (self.prime() as int)),
    {
        if rhs.prime != self.prime {
            return Err(FieldError::FieldMismatch);
        }
        if rhs.num == 0 {
            return Err(FieldError::DivisionByZero);
        }
        let inverse: usize = pow_mod(rhs.num, self.prime - 2, self.prime);
        proof {
            if self.prime == 2 {
                lemma_pow0(rhs.num as int);
                lemma_small_mod(1, self.prime as nat);
            }
        }
        let num: usize = mul_mod(self.num, inverse, self.prime);
        FieldElement::new(num, self.prime)
    }
}

} // verus!
