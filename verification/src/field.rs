//! The prime field over which constraints are stated, and its arithmetic.
use vstd::prelude::*;
use vstd::arithmetic::power::pow;
use vstd::arithmetic::power::lemma_pow_mod_noop;
use vstd::arithmetic::power::lemma_pow_multiplies;
use vstd::arithmetic::power::lemma_square_is_pow2;
use vstd::arithmetic::div_mod::lemma_mul_mod_noop_general;
use vstd::arithmetic::div_mod::lemma_sub_mod_noop;
use crate::integer::GadgetError;
use crate::text::decimal;
use crate::text::decimal_text;

verus! {

/// The number of elements of the field: the prime `2^64 - 2^32 + 1`.
pub const MODULUS: u64 = 0xFFFF_FFFF_0000_0001;

/// An element of the field, held as a number that stands for its residue class.
#[derive(Clone, Copy, PartialEq, Eq, Debug, Structural)]
pub struct FieldElement {
    pub value: u64,
}

/// The four field gadgets that take two field elements.
#[derive(Clone, Copy, PartialEq, Eq, Debug, Structural)]
pub enum FieldOperation {
    Add,
    Sub,
    Mul,
    Div,
}

/// The field element that the integer `n` stands for.
pub open spec fn residue(n: int) -> FieldElement {
    FieldElement { value: (n % (MODULUS as int)) as u64 }
}

impl FieldElement {
    /// Whether the element is held by its least representative.
    pub open spec fn wf(self) -> bool {
        self.value < MODULUS
    }

    /// The sum in the field.
    pub open spec fn sum(self, other: FieldElement) -> FieldElement {
        residue(self.value + other.value)
    }

    /// The difference in the field.
    pub open spec fn difference(self, other: FieldElement) -> FieldElement {
        residue(self.value - other.value)
    }

    /// The product in the field.
    pub open spec fn product(self, other: FieldElement) -> FieldElement {
        residue(self.value * other.value)
    }

    /// The power in the field.
    pub open spec fn power(self, exponent: nat) -> FieldElement {
        residue(pow(self.value as int, exponent))
    }

    /// The inverse by Fermat's little theorem; of zero, zero.
    pub open spec fn inverse(self) -> FieldElement {
        self.power((MODULUS - 2) as nat)
    }

    /// The product with the inverse of `other`.
    pub open spec fn quotient(self, other: FieldElement) -> FieldElement {
        self.product(other.inverse())
    }

    /// The element as it is written: its least representative in decimal.
    pub open spec fn text(self) -> Seq<char> {
        decimal_text(residue(self.value as int).value as nat)
    }

    /// The field element that `value` stands for, held by its least representative.
    pub fn new(value: u64) -> (r: FieldElement)
        ensures
            r == residue(value as int),
            r.wf(),
    {
        FieldElement { value: value % MODULUS }
    }

    /// Adds two elements.
    pub fn plus(self, other: FieldElement) -> (r: FieldElement)
        ensures
            r == self.sum(other),
            r.wf(),
    {
        let wide: u128 = self.value as u128 + other.value as u128;
        FieldElement { value: (wide % (MODULUS as u128)) as u64 }
    }

    /// Subtracts `other` from the element.
    pub fn minus(self, other: FieldElement) -> (r: FieldElement)
        ensures
            r == self.difference(other),
            r.wf(),
    {
        let a: u64 = self.value % MODULUS;
        let b: u64 = other.value % MODULUS;
        proof {
            lemma_sub_mod_noop(self.value as int, other.value as int, MODULUS as int);
        }
        if a >= b {
            FieldElement { value: a - b }
        } else {
            FieldElement { value: a + (MODULUS - b) }
        }
    }

    /// Multiplies two elements.
    pub fn times(self, other: FieldElement) -> (r: FieldElement)
        ensures
            r == self.product(other),
            r.wf(),
    {
        assert(self.value * other.value <= 0xffff_ffff_ffff_ffff * 0xffff_ffff_ffff_ffff)
            by (nonlinear_arith)
            requires
                self.value <= 0xffff_ffff_ffff_ffff,
                other.value <= 0xffff_ffff_ffff_ffff,
        ;
        let wide: u128 = self.value as u128 * other.value as u128;
        FieldElement { value: (wide % (MODULUS as u128)) as u64 }
    }

    /// Raises the element to a power, by squaring.
    pub fn to_power(self, exponent: u128) -> (r: FieldElement)
        ensures
            r == self.power(exponent as nat),
            r.wf(),
    {
        let mut result = FieldElement { value: 1 };
        let mut base = FieldElement { value: self.value % MODULUS };
        let mut e: u128 = exponent;
        proof {
            lemma_pow_mod_noop(self.value as int, exponent as nat, MODULUS as int);
        }
        while e > 0
            invariant
                result.wf(),
                base.wf(),
                (result.value * pow(base.value as int, e as nat)) % (MODULUS as int) == pow(
                    self.value as int,
                    exponent as nat,
                ) % (MODULUS as int),
            decreases e,
        {
            proof {
                lemma_power_step(result.value as int, base.value as int, e as nat, MODULUS as int);
            }
            if e % 2 == 1 {
                result = result.times(base);
            }
            base = base.times(base);
            e = e / 2;
        }
        proof {
            vstd::arithmetic::power::lemma_pow0(base.value as int);
        }
        result
    }

    /// The inverse by Fermat's little theorem; of zero, zero.
    pub fn inverted(self) -> (r: FieldElement)
        ensures
            r == self.inverse(),
            r.wf(),
    {
        self.to_power((MODULUS - 2) as u128)
    }

    /// Writes the element: its least representative in decimal.
    pub fn to_text(&self) -> (r: String)
        ensures
            r@ == self.text(),
    {
        decimal((self.value % MODULUS) as u128)
    }
}

/// One round of squaring keeps what the power loop has yet to deliver.
proof fn lemma_power_step(result: int, base: int, e: nat, m: int)
    requires
        m > 0,
        e > 0,
    ensures
        e % 2 == 1 ==> (((result * base) % m) * pow((base * base) % m, e / 2)) % m == (result * pow(
            base,
            e,
        )) % m,
        e % 2 == 0 ==> (result * pow((base * base) % m, e / 2)) % m == (result * pow(base, e)) % m,
{
    let k = e / 2;
    let square = base * base;
    lemma_square_is_pow2(base);
    lemma_pow_multiplies(base, 2, k);
    lemma_pow_mod_noop(square, k, m);
    if e % 2 == 0 {
        lemma_mul_mod_noop_general(result, pow(square % m, k), m);
        lemma_mul_mod_noop_general(result, pow(square, k), m);
    } else {
        reveal(pow);
        assert(result * pow(base, e) == (result * base) * pow(square, k)) by (nonlinear_arith)
            requires
                pow(base, e) == base * pow(base, (e - 1) as nat),
                pow(square, k) == pow(base, (e - 1) as nat),
        ;
        lemma_mul_mod_noop_general(result * base, pow(square % m, k), m);
        lemma_mul_mod_noop_general(result * base, pow(square, k), m);
    }
}

/// What a field gadget witnesses for two operands. Only a division by zero fails.
pub open spec fn field_result(operation: FieldOperation, left: FieldElement, right: FieldElement) -> Result<
    FieldElement,
    GadgetError,
> {
    match operation {
        FieldOperation::Add => Ok(left.sum(right)),
        FieldOperation::Sub => Ok(left.difference(right)),
        FieldOperation::Mul => Ok(left.product(right)),
        FieldOperation::Div => if residue(right.value as int).value == 0 {
            Err(GadgetError::DivisionByZero)
        } else {
            Ok(left.quotient(right))
        },
    }
}

/// Computes what a field gadget witnesses for two operands.
pub fn field_operation(operation: FieldOperation, left: FieldElement, right: FieldElement) -> (r: Result<
    FieldElement,
    GadgetError,
>)
    ensures
        r == field_result(operation, left, right),
{
    match operation {
        FieldOperation::Add => Ok(left.plus(right)),
        FieldOperation::Sub => Ok(left.minus(right)),
        FieldOperation::Mul => Ok(left.times(right)),
        FieldOperation::Div => {
            if right.value % MODULUS == 0 {
                Err(GadgetError::DivisionByZero)
            } else {
                Ok(left.times(right.inverted()))
            }
        },
    }
}

} // verus!
