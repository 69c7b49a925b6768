//! Fixed-width unsigned integers and the arithmetic that the integer gadgets witness.
use vstd::prelude::*;
use vstd::arithmetic::power::pow;
use vstd::arithmetic::power::lemma_pow_increases;
use crate::text::decimal;
use crate::text::decimal_text;

verus! {

/// The width of an integer.
#[derive(Clone, Copy, PartialEq, Eq, Debug, Structural)]
pub enum IntegerType {
    U8,
    U16,
    U32,
    U64,
    U128,
}

/// An integer of a fixed width, with the value that it witnesses.
#[derive(Clone, Copy, PartialEq, Eq, Debug, Structural)]
pub struct Integer {
    pub integer_type: IntegerType,
    pub value: u128,
}

/// The five integer gadgets.
#[derive(Clone, Copy, PartialEq, Eq, Debug, Structural)]
pub enum IntegerOperation {
    Add,
    Sub,
    Mul,
    Div,
    Pow,
}

/// Why a gadget could not witness a result.
#[derive(Clone, Copy, PartialEq, Eq, Debug, Structural)]
pub enum GadgetError {
    /// The result does not fit the width of the operands.
    Overflow,
    /// The divisor is zero.
    DivisionByZero,
    /// The operands are integers of two different widths.
    MismatchedWidths,
    /// An index or a range reaches beyond the end of an array.
    OutOfBounds,
}

impl IntegerType {
    /// The greatest value of this width.
    pub open spec fn max_value(self) -> nat {
        match self {
            IntegerType::U8 => 0xff,
            IntegerType::U16 => 0xffff,
            IntegerType::U32 => 0xffff_ffff,
            IntegerType::U64 => 0xffff_ffff_ffff_ffff,
            IntegerType::U128 => 0xffff_ffff_ffff_ffff_ffff_ffff_ffff_ffff,
        }
    }

    /// The name of this width, as it is written behind a number.
    pub open spec fn name(self) -> Seq<char> {
        match self {
            IntegerType::U8 => seq!['u', '8'],
            IntegerType::U16 => seq!['u', '1', '6'],
            IntegerType::U32 => seq!['u', '3', '2'],
            IntegerType::U64 => seq!['u', '6', '4'],
            IntegerType::U128 => seq!['u', '1', '2', '8'],
        }
    }

    /// The greatest value of this width.
    pub fn max(self) -> (r: u128)
        ensures
            r == self.max_value(),
    {
        match self {
            IntegerType::U8 => 0xff,
            IntegerType::U16 => 0xffff,
            IntegerType::U32 => 0xffff_ffff,
            IntegerType::U64 => 0xffff_ffff_ffff_ffff,
            IntegerType::U128 => 0xffff_ffff_ffff_ffff_ffff_ffff_ffff_ffff,
        }
    }

    /// The name of this width.
    pub fn to_text(self) -> (r: &'static str)
        ensures
            r@ == self.name(),
    {
        proof {
            reveal_strlit("u8");
            reveal_strlit("u16");
            reveal_strlit("u32");
            reveal_strlit("u64");
            reveal_strlit("u128");
        }
        let r = match self {
            IntegerType::U8 => "u8",
            IntegerType::U16 => "u16",
            IntegerType::U32 => "u32",
            IntegerType::U64 => "u64",
            IntegerType::U128 => "u128",
        };
        r
    }
}

/// The number that an integer gadget computes, before it is held against the width.
pub open spec fn integer_operation_value(operation: IntegerOperation, left: int, right: int) -> int {
    match operation {
        IntegerOperation::Add => left + right,
        IntegerOperation::Sub => left - right,
        IntegerOperation::Mul => left * right,
        IntegerOperation::Div => left / right,
        IntegerOperation::Pow => pow(left, right as nat),
    }
}

/// What an integer gadget witnesses for two operands.
///
/// The operands must have one width. A division by zero fails, and so does a result
/// below zero or above the width's greatest value: nothing wraps.
pub open spec fn integer_result(operation: IntegerOperation, left: Integer, right: Integer) -> Result<
    Integer,
    GadgetError,
> {
    let value = integer_operation_value(operation, left.value as int, right.value as int);
    if left.integer_type != right.integer_type {
        Err(GadgetError::MismatchedWidths)
    } else if operation == IntegerOperation::Div && right.value == 0 {
        Err(GadgetError::DivisionByZero)
    } else if 0 <= value <= left.integer_type.max_value() {
        Ok(Integer { integer_type: left.integer_type, value: value as u128 })
    } else {
        Err(GadgetError::Overflow)
    }
}

impl Integer {
    /// Whether the value fits the width.
    pub open spec fn wf(self) -> bool {
        self.value <= self.integer_type.max_value()
    }

    /// The integer as it is written: the number, then the width.
    pub open spec fn text(self) -> Seq<char> {
        decimal_text(self.value as nat) + self.integer_type.name()
    }

    /// An integer of the given width, if the value fits it.
    pub fn new(integer_type: IntegerType, value: u128) -> (r: Option<Integer>)
        ensures
            r == if value <= integer_type.max_value() {
                Some(Integer { integer_type, value })
            } else {
                None
            },
    {
        if value <= integer_type.max() {
            Some(Integer { integer_type, value })
        } else {
            None
        }
    }

    /// The value as an index, if the machine can hold it as one.
    pub fn to_usize(&self) -> (r: Option<usize>)
        ensures
            r == if self.value <= usize::MAX {
                Some(self.value as usize)
            } else {
                None
            },
    {
        if self.value <= usize::MAX as u128 {
            Some(self.value as usize)
        } else {
            None
        }
    }

    /// Writes the integer: the number, then the width.
    pub fn to_text(&self) -> (r: String)
        ensures
            r@ == self.text(),
    {
        let mut r = decimal(self.value);
        r.append(self.integer_type.to_text());
        r
    }
}

proof fn lemma_pow_step(base: int, exponent: nat)
    ensures
        pow(base, exponent + 1) == base * pow(base, exponent),
{
    reveal(pow);
}

/// The power `base ** exponent`, if it is no greater than `max`.
fn bounded_power(base: u128, exponent: u128, max: u128) -> (r: Option<u128>)
    requires
        max >= 1,
    ensures
        0 <= pow(base as int, exponent as nat),
        r == if pow(base as int, exponent as nat) <= max {
            Some(pow(base as int, exponent as nat) as u128)
        } else {
            None
        },
{
    proof {
        if base > 0 {
            vstd::arithmetic::power::lemma_pow_positive(base as int, exponent as nat);
        }
    }
    broadcast use {
        vstd::arithmetic::power::lemma_pow0,
        vstd::arithmetic::power::lemma0_pow,
        vstd::arithmetic::power::lemma1_pow,
    };

    if exponent == 0 {
        return Some(1);
    }
    if base <= 1 {
        return Some(base);
    }
    let mut power: u128 = 1;
    let mut i: u128 = 0;
    while i < exponent
        invariant
            base >= 2,
            i <= exponent,
            power == pow(base as int, i as nat),
            1 <= power <= max,
        decreases exponent - i,
    {
        proof {
            lemma_pow_step(base as int, i as nat);
            lemma_pow_increases(base as nat, (i + 1) as nat, exponent as nat);
        }
        if power > max / base {
            assert(base * power > max) by (nonlinear_arith)
                requires
                    power > max / base,
                    base >= 2,
            ;
            return None;
        }
        assert(1 <= power * base <= max && power * base == base * power) by (nonlinear_arith)
            requires
                1 <= power <= max / base,
                base >= 2,
        ;
        power = power * base;
        i = i + 1;
    }
    Some(power)
}

/// Computes what an integer gadget witnesses for two operands.
pub fn integer_operation(operation: IntegerOperation, left: Integer, right: Integer) -> (r: Result<
    Integer,
    GadgetError,
>)
    ensures
        r == integer_result(operation, left, right),
{
    if left.integer_type != right.integer_type {
        return Err(GadgetError::MismatchedWidths);
    }
    let max = left.integer_type.max();
    let a = left.value;
    let b = right.value;
    let value: Option<u128> = match operation {
        IntegerOperation::Add => {
            if a <= max && b <= max - a {
                Some(a + b)
            } else {
                None
            }
        },
        IntegerOperation::Sub => {
            if b <= a && a - b <= max {
                Some(a - b)
            } else {
                None
            }
        },
        IntegerOperation::Mul => {
            if a == 0 || b == 0 {
                assert(a * b == 0) by (nonlinear_arith)
                    requires
                        a == 0 || b == 0,
                ;
                Some(0)
            } else if a <= max / b {
                assert(a * b <= max) by (nonlinear_arith)
                    requires
                        a <= max / b,
                        b > 0,
                ;
                Some(a * b)
            } else {
                assert(a * b > max) by (nonlinear_arith)
                    requires
                        a > max / b,
                        b > 0,
                ;
                None
            }
        },
        IntegerOperation::Div => {
            if b == 0 {
                return Err(GadgetError::DivisionByZero);
            }
            if a / b <= max {
                Some(a / b)
            } else {
                None
            }
        },
        IntegerOperation::Pow => bounded_power(a, b, max),
    };
    match value {
        Some(value) => Ok(Integer { integer_type: left.integer_type, value }),
        None => Err(GadgetError::Overflow),
    }
}

} // verus!
