//! The constraint system: the ordered record of the gadgets that were enforced.
use vstd::prelude::*;
use crate::field::FieldElement;
use crate::field::FieldOperation;
use crate::field::field_operation;
use crate::field::field_result;
use crate::integer::GadgetError;
use crate::integer::Integer;
use crate::integer::IntegerOperation;
use crate::integer::integer_operation;
use crate::integer::integer_result;

verus! {

/// The two boolean gadgets that take two booleans.
#[derive(Clone, Copy, PartialEq, Eq, Debug, Structural)]
pub enum BooleanOperation {
    And,
    Or,
}

/// One enforced gadget: what it is, the witnesses of its operands and of its result.
#[derive(Clone, Copy, PartialEq, Eq, Debug, Structural)]
#[allow(inconsistent_fields)]
pub enum Constraint {
    Integer { operation: IntegerOperation, left: Integer, right: Integer, output: Integer },
    Field { operation: FieldOperation, left: FieldElement, right: FieldElement, output: FieldElement },
    FieldPower { base: FieldElement, exponent: Integer, output: FieldElement },
    Boolean { operation: BooleanOperation, left: bool, right: bool, output: bool },
    SelectBoolean { condition: bool, first: bool, second: bool, output: bool },
    SelectInteger { condition: bool, first: Integer, second: Integer, output: Integer },
}

impl Constraint {
    /// Whether the recorded result is what the gadget witnesses for the recorded operands.
    pub open spec fn consistent(self) -> bool {
        match self {
            Constraint::Integer { operation, left, right, output } => integer_result(
                operation,
                left,
                right,
            ) == Ok::<Integer, GadgetError>(output),
            Constraint::Field { operation, left, right, output } => field_result(
                operation,
                left,
                right,
            ) == Ok::<FieldElement, GadgetError>(output),
            Constraint::FieldPower { base, exponent, output } => output == base.power(
                exponent.value as nat,
            ),
            Constraint::Boolean { operation, left, right, output } => output == boolean_result(
                operation,
                left,
                right,
            ),
            Constraint::SelectBoolean { condition, first, second, output } => output == if condition {
                first
            } else {
                second
            },
            Constraint::SelectInteger { condition, first, second, output } => first.integer_type
                == second.integer_type && output == if condition {
                first
            } else {
                second
            },
        }
    }
}

/// Whether `after` is `before` with consistent constraints added at its end.
#[verifier::opaque]
pub open spec fn extends(after: Seq<Constraint>, before: Seq<Constraint>) -> bool {
    &&& before.len() <= after.len()
    &&& forall|i: int| 0 <= i < before.len() ==> after[i] == before[i]
    &&& forall|i: int| before.len() <= i < after.len() ==> (#[trigger] after[i]).consistent()
}

/// The constraints enforced so far, oldest first. It only ever grows at its end.
#[derive(Debug, PartialEq, Eq)]
pub struct ConstraintSystem {
    constraints: Vec<Constraint>,
}

impl View for ConstraintSystem {
    type V = Seq<Constraint>;

    closed spec fn view(&self) -> Seq<Constraint> {
        self.constraints@
    }
}

/// What a boolean gadget witnesses.
pub open spec fn boolean_result(operation: BooleanOperation, left: bool, right: bool) -> bool {
    match operation {
        BooleanOperation::And => left && right,
        BooleanOperation::Or => left || right,
    }
}

/// The record and the result after an integer gadget: a gadget that fails records nothing.
pub open spec fn integer_enforced(
    constraints: Seq<Constraint>,
    operation: IntegerOperation,
    left: Integer,
    right: Integer,
) -> (Seq<Constraint>, Result<Integer, GadgetError>) {
    match integer_result(operation, left, right) {
        Ok(output) => (
            constraints.push(Constraint::Integer { operation, left, right, output }),
            Ok(output),
        ),
        Err(error) => (constraints, Err(error)),
    }
}

/// The record and the result after a field gadget: a gadget that fails records nothing.
pub open spec fn field_enforced(
    constraints: Seq<Constraint>,
    operation: FieldOperation,
    left: FieldElement,
    right: FieldElement,
) -> (Seq<Constraint>, Result<FieldElement, GadgetError>) {
    match field_result(operation, left, right) {
        Ok(output) => (
            constraints.push(Constraint::Field { operation, left, right, output }),
            Ok(output),
        ),
        Err(error) => (constraints, Err(error)),
    }
}

/// The record and the result after a field element was raised to an integer power.
pub open spec fn field_power_enforced(
    constraints: Seq<Constraint>,
    base: FieldElement,
    exponent: Integer,
) -> (Seq<Constraint>, FieldElement) {
    let output = base.power(exponent.value as nat);
    (constraints.push(Constraint::FieldPower { base, exponent, output }), output)
}

/// The record and the result after a boolean gadget.
pub open spec fn boolean_enforced(
    constraints: Seq<Constraint>,
    operation: BooleanOperation,
    left: bool,
    right: bool,
) -> (Seq<Constraint>, bool) {
    let output = boolean_result(operation, left, right);
    (constraints.push(Constraint::Boolean { operation, left, right, output }), output)
}

/// The record and the result after a choice between two booleans.
pub open spec fn boolean_selected(
    constraints: Seq<Constraint>,
    condition: bool,
    first: bool,
    second: bool,
) -> (Seq<Constraint>, bool) {
    let output = if condition {
        first
    } else {
        second
    };
    (constraints.push(Constraint::SelectBoolean { condition, first, second, output }), output)
}

/// The record and the result after a choice between two integers, which must have one width.
pub open spec fn integer_selected(
    constraints: Seq<Constraint>,
    condition: bool,
    first: Integer,
    second: Integer,
) -> (Seq<Constraint>, Result<Integer, GadgetError>) {
    let output = if condition {
        first
    } else {
        second
    };
    if first.integer_type != second.integer_type {
        (constraints, Err(GadgetError::MismatchedWidths))
    } else {
        (
            constraints.push(Constraint::SelectInteger { condition, first, second, output }),
            Ok(output),
        )
    }
}

impl ConstraintSystem {
    /// A constraint system in which nothing was enforced yet.
    pub fn new() -> (r: ConstraintSystem)
        ensures
            r@ == Seq::<Constraint>::empty(),
    {
        ConstraintSystem { constraints: Vec::new() }
    }

    /// The number of gadgets enforced so far.
    pub fn num_constraints(&self) -> (r: usize)
        ensures
            r == self@.len(),
    {
        self.constraints.len()
    }

    /// The gadget enforced at position `index`, if there is one.
    pub fn constraint(&self, index: usize) -> (r: Option<Constraint>)
        ensures
            r == if index < self@.len() {
                Some(self@[index as int])
            } else {
                None
            },
    {
        if index < self.constraints.len() {
            Some(self.constraints[index])
        } else {
            None
        }
    }

    /// Enforces an integer gadget and hands back its result.
    pub fn enforce_integer(&mut self, operation: IntegerOperation, left: Integer, right: Integer) -> (r:
        Result<Integer, GadgetError>)
        ensures
            (final(self)@, r) == integer_enforced(old(self)@, operation, left, right),
            extends(final(self)@, old(self)@),
    {
        proof {
            reveal(extends);
        }
        let output = integer_operation(operation, left, right)?;
        self.constraints.push(Constraint::Integer { operation, left, right, output });
        Ok(output)
    }

    /// Enforces a field gadget and hands back its result.
    pub fn enforce_field(
        &mut self,
        operation: FieldOperation,
        left: FieldElement,
        right: FieldElement,
    ) -> (r: Result<FieldElement, GadgetError>)
        ensures
            (final(self)@, r) == field_enforced(old(self)@, operation, left, right),
            extends(final(self)@, old(self)@),
    {
        proof {
            reveal(extends);
        }
        let output = field_operation(operation, left, right)?;
        self.constraints.push(Constraint::Field { operation, left, right, output });
        Ok(output)
    }

    /// Enforces the power of a field element by an integer and hands back its result.
    pub fn enforce_field_power(&mut self, base: FieldElement, exponent: Integer) -> (r: FieldElement)
        ensures
            (final(self)@, r) == field_power_enforced(old(self)@, base, exponent),
            extends(final(self)@, old(self)@),
    {
        proof {
            reveal(extends);
        }
        let output = base.to_power(exponent.value);
        self.constraints.push(Constraint::FieldPower { base, exponent, output });
        output
    }

    /// Enforces a boolean gadget and hands back its result.
    pub fn enforce_boolean(&mut self, operation: BooleanOperation, left: bool, right: bool) -> (r: bool)
        ensures
            (final(self)@, r) == boolean_enforced(old(self)@, operation, left, right),
            extends(final(self)@, old(self)@),
    {
        proof {
            reveal(extends);
        }
        let output = match operation {
            BooleanOperation::And => left && right,
            BooleanOperation::Or => left || right,
        };
        self.constraints.push(Constraint::Boolean { operation, left, right, output });
        output
    }

    /// Enforces the choice between two booleans and hands back the chosen one.
    pub fn select_boolean(&mut self, condition: bool, first: bool, second: bool) -> (r: bool)
        ensures
            (final(self)@, r) == boolean_selected(old(self)@, condition, first, second),
            extends(final(self)@, old(self)@),
    {
        proof {
            reveal(extends);
        }
        let output = if condition {
            first
        } else {
            second
        };
        self.constraints.push(Constraint::SelectBoolean { condition, first, second, output });
        output
    }

    /// Enforces the choice between two integers of one width and hands back the chosen one.
    pub fn select_integer(&mut self, condition: bool, first: Integer, second: Integer) -> (r: Result<
        Integer,
        GadgetError,
    >)
        ensures
            (final(self)@, r) == integer_selected(old(self)@, condition, first, second),
            extends(final(self)@, old(self)@),
    {
        proof {
            reveal(extends);
        }
        if first.integer_type != second.integer_type {
            return Err(GadgetError::MismatchedWidths);
        }
        let output = if condition {
            first
        } else {
            second
        };
        self.constraints.push(Constraint::SelectInteger { condition, first, second, output });
        Ok(output)
    }
}

} // verus!
