//! The operators on values: the lookup of a gadget for the classes of two operands.
use vstd::prelude::*;
use crate::ast::BinaryOperator;
use crate::ast::operator_symbol;
use crate::constraint_system::BooleanOperation;
use crate::constraint_system::ConstraintSystem;
use crate::errors::ErrorModel;
use crate::errors::ExpressionError;
use crate::field::FieldElement;
use crate::field::FieldOperation;
use crate::integer::GadgetError;
use crate::integer::Integer;
use crate::integer::IntegerOperation;
use crate::program::ConstrainedProgram;
use crate::semantics::applied;
use crate::semantics::coerced_operands;
use crate::semantics::incompatible;
use crate::semantics::negated;
use crate::semantics::selected;
use crate::value::ConstrainedValue;
use crate::value::ValueModel;

verus! {

/// What the outcome of an evaluation stands for.
pub open spec fn result_model(result: Result<ConstrainedValue, ExpressionError>) -> Result<
    ValueModel,
    ErrorModel,
> {
    match result {
        Ok(value) => Ok(value@),
        Err(error) => Err(error@),
    }
}

/// The error of an operator that has no meaning on its two operands.
fn incompatible_types(operator: BinaryOperator, left: &ConstrainedValue, right: &ConstrainedValue) -> (r:
    ExpressionError)
    ensures
        r@ == incompatible(operator, left@, right@),
{
    let mut text = left.to_text();
    text.append(operator_symbol(operator));
    let right_text = right.to_text();
    text.append(right_text.as_str());
    match operator {
        BinaryOperator::Geq | BinaryOperator::Gt | BinaryOperator::Leq | BinaryOperator::Lt => {
            text.append(", values must be fields");
        },
        _ => {},
    }
    ExpressionError::IncompatibleTypes(text)
}

/// Takes the wrappers off two operands and gives a number without a type the type
/// of its peer. Where that cannot be done, the unwrapped operands come back as they are.
fn coerce_operands(left: ConstrainedValue, right: ConstrainedValue) -> (r: Result<
    (ConstrainedValue, ConstrainedValue),
    (ConstrainedValue, ConstrainedValue),
>)
    ensures
        match coerced_operands(left@.unwrapped(), right@.unwrapped()) {
            Some(pair) => r matches Ok(found) && found.0@ == pair.0 && found.1@ == pair.1,
            None => r matches Err(found) && found.0@ == left@.unwrapped() && found.1@
                == right@.unwrapped(),
        },
{
    let left = left.unwrap_mutable();
    let right = right.unwrap_mutable();
    match left {
        ConstrainedValue::Unresolved(text) => {
            match ConstrainedValue::from_other(text.as_str(), &right) {
                Some(value) => Ok((value, right)),
                None => Err((ConstrainedValue::Unresolved(text), right)),
            }
        },
        left => match right {
            ConstrainedValue::Unresolved(text) => {
                match ConstrainedValue::from_other(text.as_str(), &left) {
                    Some(value) => Ok((left, value)),
                    None => Err((left, ConstrainedValue::Unresolved(text))),
                }
            },
            right => Ok((left, right)),
        },
    }
}

fn integer_value(outcome: Result<Integer, GadgetError>) -> (r: Result<
    ConstrainedValue,
    ExpressionError,
>)
    ensures
        result_model(r) == match outcome {
            Ok(integer) => Ok::<ValueModel, ErrorModel>(ValueModel::Integer(integer)),
            Err(error) => Err(ErrorModel::GadgetError(error)),
        },
{
    match outcome {
        Ok(integer) => Ok(ConstrainedValue::Integer(integer)),
        Err(error) => Err(ExpressionError::GadgetError(error)),
    }
}

fn field_value(outcome: Result<FieldElement, GadgetError>) -> (r: Result<
    ConstrainedValue,
    ExpressionError,
>)
    ensures
        result_model(r) == match outcome {
            Ok(element) => Ok::<ValueModel, ErrorModel>(ValueModel::FieldElement(element)),
            Err(error) => Err(ErrorModel::GadgetError(error)),
        },
{
    match outcome {
        Ok(element) => Ok(ConstrainedValue::FieldElement(element)),
        Err(error) => Err(ExpressionError::GadgetError(error)),
    }
}

/// The choice between the values of two branches.
pub fn select_branches(
    cs: &mut ConstraintSystem,
    condition: bool,
    first: ConstrainedValue,
    second: ConstrainedValue,
) -> (result: Result<ConstrainedValue, ExpressionError>)
    ensures
        (final(cs)@, result_model(result)) == selected(old(cs)@, condition, first@, second@),
{
    match (&first, &second) {
        (ConstrainedValue::Boolean(a), ConstrainedValue::Boolean(b)) => Ok(
            ConstrainedValue::Boolean(cs.select_boolean(condition, *a, *b)),
        ),
        (ConstrainedValue::Integer(a), ConstrainedValue::Integer(b)) => integer_value(
            cs.select_integer(condition, *a, *b),
        ),
        _ => {
            let mut text = ConstrainedValue::Boolean(condition).to_text();
            text.append(" ? ");
            let first_text = first.to_text();
            text.append(first_text.as_str());
            text.append(" : ");
            let second_text = second.to_text();
            text.append(second_text.as_str());
            Err(ExpressionError::IncompatibleTypes(text))
        },
    }
}

impl ConstrainedProgram {
    /// The sum of two integers, two field elements or two group elements.
    pub fn enforce_add_expression(
        &mut self,
        cs: &mut ConstraintSystem,
        left: ConstrainedValue,
        right: ConstrainedValue,
    ) -> (result: Result<ConstrainedValue, ExpressionError>)
        ensures
            *final(self) == *old(self),
            (final(cs)@, result_model(result)) == applied(
                BinaryOperator::Add,
                old(cs)@,
                left@,
                right@,
            ),
    {
        match coerce_operands(left, right) {
            Ok((left, right)) => match (&left, &right) {
                (ConstrainedValue::Integer(a), ConstrainedValue::Integer(b)) => integer_value(
                    cs.enforce_integer(IntegerOperation::Add, *a, *b),
                ),
                (ConstrainedValue::FieldElement(a), ConstrainedValue::FieldElement(b)) => field_value(
                    cs.enforce_field(FieldOperation::Add, *a, *b),
                ),
                (ConstrainedValue::GroupElement(a), ConstrainedValue::GroupElement(b)) => Ok(
                    ConstrainedValue::GroupElement(a.plus(*b)),
                ),
                _ => Err(incompatible_types(BinaryOperator::Add, &left, &right)),
            },
            Err((left, right)) => Err(incompatible_types(BinaryOperator::Add, &left, &right)),
        }
    }

    /// The difference of two integers, two field elements or two group elements.
    pub fn enforce_sub_expression(
        &mut self,
        cs: &mut ConstraintSystem,
        left: ConstrainedValue,
        right: ConstrainedValue,
    ) -> (result: Result<ConstrainedValue, ExpressionError>)
        ensures
            *final(self) == *old(self),
            (final(cs)@, result_model(result)) == applied(
                BinaryOperator::Sub,
                old(cs)@,
                left@,
                right@,
            ),
    {
        match coerce_operands(left, right) {
            Ok((left, right)) => match (&left, &right) {
                (ConstrainedValue::Integer(a), ConstrainedValue::Integer(b)) => integer_value(
                    cs.enforce_integer(IntegerOperation::Sub, *a, *b),
                ),
                (ConstrainedValue::FieldElement(a), ConstrainedValue::FieldElement(b)) => field_value(
                    cs.enforce_field(FieldOperation::Sub, *a, *b),
                ),
                (ConstrainedValue::GroupElement(a), ConstrainedValue::GroupElement(b)) => Ok(
                    ConstrainedValue::GroupElement(a.minus(*b)),
                ),
                _ => Err(incompatible_types(BinaryOperator::Sub, &left, &right)),
            },
            Err((left, right)) => Err(incompatible_types(BinaryOperator::Sub, &left, &right)),
        }
    }

    /// The product of two integers or two field elements.
    pub fn enforce_mul_expression(
        &mut self,
        cs: &mut ConstraintSystem,
        left: ConstrainedValue,
        right: ConstrainedValue,
    ) -> (result: Result<ConstrainedValue, ExpressionError>)
        ensures
            *final(self) == *old(self),
            (final(cs)@, result_model(result)) == applied(
                BinaryOperator::Mul,
                old(cs)@,
                left@,
                right@,
            ),
    {
        match coerce_operands(left, right) {
            Ok((left, right)) => match (&left, &right) {
                (ConstrainedValue::Integer(a), ConstrainedValue::Integer(b)) => integer_value(
                    cs.enforce_integer(IntegerOperation::Mul, *a, *b),
                ),
                (ConstrainedValue::FieldElement(a), ConstrainedValue::FieldElement(b)) => field_value(
                    cs.enforce_field(FieldOperation::Mul, *a, *b),
                ),
                _ => Err(incompatible_types(BinaryOperator::Mul, &left, &right)),
            },
            Err((left, right)) => Err(incompatible_types(BinaryOperator::Mul, &left, &right)),
        }
    }

    /// The quotient of two integers or two field elements.
    pub fn enforce_div_expression(
        &mut self,
        cs: &mut ConstraintSystem,
        left: ConstrainedValue,
        right: ConstrainedValue,
    ) -> (result: Result<ConstrainedValue, ExpressionError>)
        ensures
            *final(self) == *old(self),
            (final(cs)@, result_model(result)) == applied(
                BinaryOperator::Div,
                old(cs)@,
                left@,
                right@,
            ),
    {
        match coerce_operands(left, right) {
            Ok((left, right)) => match (&left, &right) {
                (ConstrainedValue::Integer(a), ConstrainedValue::Integer(b)) => integer_value(
                    cs.enforce_integer(IntegerOperation::Div, *a, *b),
                ),
                (ConstrainedValue::FieldElement(a), ConstrainedValue::FieldElement(b)) => field_value(
                    cs.enforce_field(FieldOperation::Div, *a, *b),
                ),
                _ => Err(incompatible_types(BinaryOperator::Div, &left, &right)),
            },
            Err((left, right)) => Err(incompatible_types(BinaryOperator::Div, &left, &right)),
        }
    }

    /// The power of an integer or a field element by an integer.
    pub fn enforce_pow_expression(
        &mut self,
        cs: &mut ConstraintSystem,
        left: ConstrainedValue,
        right: ConstrainedValue,
    ) -> (result: Result<ConstrainedValue, ExpressionError>)
        ensures
            *final(self) == *old(self),
            (final(cs)@, result_model(result)) == applied(
                BinaryOperator::Pow,
                old(cs)@,
                left@,
                right@,
            ),
    {
        match coerce_operands(left, right) {
            Ok((left, right)) => match (&left, &right) {
                (ConstrainedValue::Integer(a), ConstrainedValue::Integer(b)) => integer_value(
                    cs.enforce_integer(IntegerOperation::Pow, *a, *b),
                ),
                (ConstrainedValue::FieldElement(a), ConstrainedValue::Integer(b)) => Ok(
                    ConstrainedValue::FieldElement(cs.enforce_field_power(*a, *b)),
                ),
                (_, ConstrainedValue::FieldElement(exponent)) => Err(
                    ExpressionError::InvalidExponent(exponent.to_text()),
                ),
                _ => Err(incompatible_types(BinaryOperator::Pow, &left, &right)),
            },
            Err((left, right)) => Err(incompatible_types(BinaryOperator::Pow, &left, &right)),
        }
    }

    /// The disjunction of two booleans.
    pub fn enforce_or(
        &mut self,
        cs: &mut ConstraintSystem,
        left: ConstrainedValue,
        right: ConstrainedValue,
    ) -> (result: Result<ConstrainedValue, ExpressionError>)
        ensures
            *final(self) == *old(self),
            (final(cs)@, result_model(result)) == applied(
                BinaryOperator::Or,
                old(cs)@,
                left@,
                right@,
            ),
    {
        match coerce_operands(left, right) {
            Ok((left, right)) => match (&left, &right) {
                (ConstrainedValue::Boolean(a), ConstrainedValue::Boolean(b)) => Ok(
                    ConstrainedValue::Boolean(cs.enforce_boolean(BooleanOperation::Or, *a, *b)),
                ),
                _ => Err(incompatible_types(BinaryOperator::Or, &left, &right)),
            },
            Err((left, right)) => Err(incompatible_types(BinaryOperator::Or, &left, &right)),
        }
    }

    /// The conjunction of two booleans.
    pub fn enforce_and(
        &mut self,
        cs: &mut ConstraintSystem,
        left: ConstrainedValue,
        right: ConstrainedValue,
    ) -> (result: Result<ConstrainedValue, ExpressionError>)
        ensures
            *final(self) == *old(self),
            (final(cs)@, result_model(result)) == applied(
                BinaryOperator::And,
                old(cs)@,
                left@,
                right@,
            ),
    {
        match coerce_operands(left, right) {
            Ok((left, right)) => match (&left, &right) {
                (ConstrainedValue::Boolean(a), ConstrainedValue::Boolean(b)) => Ok(
                    ConstrainedValue::Boolean(cs.enforce_boolean(BooleanOperation::And, *a, *b)),
                ),
                _ => Err(incompatible_types(BinaryOperator::And, &left, &right)),
            },
            Err((left, right)) => Err(incompatible_types(BinaryOperator::And, &left, &right)),
        }
    }

    /// Whether two booleans, two integers of one width or two group elements are equal.
    pub fn evaluate_eq_expression(&mut self, left: ConstrainedValue, right: ConstrainedValue) -> (result:
        Result<ConstrainedValue, ExpressionError>)
        ensures
            *final(self) == *old(self),
            forall|constraints: Seq<crate::constraint_system::Constraint>|
                (constraints, result_model(result)) == #[trigger] applied(
                    BinaryOperator::Eq,
                    constraints,
                    left@,
                    right@,
                ),
    {
        match coerce_operands(left, right) {
            Ok((left, right)) => match (&left, &right) {
                (ConstrainedValue::Boolean(a), ConstrainedValue::Boolean(b)) => Ok(
                    ConstrainedValue::Boolean(*a == *b),
                ),
                (ConstrainedValue::Integer(a), ConstrainedValue::Integer(b)) => {
                    if a.integer_type == b.integer_type {
                        Ok(ConstrainedValue::Boolean(a.value == b.value))
                    } else {
                        Err(ExpressionError::GadgetError(GadgetError::MismatchedWidths))
                    }
                },
                (ConstrainedValue::GroupElement(a), ConstrainedValue::GroupElement(b)) => Ok(
                    ConstrainedValue::Boolean(a.equals(*b)),
                ),
                _ => Err(incompatible_types(BinaryOperator::Eq, &left, &right)),
            },
            Err((left, right)) => Err(incompatible_types(BinaryOperator::Eq, &left, &right)),
        }
    }

    /// Whether the left operand is no less than the right one. No class of values is ordered yet: the answer is the error that names the operands.
    pub fn evaluate_geq_expression(&mut self, left: ConstrainedValue, right: ConstrainedValue) -> (result: Result<
        ConstrainedValue,
        ExpressionError,
    >)
        ensures
            *final(self) == *old(self),
            result is Err,
            forall|constraints: Seq<crate::constraint_system::Constraint>|
                (constraints, result_model(result)) == #[trigger] applied(
                    BinaryOperator::Geq,
                    constraints,
                    left@,
                    right@,
                ),
    {
        match coerce_operands(left, right) {
            Ok((left, right)) => Err(incompatible_types(BinaryOperator::Geq, &left, &right)),
            Err((left, right)) => Err(incompatible_types(BinaryOperator::Geq, &left, &right)),
        }
    }

    /// Whether the left operand is greater than the right one. No class of values is ordered yet: the answer is the error that names the operands.
    pub fn evaluate_gt_expression(&mut self, left: ConstrainedValue, right: ConstrainedValue) -> (result: Result<
        ConstrainedValue,
        ExpressionError,
    >)
        ensures
            *final(self) == *old(self),
            result is Err,
            forall|constraints: Seq<crate::constraint_system::Constraint>|
                (constraints, result_model(result)) == #[trigger] applied(
                    BinaryOperator::Gt,
                    constraints,
                    left@,
                    right@,
                ),
    {
        match coerce_operands(left, right) {
            Ok((left, right)) => Err(incompatible_types(BinaryOperator::Gt, &left, &right)),
            Err((left, right)) => Err(incompatible_types(BinaryOperator::Gt, &left, &right)),
        }
    }

    /// Whether the left operand is no greater than the right one. No class of values is ordered yet: the answer is the error that names the operands.
    pub fn evaluate_leq_expression(&mut self, left: ConstrainedValue, right: ConstrainedValue) -> (result: Result<
        ConstrainedValue,
        ExpressionError,
    >)
        ensures
            *final(self) == *old(self),
            result is Err,
            forall|constraints: Seq<crate::constraint_system::Constraint>|
                (constraints, result_model(result)) == #[trigger] applied(
                    BinaryOperator::Leq,
                    constraints,
                    left@,
                    right@,
                ),
    {
        match coerce_operands(left, right) {
            Ok((left, right)) => Err(incompatible_types(BinaryOperator::Leq, &left, &right)),
            Err((left, right)) => Err(incompatible_types(BinaryOperator::Leq, &left, &right)),
        }
    }

    /// Whether the left operand is less than the right one. No class of values is ordered yet: the answer is the error that names the operands.
    pub fn evaluate_lt_expression(&mut self, left: ConstrainedValue, right: ConstrainedValue) -> (result: Result<
        ConstrainedValue,
        ExpressionError,
    >)
        ensures
            *final(self) == *old(self),
            result is Err,
            forall|constraints: Seq<crate::constraint_system::Constraint>|
                (constraints, result_model(result)) == #[trigger] applied(
                    BinaryOperator::Lt,
                    constraints,
                    left@,
                    right@,
                ),
    {
        match coerce_operands(left, right) {
            Ok((left, right)) => Err(incompatible_types(BinaryOperator::Lt, &left, &right)),
            Err((left, right)) => Err(incompatible_types(BinaryOperator::Lt, &left, &right)),
        }
    }

    /// The negation of a boolean.
    pub fn evaluate_not(value: ConstrainedValue) -> (result: Result<ConstrainedValue, ExpressionError>)
        ensures
            result_model(result) == negated(value@),
    {
        match value.unwrap_mutable() {
            ConstrainedValue::Boolean(boolean) => Ok(ConstrainedValue::Boolean(!boolean)),
            other => {
                let mut text = String::from_str("!");
                let operand = other.to_text();
                text.append(operand.as_str());
                Err(ExpressionError::IncompatibleTypes(text))
            },
        }
    }
}

} // verus!
