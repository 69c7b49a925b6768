//! What an expression evaluates to: the meaning that the evaluator is held to.
use vstd::prelude::*;
use crate::ast::BinaryOperator;
use crate::ast::BindingModel;
use crate::ast::ElementModel;
use crate::ast::ExpressionModel;
use crate::ast::IndexModel;
use crate::ast::operator_text;
use crate::constraint_system::BooleanOperation;
use crate::constraint_system::Constraint;
use crate::constraint_system::boolean_enforced;
use crate::constraint_system::boolean_selected;
use crate::constraint_system::field_enforced;
use crate::constraint_system::field_power_enforced;
use crate::constraint_system::integer_enforced;
use crate::constraint_system::integer_selected;
use crate::errors::ErrorModel;
use crate::field::FieldOperation;
use crate::integer::GadgetError;
use crate::integer::Integer;
use crate::integer::IntegerOperation;
use crate::text::number_text_value;
use crate::text::scope_path;
use crate::types::CircuitMemberModel;
use crate::types::CircuitModel;
use crate::types::FunctionModel;
use crate::types::TypeModel;
use crate::types::self_name;
use crate::value::MemberModel;
use crate::value::ValueModel;
use crate::value::literal_beside;
use crate::value::literal_value;

verus! {

/// What an evaluation reads and changes: the scope store and the constraints.
pub struct State {
    pub store: Map<Seq<char>, ValueModel>,
    pub constraints: Seq<Constraint>,
}

/// The two scopes in which names are looked up.
pub struct Scopes {
    pub file: Seq<char>,
    pub function: Seq<char>,
}

/// The state with the given store and constraints.
pub open spec fn state(store: Map<Seq<char>, ValueModel>, constraints: Seq<Constraint>) -> State {
    State { store, constraints }
}

/// The scopes with the given paths.
pub open spec fn scopes(file: Seq<char>, function: Seq<char>) -> Scopes {
    Scopes { file, function }
}

/// One call of a function, as the evaluation that made it saw it.
pub struct Invocation {
    /// The state in which the call was made.
    pub before: State,
    /// The scope below which the function runs.
    pub outer_scope: Seq<char>,
    /// The scope of the caller, in which the arguments are evaluated.
    pub function_scope: Seq<char>,
    /// The function that was run.
    pub function: FunctionModel,
    /// The arguments, not yet evaluated.
    pub arguments: Seq<ExpressionModel>,
    /// The state in which the function's body left the program and the constraints.
    pub after: State,
    /// What the function's body handed back: a value, or the message of its failure.
    pub returned: Result<ValueModel, Seq<char>>,
}

/// How an evaluation ends when the calls that it makes are given.
pub enum Evaluation<T> {
    /// It ends in a state, with a result or an error, and leaves the calls that it
    /// did not make.
    Finished(State, Result<T, ErrorModel>, Seq<Invocation>),
    /// The calls are not the calls of this evaluation: it makes a call where none is
    /// left, or another call than the next one.
    Mismatch,
}

/// Whether an evaluation ends with the given store, constraints and result, and
/// makes every call that it was given.
pub open spec fn evaluation_ends<T>(
    evaluation: Evaluation<T>,
    store: Map<Seq<char>, ValueModel>,
    constraints: Seq<Constraint>,
    result: Result<T, ErrorModel>,
) -> bool {
    evaluation == Evaluation::Finished(State { store, constraints }, result, Seq::empty())
}

/// Whether `after` is `before` with calls added at its end.
pub open spec fn calls_grown(before: Seq<Invocation>, after: Seq<Invocation>) -> bool {
    before.len() <= after.len() && after.take(before.len() as int) == before
}

/// The calls added to `before` to make `after`.
pub open spec fn calls_since(before: Seq<Invocation>, after: Seq<Invocation>) -> Seq<Invocation> {
    after.skip(before.len() as int)
}

/// A gadget's result as the value of an expression.
pub open spec fn integer_outcome(outcome: (Seq<Constraint>, Result<Integer, GadgetError>)) -> (
    Seq<Constraint>,
    Result<ValueModel, ErrorModel>,
) {
    match outcome.1 {
        Ok(integer) => (outcome.0, Ok(ValueModel::Integer(integer))),
        Err(error) => (outcome.0, Err(ErrorModel::GadgetError(error))),
    }
}

/// Whether the operator compares by order.
pub open spec fn is_ordering(operator: BinaryOperator) -> bool {
    operator == BinaryOperator::Geq || operator == BinaryOperator::Gt || operator
        == BinaryOperator::Leq || operator == BinaryOperator::Lt
}

/// The error of an operator that has no meaning on its two operands.
pub open spec fn incompatible(operator: BinaryOperator, left: ValueModel, right: ValueModel) -> ErrorModel {
    let text = left.text() + operator_text(operator) + right.text();
    if is_ordering(operator) {
        ErrorModel::IncompatibleTypes(text + ", values must be fields"@)
    } else {
        ErrorModel::IncompatibleTypes(text)
    }
}

/// The two operands once a number without a type has taken the type of its peer.
/// There are none if the number cannot be read under that type.
pub open spec fn coerced_operands(left: ValueModel, right: ValueModel) -> Option<
    (ValueModel, ValueModel),
> {
    match left {
        ValueModel::Unresolved(text) => match literal_beside(text, right) {
            Some(value) => Some((value, right)),
            None => None,
        },
        _ => match right {
            ValueModel::Unresolved(text) => match literal_beside(text, left) {
                Some(value) => Some((left, value)),
                None => None,
            },
            _ => Some((left, right)),
        },
    }
}

/// The arithmetic gadget behind an operator, on integers.
pub open spec fn integer_operation_of(operator: BinaryOperator) -> IntegerOperation {
    match operator {
        BinaryOperator::Add => IntegerOperation::Add,
        BinaryOperator::Sub => IntegerOperation::Sub,
        BinaryOperator::Mul => IntegerOperation::Mul,
        BinaryOperator::Div => IntegerOperation::Div,
        _ => IntegerOperation::Pow,
    }
}

/// The arithmetic gadget behind an operator, on field elements.
pub open spec fn field_operation_of(operator: BinaryOperator) -> FieldOperation {
    match operator {
        BinaryOperator::Add => FieldOperation::Add,
        BinaryOperator::Sub => FieldOperation::Sub,
        BinaryOperator::Mul => FieldOperation::Mul,
        _ => FieldOperation::Div,
    }
}

/// The four arithmetic operators that integers and field elements share: both
/// operands are integers, or both are field elements; sums and differences are also
/// taken of two group elements, which enforces nothing.
pub open spec fn arithmetic_applied(
    operator: BinaryOperator,
    constraints: Seq<Constraint>,
    left: ValueModel,
    right: ValueModel,
) -> (Seq<Constraint>, Result<ValueModel, ErrorModel>) {
    match (left, right) {
        (ValueModel::Integer(a), ValueModel::Integer(b)) => integer_outcome(
            integer_enforced(constraints, integer_operation_of(operator), a, b),
        ),
        (ValueModel::FieldElement(a), ValueModel::FieldElement(b)) => {
            let outcome = field_enforced(constraints, field_operation_of(operator), a, b);
            match outcome.1 {
                Ok(element) => (outcome.0, Ok(ValueModel::FieldElement(element))),
                Err(error) => (outcome.0, Err(ErrorModel::GadgetError(error))),
            }
        },
        (ValueModel::GroupElement(a), ValueModel::GroupElement(b)) => if operator
            == BinaryOperator::Add {
            (constraints, Ok(ValueModel::GroupElement(a.sum(b))))
        } else if operator == BinaryOperator::Sub {
            (constraints, Ok(ValueModel::GroupElement(a.difference(b))))
        } else {
            (constraints, Err(incompatible(operator, left, right)))
        },
        _ => (constraints, Err(incompatible(operator, left, right))),
    }
}

/// A power: of an integer by an integer, or of a field element by an integer. An
/// exponent that is a field element is refused whatever the base is.
pub open spec fn power_applied(constraints: Seq<Constraint>, left: ValueModel, right: ValueModel) -> (
    Seq<Constraint>,
    Result<ValueModel, ErrorModel>,
) {
    match (left, right) {
        (ValueModel::Integer(a), ValueModel::Integer(b)) => integer_outcome(
            integer_enforced(constraints, IntegerOperation::Pow, a, b),
        ),
        (ValueModel::FieldElement(a), ValueModel::Integer(b)) => {
            let outcome = field_power_enforced(constraints, a, b);
            (outcome.0, Ok(ValueModel::FieldElement(outcome.1)))
        },
        (_, ValueModel::FieldElement(exponent)) => (
            constraints,
            Err(ErrorModel::InvalidExponent(exponent.text())),
        ),
        _ => (constraints, Err(incompatible(BinaryOperator::Pow, left, right))),
    }
}

/// A conjunction or a disjunction of two booleans.
pub open spec fn logic_applied(
    operator: BinaryOperator,
    constraints: Seq<Constraint>,
    left: ValueModel,
    right: ValueModel,
) -> (Seq<Constraint>, Result<ValueModel, ErrorModel>) {
    match (left, right) {
        (ValueModel::Boolean(a), ValueModel::Boolean(b)) => {
            let operation = if operator == BinaryOperator::And {
                BooleanOperation::And
            } else {
                BooleanOperation::Or
            };
            let outcome = boolean_enforced(constraints, operation, a, b);
            (outcome.0, Ok(ValueModel::Boolean(outcome.1)))
        },
        _ => (constraints, Err(incompatible(operator, left, right))),
    }
}

/// An equality: of two booleans, of two integers of one width, or of two group
/// elements. It enforces nothing. Field elements are not compared.
pub open spec fn equality_applied(left: ValueModel, right: ValueModel) -> Result<ValueModel, ErrorModel> {
    match (left, right) {
        (ValueModel::Boolean(a), ValueModel::Boolean(b)) => Ok(ValueModel::Boolean(a == b)),
        (ValueModel::Integer(a), ValueModel::Integer(b)) => if a.integer_type == b.integer_type {
            Ok(ValueModel::Boolean(a.value == b.value))
        } else {
            Err(ErrorModel::GadgetError(GadgetError::MismatchedWidths))
        },
        (ValueModel::GroupElement(a), ValueModel::GroupElement(b)) => Ok(
            ValueModel::Boolean(a.same(b)),
        ),
        _ => Err(incompatible(BinaryOperator::Eq, left, right)),
    }
}

/// An operator on two operands that are neither assignable nor without a type.
pub open spec fn dispatched(
    operator: BinaryOperator,
    constraints: Seq<Constraint>,
    left: ValueModel,
    right: ValueModel,
) -> (Seq<Constraint>, Result<ValueModel, ErrorModel>) {
    match operator {
        BinaryOperator::Add | BinaryOperator::Sub | BinaryOperator::Mul | BinaryOperator::Div => arithmetic_applied(
            operator,
            constraints,
            left,
            right,
        ),
        BinaryOperator::Pow => power_applied(constraints, left, right),
        BinaryOperator::Or | BinaryOperator::And => logic_applied(
            operator,
            constraints,
            left,
            right,
        ),
        BinaryOperator::Eq => (constraints, equality_applied(left, right)),
        _ => (constraints, Err(incompatible(operator, left, right))),
    }
}

/// An operator on two values: the constraints afterwards, and the result.
///
/// Wrappers that mark an operand as assignable are taken off first. Then a number
/// without a type takes the type of its peer; if it cannot, the operands are
/// incompatible. Then the operator is looked up for the classes of the two operands.
pub open spec fn applied(
    operator: BinaryOperator,
    constraints: Seq<Constraint>,
    left: ValueModel,
    right: ValueModel,
) -> (Seq<Constraint>, Result<ValueModel, ErrorModel>) {
    let left = left.unwrapped();
    let right = right.unwrapped();
    match coerced_operands(left, right) {
        Some((left, right)) => dispatched(operator, constraints, left, right),
        None => (constraints, Err(incompatible(operator, left, right))),
    }
}

/// The negation of a boolean, assignable or not.
pub open spec fn negated(value: ValueModel) -> Result<ValueModel, ErrorModel> {
    match value.unwrapped() {
        ValueModel::Boolean(boolean) => Ok(ValueModel::Boolean(!boolean)),
        other => Err(ErrorModel::IncompatibleTypes("!"@ + other.text())),
    }
}

/// A number without a written type: read under the expected type if exactly one is
/// expected, and left without a type otherwise.
pub open spec fn number_implicit(expected: Seq<TypeModel>, text: Seq<char>) -> Result<
    ValueModel,
    ErrorModel,
> {
    if expected.len() == 1 {
        match literal_value(text, expected[0]) {
            Some(value) => Ok(value),
            None => Err(ErrorModel::InvalidNumber(text, expected[0].text())),
        }
    } else {
        Ok(ValueModel::Unresolved(text))
    }
}

/// The value of a name: what is bound to it in the function scope, else what is
/// bound to it in the file scope. A number without a type is read as it is found.
pub open spec fn identifier_value(
    store: Map<Seq<char>, ValueModel>,
    scopes: Scopes,
    expected: Seq<TypeModel>,
    name: Seq<char>,
) -> Result<ValueModel, ErrorModel> {
    let variable = scope_path(scopes.function, name);
    let global = scope_path(scopes.file, name);
    if store.contains_key(variable) {
        found_value(expected, store[variable])
    } else if store.contains_key(global) {
        found_value(expected, store[global])
    } else {
        Err(ErrorModel::UndefinedIdentifier(name))
    }
}

/// What a bound value is handed out as.
pub open spec fn found_value(expected: Seq<TypeModel>, value: ValueModel) -> Result<
    ValueModel,
    ErrorModel,
> {
    match value {
        ValueModel::Unresolved(text) => number_implicit(expected, text),
        _ => Ok(value),
    }
}

/// The choice between the values of two branches: two booleans, or two integers of
/// one width.
pub open spec fn selected(constraints: Seq<Constraint>, condition: bool, first: ValueModel, second: ValueModel) -> (
    Seq<Constraint>,
    Result<ValueModel, ErrorModel>,
) {
    match (first, second) {
        (ValueModel::Boolean(a), ValueModel::Boolean(b)) => {
            let outcome = boolean_selected(constraints, condition, a, b);
            (outcome.0, Ok(ValueModel::Boolean(outcome.1)))
        },
        (ValueModel::Integer(a), ValueModel::Integer(b)) => integer_outcome(
            integer_selected(constraints, condition, a, b),
        ),
        _ => (
            constraints,
            Err(
                ErrorModel::IncompatibleTypes(
                    ValueModel::Boolean(condition).text() + " ? "@ + first.text() + " : "@
                        + second.text(),
                ),
            ),
        ),
    }
}

/// The types expected of the elements of an array expression, or the error of an
/// expected type that is no array type.
pub open spec fn element_types(expected: Seq<TypeModel>) -> Result<Seq<TypeModel>, ErrorModel> {
    if expected.len() == 0 {
        Ok(expected)
    } else {
        match expected[0] {
            TypeModel::Array(_, _) => Ok(seq![expected[0].inner_dimension()]),
            other => Err(ErrorModel::IncompatibleTypes(other.text())),
        }
    }
}

/// The array of the given values, held against the innermost dimension of the
/// expected type if it has one.
pub open spec fn array_checked(expected: Seq<TypeModel>, values: Seq<ValueModel>) -> Result<
    ValueModel,
    ErrorModel,
> {
    if expected.len() > 0 && expected[0] is Array && expected[0]->Array_1.len() > 0
        && expected[0]->Array_1.last() != values.len() {
        Err(
            ErrorModel::InvalidLength(
                expected[0]->Array_1.last(),
                values.len() as usize,
            ),
        )
    } else {
        Ok(ValueModel::Array(values))
    }
}

/// The values that a spread of the variable `name` stands for.
pub open spec fn spread_values(store: Map<Seq<char>, ValueModel>, scopes: Scopes, name: Seq<char>) -> Result<
    Seq<ValueModel>,
    ErrorModel,
> {
    let path = scope_path(scopes.function, name);
    if store.contains_key(path) {
        match store[path] {
            ValueModel::Array(values) => Ok(values),
            other => Err(ErrorModel::InvalidSpread(other.text())),
        }
    } else {
        Err(ErrorModel::UndefinedArray(name))
    }
}

/// The elements of an array value, assignable or not.
pub open spec fn array_elements(value: ValueModel) -> Result<Seq<ValueModel>, ErrorModel> {
    match value {
        ValueModel::Array(values) => Ok(values),
        ValueModel::Mutable(inner) => match *inner {
            ValueModel::Array(values) => Ok(values),
            other => Err(ErrorModel::InvalidArrayAccess(other.text())),
        },
        other => Err(ErrorModel::InvalidArrayAccess(other.text())),
    }
}

/// The part of an array between two bounds. A missing lower bound is zero, a missing
/// upper bound is the length.
pub open spec fn sliced(values: Seq<ValueModel>, from: Option<Integer>, to: Option<Integer>) -> Result<
    ValueModel,
    ErrorModel,
> {
    let from: int = match from {
        Some(bound) => bound.value as int,
        None => 0,
    };
    let to: int = match to {
        Some(bound) => bound.value as int,
        None => values.len() as int,
    };
    if from <= to <= values.len() {
        Ok(ValueModel::Array(values.subrange(from, to)))
    } else {
        Err(ErrorModel::GadgetError(GadgetError::OutOfBounds))
    }
}

/// The element of an array at an index.
pub open spec fn indexed(values: Seq<ValueModel>, index: usize) -> Result<ValueModel, ErrorModel> {
    if index < values.len() {
        Ok(values[index as int])
    } else {
        Err(ErrorModel::GadgetError(GadgetError::OutOfBounds))
    }
}

/// The index that a value stands for: an integer, or a number without a type, that
/// the machine can hold as an index.
pub open spec fn index_of(value: ValueModel) -> Result<usize, ErrorModel> {
    match value {
        ValueModel::Integer(integer) => if integer.value <= usize::MAX {
            Ok(integer.value as usize)
        } else {
            Err(ErrorModel::InvalidIndex(value.text()))
        },
        ValueModel::Unresolved(text) => match number_text_value(text, usize::MAX as nat) {
            Some(index) => Ok(index as usize),
            None => Err(ErrorModel::InvalidIndex(value.text())),
        },
        _ => Err(ErrorModel::InvalidIndex(value.text())),
    }
}

/// The path under which a record expression finds its type.
pub open spec fn circuit_path(scopes: Scopes, name: Seq<char>) -> Seq<char> {
    if name == self_name() {
        scopes.file
    } else {
        scope_path(scopes.file, name)
    }
}

/// The position of the first binding of a field, if it is bound.
pub open spec fn first_binding(bindings: Seq<BindingModel>, name: Seq<char>) -> Option<int>
    decreases bindings.len(),
{
    if bindings.len() == 0 {
        None
    } else if bindings[0].name == name {
        Some(0)
    } else {
        match first_binding(bindings.drop_first(), name) {
            Some(index) => Some(index + 1),
            None => None,
        }
    }
}

/// The member that a function of a record type becomes in a record.
pub open spec fn function_member(circuit: Seq<char>, is_static: bool, function: FunctionModel) -> MemberModel {
    let value = ValueModel::Function(Some(circuit), function);
    MemberModel {
        name: function.name,
        value: if is_static {
            ValueModel::Static(Box::new(value))
        } else {
            value
        },
    }
}

/// The position of the first member of a record with the given name.
pub open spec fn first_member(members: Seq<MemberModel>, name: Seq<char>) -> Option<int>
    decreases members.len(),
{
    if members.len() == 0 {
        None
    } else if members[0].name == name {
        Some(0)
    } else {
        match first_member(members.drop_first(), name) {
            Some(index) => Some(index + 1),
            None => None,
        }
    }
}

/// The name and the members of a record value, assignable or not.
pub open spec fn record_parts(value: ValueModel) -> Result<(Seq<char>, Seq<MemberModel>), ErrorModel> {
    match value {
        ValueModel::CircuitExpression(name, members) => Ok((name, members)),
        ValueModel::Mutable(inner) => match *inner {
            ValueModel::CircuitExpression(name, members) => Ok((name, members)),
            other => Err(ErrorModel::InvalidCircuitAccess(other.text())),
        },
        other => Err(ErrorModel::InvalidCircuitAccess(other.text())),
    }
}

/// Whether a member of a record is one of its fields: neither a function nor static.
pub open spec fn is_field(value: ValueModel) -> bool {
    !(value is Function) && !(value is Static)
}

/// The store once the fields among the first `count` members are bound below `scope`.
pub open spec fn fields_bound(
    store: Map<Seq<char>, ValueModel>,
    scope: Seq<char>,
    members: Seq<MemberModel>,
    count: nat,
) -> Map<Seq<char>, ValueModel>
    decreases count,
{
    if count == 0 || count > members.len() {
        store
    } else {
        let before = fields_bound(store, scope, members, (count - 1) as nat);
        let member = members[count - 1];
        if is_field(member.value) {
            before.insert(scope_path(scope, member.name), member.value)
        } else {
            before
        }
    }
}

/// The scope of a method of a record type.
pub open spec fn method_scope(scopes: Scopes, circuit: Seq<char>, method: Seq<char>) -> Seq<char> {
    scope_path(scope_path(scopes.file, circuit), method)
}

/// The access to a member of a record: the store afterwards, and the member's value.
///
/// A field is handed out as it is. A method is handed out once the fields of the
/// record are bound in the method's scope.
pub open spec fn member_accessed(
    store: Map<Seq<char>, ValueModel>,
    scopes: Scopes,
    value: ValueModel,
    member: Seq<char>,
) -> (Map<Seq<char>, ValueModel>, Result<ValueModel, ErrorModel>) {
    match record_parts(value) {
        Err(error) => (store, Err(error)),
        Ok((circuit, members)) => match first_member(members, member) {
            None => (store, Err(ErrorModel::UndefinedCircuitObject(member))),
            Some(index) => {
                let found = members[index];
                if found.value is Function {
                    (
                        fields_bound(
                            store,
                            method_scope(scopes, circuit, found.name),
                            members,
                            members.len(),
                        ),
                        Ok(found.value),
                    )
                } else {
                    (store, Ok(found.value))
                }
            },
        },
    }
}

/// The position of the first function of a record type with the given name.
pub open spec fn first_function(members: Seq<CircuitMemberModel>, name: Seq<char>) -> Option<int>
    decreases members.len(),
{
    if members.len() == 0 {
        None
    } else if members[0] matches CircuitMemberModel::CircuitFunction(_, function) && function.name
        == name {
        Some(0)
    } else {
        match first_function(members.drop_first(), name) {
            Some(index) => Some(index + 1),
            None => None,
        }
    }
}

/// The access to a static function of a record type.
pub open spec fn static_accessed(value: ValueModel, member: Seq<char>) -> Result<ValueModel, ErrorModel> {
    match value {
        ValueModel::CircuitDefinition(circuit) => match first_function(circuit.members, member) {
            Some(index) => match circuit.members[index] {
                CircuitMemberModel::CircuitFunction(is_static, function) => if is_static {
                    Ok(ValueModel::Function(Some(circuit.name), function))
                } else {
                    Err(ErrorModel::InvalidStaticFunction(function.name))
                },
                _ => Err(ErrorModel::UndefinedStaticFunction(circuit.name, member)),
            },
            None => Err(ErrorModel::UndefinedStaticFunction(circuit.name, member)),
        },
        other => Err(ErrorModel::InvalidCircuitAccess(other.text())),
    }
}

/// The function that a call runs and the scope below which it runs: the scope of the
/// record that owns the function, or the file scope.
pub open spec fn callee(scopes: Scopes, value: ValueModel) -> Result<(Seq<char>, FunctionModel), ErrorModel> {
    match value {
        ValueModel::Function(owner, function) => match owner {
            Some(circuit) => Ok((scope_path(scopes.file, circuit), function)),
            None => Ok((scopes.file, function)),
        },
        other => Err(ErrorModel::UndefinedFunction(other.text())),
    }
}

/// The value of a call, from what the function's body handed back: a single return
/// value alone, several as they are; anything but a return value is an error that
/// names the callee as it is written.
pub open spec fn call_result(callee: ExpressionModel, returned: Result<ValueModel, Seq<char>>) -> Result<
    ValueModel,
    ErrorModel,
> {
    match returned {
        Ok(ValueModel::Return(values)) => if values.len() == 1 {
            Ok(values[0])
        } else {
            Ok(ValueModel::Return(values))
        },
        Ok(_) => Err(ErrorModel::FunctionDidNotReturn(callee.text())),
        Err(message) => Err(ErrorModel::FunctionError(message)),
    }
}

/// Whether `call` is the call of `function` on `arguments` that is made in `state`.
pub open spec fn is_call_of(
    call: Invocation,
    state: State,
    scopes: Scopes,
    outer_scope: Seq<char>,
    function: FunctionModel,
    arguments: Seq<ExpressionModel>,
) -> bool {
    &&& call.before == state
    &&& call.outer_scope == outer_scope
    &&& call.function_scope == scopes.function
    &&& call.function == function
    &&& call.arguments == arguments
}

/// What a call evaluates to once its callee is evaluated: the next of the given
/// calls must be the call of the callee on the arguments, and the call is worth what
/// its body handed back.
pub open spec fn invoked(
    state: State,
    scopes: Scopes,
    function: ExpressionModel,
    value: ValueModel,
    arguments: Seq<ExpressionModel>,
    calls: Seq<Invocation>,
) -> Evaluation<ValueModel> {
    match callee(scopes, value) {
        Err(error) => Evaluation::Finished(state, Err(error), calls),
        Ok((outer_scope, found)) => if calls.len() > 0 && is_call_of(
            calls[0],
            state,
            scopes,
            outer_scope,
            found,
            arguments,
        ) {
            Evaluation::Finished(
                calls[0].after,
                call_result(function, calls[0].returned),
                calls.drop_first(),
            )
        } else {
            Evaluation::Mismatch
        },
    }
}

/// What an expression evaluates to in a state, given the calls that it makes.
///
/// Subexpressions are evaluated from left to right, each in the state that the one
/// before it left, and the first error ends the evaluation. A call of a function
/// takes the next of the given calls.
pub open spec fn evaluate(
    state: State,
    scopes: Scopes,
    expected: Seq<TypeModel>,
    expression: ExpressionModel,
    calls: Seq<Invocation>,
) -> Evaluation<ValueModel>
    decreases expression, 0nat, 0nat,
{
    match expression {
        ExpressionModel::Identifier(name) => Evaluation::Finished(
            state,
            identifier_value(state.store, scopes, expected, name),
            calls,
        ),
        ExpressionModel::Integer(integer) => Evaluation::Finished(
            state,
            Ok(ValueModel::Integer(integer)),
            calls,
        ),
        ExpressionModel::FieldElement(element) => Evaluation::Finished(
            state,
            Ok(ValueModel::FieldElement(element)),
            calls,
        ),
        ExpressionModel::GroupElement(element) => Evaluation::Finished(
            state,
            Ok(ValueModel::GroupElement(element)),
            calls,
        ),
        ExpressionModel::Boolean(boolean) => Evaluation::Finished(
            state,
            Ok(ValueModel::Boolean(boolean)),
            calls,
        ),
        ExpressionModel::Implicit(text) => Evaluation::Finished(
            state,
            number_implicit(expected, text),
            calls,
        ),
        ExpressionModel::Binary(operator, left, right) => match evaluate(
            state,
            scopes,
            expected,
            *left,
            calls,
        ) {
            Evaluation::Finished(state, Ok(left), calls) => match evaluate(
                state,
                scopes,
                expected,
                *right,
                calls,
            ) {
                Evaluation::Finished(state, Ok(right), calls) => {
                    let outcome = applied(operator, state.constraints, left, right);
                    Evaluation::Finished(
                        State { store: state.store, constraints: outcome.0 },
                        outcome.1,
                        calls,
                    )
                },
                other => other,
            },
            other => other,
        },
        ExpressionModel::Not(inner) => match evaluate(state, scopes, expected, *inner, calls) {
            Evaluation::Finished(state, Ok(value), calls) => Evaluation::Finished(
                state,
                negated(value),
                calls,
            ),
            other => other,
        },
        ExpressionModel::IfElse(first, second, third) => match evaluate(
            state,
            scopes,
            seq![TypeModel::Boolean],
            *first,
            calls,
        ) {
            Evaluation::Finished(state, Ok(ValueModel::Boolean(condition)), calls) => match evaluate(
                state,
                scopes,
                expected,
                *second,
                calls,
            ) {
                Evaluation::Finished(state, Ok(second), calls) => match evaluate(
                    state,
                    scopes,
                    expected,
                    *third,
                    calls,
                ) {
                    Evaluation::Finished(state, Ok(third), calls) => {
                        let outcome = selected(state.constraints, condition, second, third);
                        Evaluation::Finished(
                            State { store: state.store, constraints: outcome.0 },
                            outcome.1,
                            calls,
                        )
                    },
                    other => other,
                },
                other => other,
            },
            Evaluation::Finished(state, Ok(other), calls) => Evaluation::Finished(
                state,
                Err(ErrorModel::IfElseConditional(other.text())),
                calls,
            ),
            other => other,
        },
        ExpressionModel::Array(elements) => match element_types(expected) {
            Err(error) => Evaluation::Finished(state, Err(error), calls),
            Ok(inner) => match elements_evaluated(
                state,
                scopes,
                inner,
                elements,
                elements.len(),
                calls,
            ) {
                Evaluation::Finished(state, Ok(values), calls) => Evaluation::Finished(
                    state,
                    array_checked(expected, values),
                    calls,
                ),
                Evaluation::Finished(state, Err(error), calls) => Evaluation::Finished(
                    state,
                    Err(error),
                    calls,
                ),
                Evaluation::Mismatch => Evaluation::Mismatch,
            },
        },
        ExpressionModel::ArrayAccess(array, index) => match evaluate(
            state,
            scopes,
            expected,
            *array,
            calls,
        ) {
            Evaluation::Finished(state, Ok(value), calls) => match array_elements(value) {
                Err(error) => Evaluation::Finished(state, Err(error), calls),
                Ok(values) => match *index {
                    IndexModel::Range(from, to) => Evaluation::Finished(
                        state,
                        sliced(values, from, to),
                        calls,
                    ),
                    IndexModel::Expression(expression) => match index_evaluated(
                        state,
                        scopes,
                        Seq::empty(),
                        expression,
                        calls,
                    ) {
                        Evaluation::Finished(state, Ok(index), calls) => Evaluation::Finished(
                            state,
                            indexed(values, index),
                            calls,
                        ),
                        Evaluation::Finished(state, Err(error), calls) => Evaluation::Finished(
                            state,
                            Err(error),
                            calls,
                        ),
                        Evaluation::Mismatch => Evaluation::Mismatch,
                    },
                },
            },
            other => other,
        },
        ExpressionModel::Circuit(name, bindings) => {
            let path = circuit_path(scopes, name);
            if state.store.contains_key(path) && state.store[path] is CircuitDefinition {
                let circuit = state.store[path]->CircuitDefinition_0;
                match members_evaluated(
                    state,
                    scopes,
                    circuit,
                    bindings,
                    circuit.members.len(),
                    calls,
                ) {
                    Evaluation::Finished(state, Ok(members), calls) => Evaluation::Finished(
                        state,
                        Ok(ValueModel::CircuitExpression(circuit.name, members)),
                        calls,
                    ),
                    Evaluation::Finished(state, Err(error), calls) => Evaluation::Finished(
                        state,
                        Err(error),
                        calls,
                    ),
                    Evaluation::Mismatch => Evaluation::Mismatch,
                }
            } else {
                Evaluation::Finished(state, Err(ErrorModel::UndefinedCircuit(name)), calls)
            }
        },
        ExpressionModel::CircuitMemberAccess(circuit, member) => match evaluate(
            state,
            scopes,
            expected,
            *circuit,
            calls,
        ) {
            Evaluation::Finished(state, Ok(value), calls) => {
                let outcome = member_accessed(state.store, scopes, value, member);
                Evaluation::Finished(
                    State { store: outcome.0, constraints: state.constraints },
                    outcome.1,
                    calls,
                )
            },
            other => other,
        },
        ExpressionModel::CircuitStaticFunctionAccess(circuit, member) => match evaluate(
            state,
            scopes,
            expected,
            *circuit,
            calls,
        ) {
            Evaluation::Finished(state, Ok(value), calls) => Evaluation::Finished(
                state,
                static_accessed(value, member),
                calls,
            ),
            other => other,
        },
        ExpressionModel::FunctionCall(function, arguments) => match evaluate(
            state,
            scopes,
            expected,
            *function,
            calls,
        ) {
            Evaluation::Finished(state, Ok(value), calls) => invoked(
                state,
                scopes,
                *function,
                value,
                arguments,
                calls,
            ),
            other => other,
        },
    }
}

/// What an index expression evaluates to.
pub open spec fn index_evaluated(
    state: State,
    scopes: Scopes,
    expected: Seq<TypeModel>,
    expression: ExpressionModel,
    calls: Seq<Invocation>,
) -> Evaluation<usize>
    decreases expression, 1nat, 0nat,
{
    match evaluate(state, scopes, expected, expression, calls) {
        Evaluation::Finished(state, Ok(value), calls) => Evaluation::Finished(
            state,
            index_of(value),
            calls,
        ),
        Evaluation::Finished(state, Err(error), calls) => Evaluation::Finished(
            state,
            Err(error),
            calls,
        ),
        Evaluation::Mismatch => Evaluation::Mismatch,
    }
}

/// What the first `count` elements of an array expression evaluate to: the values
/// in the order of the elements, those of a spread in their own order.
pub open spec fn elements_evaluated(
    state: State,
    scopes: Scopes,
    expected: Seq<TypeModel>,
    elements: Seq<ElementModel>,
    count: nat,
    calls: Seq<Invocation>,
) -> Evaluation<Seq<ValueModel>>
    decreases elements, 0nat, count,
{
    if count == 0 || count > elements.len() {
        Evaluation::Finished(state, Ok(Seq::empty()), calls)
    } else {
        match elements_evaluated(state, scopes, expected, elements, (count - 1) as nat, calls) {
            Evaluation::Finished(state, Ok(values), calls) => match elements[count - 1] {
                ElementModel::Spread(name) => match spread_values(state.store, scopes, name) {
                    Ok(spread) => Evaluation::Finished(state, Ok(values + spread), calls),
                    Err(error) => Evaluation::Finished(state, Err(error), calls),
                },
                ElementModel::Expression(expression) => match evaluate(
                    state,
                    scopes,
                    expected,
                    expression,
                    calls,
                ) {
                    Evaluation::Finished(state, Ok(value), calls) => Evaluation::Finished(
                        state,
                        Ok(values.push(value)),
                        calls,
                    ),
                    Evaluation::Finished(state, Err(error), calls) => Evaluation::Finished(
                        state,
                        Err(error),
                        calls,
                    ),
                    Evaluation::Mismatch => Evaluation::Mismatch,
                },
            },
            other => other,
        }
    }
}

/// What the first `count` members of a record type become in a record. A field takes
/// the value of the expression first bound to its name, read under the field's type;
/// the members come in the order of their declaration.
pub open spec fn members_evaluated(
    state: State,
    scopes: Scopes,
    circuit: CircuitModel,
    bindings: Seq<BindingModel>,
    count: nat,
    calls: Seq<Invocation>,
) -> Evaluation<Seq<MemberModel>>
    decreases bindings, 0nat, count,
{
    if count == 0 || count > circuit.members.len() {
        Evaluation::Finished(state, Ok(Seq::empty()), calls)
    } else {
        match members_evaluated(state, scopes, circuit, bindings, (count - 1) as nat, calls) {
            Evaluation::Finished(state, Ok(members), calls) => match circuit.members[count - 1] {
                CircuitMemberModel::CircuitField(name, declared) => match first_binding(
                    bindings,
                    name,
                ) {
                    Some(index) => if 0 <= index < bindings.len() {
                        match evaluate(
                            state,
                            scopes,
                            seq![declared],
                            bindings[index].expression,
                            calls,
                        ) {
                            Evaluation::Finished(state, Ok(value), calls) => Evaluation::Finished(
                                state,
                                Ok(members.push(MemberModel { name, value })),
                                calls,
                            ),
                            Evaluation::Finished(state, Err(error), calls) => Evaluation::Finished(
                                state,
                                Err(error),
                                calls,
                            ),
                            Evaluation::Mismatch => Evaluation::Mismatch,
                        }
                    } else {
                        Evaluation::Finished(
                            state,
                            Err(ErrorModel::ExpectedCircuitValue(name)),
                            calls,
                        )
                    },
                    None => Evaluation::Finished(
                        state,
                        Err(ErrorModel::ExpectedCircuitValue(name)),
                        calls,
                    ),
                },
                CircuitMemberModel::CircuitFunction(is_static, function) => Evaluation::Finished(
                    state,
                    Ok(members.push(function_member(circuit.name, is_static, function))),
                    calls,
                ),
            },
            other => other,
        }
    }
}

/// Once the evaluation of the elements has failed, it stays so.
pub proof fn lemma_elements_stopped(
    state: State,
    scopes: Scopes,
    expected: Seq<TypeModel>,
    elements: Seq<ElementModel>,
    reached: nat,
    count: nat,
    calls: Seq<Invocation>,
)
    requires
        reached <= count <= elements.len(),
        !(elements_evaluated(state, scopes, expected, elements, reached, calls) matches Evaluation::Finished(
            _,
            Ok(_),
            _,
        )),
    ensures
        elements_evaluated(state, scopes, expected, elements, count, calls) == elements_evaluated(
            state,
            scopes,
            expected,
            elements,
            reached,
            calls,
        ),
    decreases count - reached,
{
    if reached < count {
        lemma_elements_stopped(state, scopes, expected, elements, reached, (count - 1) as nat, calls);
    }
}

/// Once the evaluation of the members has failed, it stays so.
pub proof fn lemma_members_stopped(
    state: State,
    scopes: Scopes,
    circuit: CircuitModel,
    bindings: Seq<BindingModel>,
    reached: nat,
    count: nat,
    calls: Seq<Invocation>,
)
    requires
        reached <= count <= circuit.members.len(),
        !(members_evaluated(state, scopes, circuit, bindings, reached, calls) matches Evaluation::Finished(
            _,
            Ok(_),
            _,
        )),
    ensures
        members_evaluated(state, scopes, circuit, bindings, count, calls) == members_evaluated(
            state,
            scopes,
            circuit,
            bindings,
            reached,
            calls,
        ),
    decreases count - reached,
{
    if reached < count {
        lemma_members_stopped(state, scopes, circuit, bindings, reached, (count - 1) as nat, calls);
    }
}

/// An evaluation leaves the calls that it does not make: with more calls at the end
/// of the given ones it ends as before and leaves those as well.
pub proof fn lemma_more_calls(
    state: State,
    scopes: Scopes,
    expected: Seq<TypeModel>,
    expression: ExpressionModel,
    calls: Seq<Invocation>,
    more: Seq<Invocation>,
)
    ensures
        evaluate(state, scopes, expected, expression, calls) matches Evaluation::Finished(
            after,
            result,
            rest,
        ) ==> evaluate(state, scopes, expected, expression, calls + more) == Evaluation::Finished(
            after,
            result,
            rest + more,
        ),
    decreases expression, 0nat, 0nat,
{
    match expression {
        ExpressionModel::Binary(_, left, right) => {
            lemma_more_calls(state, scopes, expected, *left, calls, more);
            if let Evaluation::Finished(after_left, Ok(_), rest) = evaluate(
                state,
                scopes,
                expected,
                *left,
                calls,
            ) {
                lemma_more_calls(after_left, scopes, expected, *right, rest, more);
            }
        },
        ExpressionModel::Not(inner) => {
            lemma_more_calls(state, scopes, expected, *inner, calls, more);
        },
        ExpressionModel::IfElse(first, second, third) => {
            lemma_more_calls(state, scopes, seq![TypeModel::Boolean], *first, calls, more);
            if let Evaluation::Finished(after_first, Ok(ValueModel::Boolean(_)), rest) = evaluate(
                state,
                scopes,
                seq![TypeModel::Boolean],
                *first,
                calls,
            ) {
                lemma_more_calls(after_first, scopes, expected, *second, rest, more);
                if let Evaluation::Finished(after_second, Ok(_), rest) = evaluate(
                    after_first,
                    scopes,
                    expected,
                    *second,
                    rest,
                ) {
                    lemma_more_calls(after_second, scopes, expected, *third, rest, more);
                }
            }
        },
        ExpressionModel::Array(elements) => {
            if let Ok(inner) = element_types(expected) {
                lemma_more_calls_of_elements(
                    state,
                    scopes,
                    inner,
                    elements,
                    elements.len(),
                    calls,
                    more,
                );
            }
        },
        ExpressionModel::ArrayAccess(array, index) => {
            lemma_more_calls(state, scopes, expected, *array, calls, more);
            if let Evaluation::Finished(after_array, Ok(_), rest) = evaluate(
                state,
                scopes,
                expected,
                *array,
                calls,
            ) {
                if let IndexModel::Expression(index_expression) = *index {
                    lemma_more_calls(
                        after_array,
                        scopes,
                        Seq::empty(),
                        index_expression,
                        rest,
                        more,
                    );
                    assert(index_evaluated(after_array, scopes, Seq::empty(), index_expression, rest)
                        matches Evaluation::Finished(after, result, left) ==> index_evaluated(
                        after_array,
                        scopes,
                        Seq::empty(),
                        index_expression,
                        rest + more,
                    ) == Evaluation::Finished(after, result, left + more));
                }
            }
        },
        ExpressionModel::Circuit(name, bindings) => {
            let path = circuit_path(scopes, name);
            if state.store.contains_key(path) && state.store[path] is CircuitDefinition {
                let circuit = state.store[path]->CircuitDefinition_0;
                lemma_more_calls_of_members(
                    state,
                    scopes,
                    circuit,
                    bindings,
                    circuit.members.len(),
                    calls,
                    more,
                );
            }
        },
        ExpressionModel::CircuitMemberAccess(circuit, _) => {
            lemma_more_calls(state, scopes, expected, *circuit, calls, more);
        },
        ExpressionModel::CircuitStaticFunctionAccess(circuit, _) => {
            lemma_more_calls(state, scopes, expected, *circuit, calls, more);
        },
        ExpressionModel::FunctionCall(function, arguments) => {
            lemma_more_calls(state, scopes, expected, *function, calls, more);
            if let Evaluation::Finished(after_callee, Ok(value), rest) = evaluate(
                state,
                scopes,
                expected,
                *function,
                calls,
            ) {
                if rest.len() > 0 {
                    assert((rest + more)[0] == rest[0]);
                    assert((rest + more).drop_first() =~= rest.drop_first() + more);
                }
            }
        },
        _ => {},
    }
}

/// The same for the elements of an array expression.
pub proof fn lemma_more_calls_of_elements(
    state: State,
    scopes: Scopes,
    expected: Seq<TypeModel>,
    elements: Seq<ElementModel>,
    count: nat,
    calls: Seq<Invocation>,
    more: Seq<Invocation>,
)
    ensures
        elements_evaluated(state, scopes, expected, elements, count, calls) matches Evaluation::Finished(
            after,
            result,
            rest,
        ) ==> elements_evaluated(state, scopes, expected, elements, count, calls + more)
            == Evaluation::Finished(after, result, rest + more),
    decreases elements, 0nat, count,
{
    if !(count == 0 || count > elements.len()) {
        lemma_more_calls_of_elements(
            state,
            scopes,
            expected,
            elements,
            (count - 1) as nat,
            calls,
            more,
        );
        if let Evaluation::Finished(before, Ok(_), rest) = elements_evaluated(
            state,
            scopes,
            expected,
            elements,
            (count - 1) as nat,
            calls,
        ) {
            if let ElementModel::Expression(expression) = elements[count - 1] {
                lemma_more_calls(before, scopes, expected, expression, rest, more);
            }
        }
    }
}

/// The same for the members of a record expression.
pub proof fn lemma_more_calls_of_members(
    state: State,
    scopes: Scopes,
    circuit: CircuitModel,
    bindings: Seq<BindingModel>,
    count: nat,
    calls: Seq<Invocation>,
    more: Seq<Invocation>,
)
    ensures
        members_evaluated(state, scopes, circuit, bindings, count, calls) matches Evaluation::Finished(
            after,
            result,
            rest,
        ) ==> members_evaluated(state, scopes, circuit, bindings, count, calls + more)
            == Evaluation::Finished(after, result, rest + more),
    decreases bindings, 0nat, count,
{
    if !(count == 0 || count > circuit.members.len()) {
        lemma_more_calls_of_members(
            state,
            scopes,
            circuit,
            bindings,
            (count - 1) as nat,
            calls,
            more,
        );
        if let Evaluation::Finished(before, Ok(_), rest) = members_evaluated(
            state,
            scopes,
            circuit,
            bindings,
            (count - 1) as nat,
            calls,
        ) {
            if let CircuitMemberModel::CircuitField(name, declared) = circuit.members[count - 1] {
                if let Some(index) = first_binding(bindings, name) {
                    if 0 <= index < bindings.len() {
                        lemma_more_calls(
                            before,
                            scopes,
                            seq![declared],
                            bindings[index].expression,
                            rest,
                            more,
                        );
                    }
                }
            }
        }
    }
}

/// Calls that were added in two steps were added in one: the added calls are those
/// of the first step followed by those of the second.
pub proof fn lemma_calls_in_two_steps(
    first: Seq<Invocation>,
    second: Seq<Invocation>,
    third: Seq<Invocation>,
)
    requires
        calls_grown(first, second),
        calls_grown(second, third),
    ensures
        calls_grown(first, third),
        calls_since(first, third) == calls_since(first, second) + calls_since(second, third),
{
    assert(third.take(first.len() as int) =~= third.take(second.len() as int).take(
        first.len() as int,
    ));
    assert(calls_since(first, third) =~= calls_since(first, second) + calls_since(second, third))
        by {
        assert forall|i: int| 0 <= i < second.len() - first.len() implies calls_since(
            first,
            third,
        )[i] == calls_since(first, second)[i] by {
            assert(third.take(second.len() as int)[first.len() + i] == second[first.len() + i]);
        }
    }
}

/// Two operands evaluated one after the other.
pub open spec fn operands_evaluated(
    state: State,
    scopes: Scopes,
    expected: Seq<TypeModel>,
    left: ExpressionModel,
    right: ExpressionModel,
    calls: Seq<Invocation>,
) -> Evaluation<(ValueModel, ValueModel)> {
    match evaluate(state, scopes, expected, left, calls) {
        Evaluation::Finished(state, Ok(left), calls) => match evaluate(
            state,
            scopes,
            expected,
            right,
            calls,
        ) {
            Evaluation::Finished(state, Ok(right), calls) => Evaluation::Finished(
                state,
                Ok((left, right)),
                calls,
            ),
            Evaluation::Finished(state, Err(error), calls) => Evaluation::Finished(
                state,
                Err(error),
                calls,
            ),
            Evaluation::Mismatch => Evaluation::Mismatch,
        },
        Evaluation::Finished(state, Err(error), calls) => Evaluation::Finished(
            state,
            Err(error),
            calls,
        ),
        Evaluation::Mismatch => Evaluation::Mismatch,
    }
}

} // verus!
