//! Laws of the evaluation, proved of the meaning that the evaluator is held to.
use vstd::prelude::*;
use crate::ast::BinaryOperator;
use crate::ast::BindingModel;
use crate::ast::ElementModel;
use crate::ast::ExpressionModel;
use crate::ast::IndexModel;
use crate::constraint_system::Constraint;
use crate::constraint_system::extends;
use crate::errors::ErrorModel;
use crate::field::FieldElement;
use crate::field::FieldOperation;
use crate::field::field_result;
use crate::integer::Integer;
use crate::integer::IntegerOperation;
use crate::integer::integer_result;
use crate::semantics::Evaluation;
use crate::semantics::Scopes;
use crate::semantics::State;
use crate::semantics::applied;
use crate::semantics::array_checked;
use crate::semantics::element_types;
use crate::semantics::elements_evaluated;
use crate::semantics::evaluate;
use crate::semantics::Invocation;
use crate::semantics::evaluation_ends;
use crate::semantics::first_binding;
use crate::semantics::index_evaluated;
use crate::semantics::invoked;
use crate::semantics::members_evaluated;
use crate::semantics::negated;
use crate::semantics::selected;
use crate::text::scope_path;
use crate::types::CircuitMemberModel;
use crate::types::CircuitModel;
use crate::types::TypeModel;
use crate::value::ValueModel;
use crate::value::literal_beside;
use crate::value::literal_value;

verus! {

/// An evaluation is determined by what it starts from and by the calls that it
/// makes: two outcomes that the evaluator may hand back for one expression, in one
/// state and with the same calls, are the same store, the same constraints, as many
/// of them, and the same result.
pub proof fn lemma_evaluation_is_determined<T>(
    evaluation: Evaluation<T>,
    first_store: Map<Seq<char>, ValueModel>,
    first_constraints: Seq<Constraint>,
    first_result: Result<T, ErrorModel>,
    second_store: Map<Seq<char>, ValueModel>,
    second_constraints: Seq<Constraint>,
    second_result: Result<T, ErrorModel>,
)
    requires
        evaluation_ends(evaluation, first_store, first_constraints, first_result),
        evaluation_ends(evaluation, second_store, second_constraints, second_result),
    ensures
        first_store == second_store,
        first_constraints == second_constraints,
        first_constraints.len() == second_constraints.len(),
        first_result == second_result,
{
}

/// The wrapper that marks a value as assignable changes nothing for an operator,
/// on whichever side the value stands.
pub proof fn lemma_mutable_is_transparent(
    operator: BinaryOperator,
    constraints: Seq<Constraint>,
    value: ValueModel,
    peer: ValueModel,
)
    ensures
        applied(operator, constraints, ValueModel::Mutable(Box::new(value)), peer) == applied(
            operator,
            constraints,
            value,
            peer,
        ),
        applied(operator, constraints, peer, ValueModel::Mutable(Box::new(value))) == applied(
            operator,
            constraints,
            peer,
            value,
        ),
        negated(ValueModel::Mutable(Box::new(value))) == negated(value),
{
}

/// A number that reads under a type reads as a value of one of the primitive classes.
proof fn lemma_literal_is_primitive(text: Seq<char>, expected: TypeModel)
    ensures
        literal_value(text, expected) matches Some(value) ==> value.primitive_type() is Some,
    decreases expected,
{
    match expected {
        TypeModel::Array(element, _) => {
            lemma_literal_is_primitive(text, *element);
        },
        _ => {},
    }
}

/// A number without a type beside a peer of a primitive class is the number read
/// under the peer's type, on whichever side it stands, wherever it reads under
/// that type.
pub proof fn lemma_unresolved_takes_the_type_of_its_peer(
    operator: BinaryOperator,
    constraints: Seq<Constraint>,
    number: Seq<char>,
    peer: ValueModel,
)
    requires
        peer.primitive_type() is Some,
        literal_beside(number, peer) is Some,
    ensures
        applied(operator, constraints, ValueModel::Unresolved(number), peer) == applied(
            operator,
            constraints,
            literal_beside(number, peer)->0,
            peer,
        ),
        applied(operator, constraints, peer, ValueModel::Unresolved(number)) == applied(
            operator,
            constraints,
            peer,
            literal_beside(number, peer)->0,
        ),
{
    lemma_literal_is_primitive(number, peer.primitive_type()->0);
}

/// A spread keeps the order: the array of a spread of `values` and of one more
/// expression is `values` followed by the value of that expression.
pub proof fn lemma_spread_preserves_order(
    state: State,
    scopes: Scopes,
    expected: Seq<TypeModel>,
    name: Seq<char>,
    values: Seq<ValueModel>,
    last: ExpressionModel,
    calls: Seq<Invocation>,
)
    requires
        state.store.contains_key(scope_path(scopes.function, name)),
        state.store[scope_path(scopes.function, name)] == ValueModel::Array(values),
        element_types(expected) is Ok,
        evaluate(state, scopes, element_types(expected)->Ok_0, last, calls) matches Evaluation::Finished(
            _,
            Ok(_),
            _,
        ),
    ensures
        ({
            let array = ExpressionModel::Array(
                seq![ElementModel::Spread(name), ElementModel::Expression(last)],
            );
            let after = evaluate(state, scopes, element_types(expected)->Ok_0, last, calls);
            evaluate(state, scopes, expected, array, calls) == Evaluation::Finished(
                after->Finished_0,
                array_checked(expected, values.push(after->Finished_1->Ok_0)),
                after->Finished_2,
            )
        }),
{
    let elements = seq![ElementModel::Spread(name), ElementModel::Expression(last)];
    let inner = element_types(expected)->Ok_0;
    let after = evaluate(state, scopes, inner, last, calls);
    assert(elements[0] == ElementModel::Spread(name));
    assert(elements[1] == ElementModel::Expression(last));
    assert(elements_evaluated(state, scopes, inner, elements, 0, calls) == Evaluation::Finished(
        state,
        Ok(Seq::<ValueModel>::empty()),
        calls,
    ));
    assert(Seq::<ValueModel>::empty() + values =~= values);
    assert(elements_evaluated(state, scopes, inner, elements, 1, calls) == Evaluation::Finished(
        state,
        Ok(values),
        calls,
    ));
    assert(elements_evaluated(state, scopes, inner, elements, 2, calls) == Evaluation::Finished(
        after->Finished_0,
        Ok(values.push(after->Finished_1->Ok_0)),
        after->Finished_2,
    ));
}

/// The slice of an array over its full range is the array.
pub proof fn lemma_full_slice_is_the_array(
    state: State,
    scopes: Scopes,
    expected: Seq<TypeModel>,
    array: ExpressionModel,
    from: Option<Integer>,
    to: Option<Integer>,
    calls: Seq<Invocation>,
)
    requires
        evaluate(state, scopes, expected, array, calls) matches Evaluation::Finished(
            _,
            Ok(ValueModel::Array(values)),
            _,
        ) && (from matches Some(bound) ==> bound.value == 0) && (to matches Some(bound)
            ==> bound.value == values.len()),
    ensures
        evaluate(
            state,
            scopes,
            expected,
            ExpressionModel::ArrayAccess(Box::new(array), Box::new(IndexModel::Range(from, to))),
            calls,
        ) == evaluate(state, scopes, expected, array, calls),
{
    let values = evaluate(state, scopes, expected, array, calls)->Finished_1->Ok_0->Array_0;
    assert(values.subrange(0, values.len() as int) =~= values);
}

/// Whether no two bindings have one name.
pub open spec fn distinct_names(bindings: Seq<BindingModel>) -> bool {
    forall|i: int, j: int|
        0 <= i < j < bindings.len() ==> (#[trigger] bindings[i]).name != (#[trigger] bindings[j]).name
}

/// The expression bound to a field, if one is.
pub open spec fn bound_expression(bindings: Seq<BindingModel>, name: Seq<char>) -> Option<
    ExpressionModel,
> {
    match first_binding(bindings, name) {
        Some(index) => if 0 <= index < bindings.len() {
            Some(bindings[index].expression)
        } else {
            None
        },
        None => None,
    }
}

/// The first binding of a name is a binding of that name, and no earlier one is.
proof fn lemma_first_binding_is_first(bindings: Seq<BindingModel>, name: Seq<char>)
    ensures
        match first_binding(bindings, name) {
            Some(index) => 0 <= index < bindings.len() && bindings[index].name == name && forall|
                j: int,
            |
                0 <= j < index ==> (#[trigger] bindings[j]).name != name,
            None => forall|j: int| 0 <= j < bindings.len() ==> (#[trigger] bindings[j]).name != name,
        },
    decreases bindings.len(),
{
    if bindings.len() > 0 && bindings[0].name != name {
        let rest = bindings.drop_first();
        lemma_first_binding_is_first(rest, name);
        match first_binding(rest, name) {
            Some(index) => {
                assert(rest[index] == bindings[index + 1]);
                assert forall|j: int| 0 <= j < index + 1 implies (#[trigger] bindings[j]).name
                    != name by {
                    if j > 0 {
                        assert(rest[j - 1] == bindings[j]);
                    }
                }
            },
            None => {
                assert forall|j: int| 0 <= j < bindings.len() implies (#[trigger] bindings[j]).name
                    != name by {
                    if j > 0 {
                        assert(rest[j - 1] == bindings[j]);
                    }
                }
            },
        }
    }
}

/// In a reordering of bindings with distinct names, the names are distinct too.
proof fn lemma_reordering_keeps_names_distinct(
    bindings: Seq<BindingModel>,
    reordered: Seq<BindingModel>,
)
    requires
        distinct_names(bindings),
        bindings.to_multiset() == reordered.to_multiset(),
    ensures
        distinct_names(reordered),
{
    broadcast use vstd::multiset::group_multiset_axioms;

    bindings.to_multiset_ensures();
    reordered.to_multiset_ensures();
    assert forall|i: int, j: int| 0 <= i < j < reordered.len() implies (#[trigger] reordered[i]).name
        != (#[trigger] reordered[j]).name by {
        if reordered[i].name == reordered[j].name {
            let first = reordered[i];
            let second = reordered[j];
            assert(reordered.contains(first));
            assert(reordered.contains(second));
            assert(reordered.to_multiset().count(first) > 0);
            assert(reordered.to_multiset().count(second) > 0);
            assert(bindings.to_multiset().count(first) > 0);
            assert(bindings.to_multiset().count(second) > 0);
            assert(bindings.contains(first));
            assert(bindings.contains(second));
            let k = choose|k: int| 0 <= k < bindings.len() && bindings[k] == first;
            let l = choose|l: int| 0 <= l < bindings.len() && bindings[l] == second;
            assert(k == l);
            assert(first == second);
            let without = reordered.remove(i);
            reordered.remove_ensures(i);
            assert(without[j - 1] == second);
            assert(without.contains(first));
            without.to_multiset_ensures();
            assert(without.to_multiset().count(first) > 0);
            assert(without.to_multiset() == reordered.to_multiset().remove(reordered[i]));
            assert(reordered.to_multiset().count(first) >= 2);
            let rest = bindings.remove(k);
            bindings.remove_ensures(k);
            rest.to_multiset_ensures();
            if rest.contains(first) {
                let m = choose|m: int| 0 <= m < rest.len() && rest[m] == first;
                if m < k {
                    assert(rest[m] == bindings[m]);
                } else {
                    assert(rest[m] == bindings[m + 1]);
                }
                assert(false);
            }
            assert(rest.to_multiset().count(first) == 0);
            assert(rest.to_multiset() == bindings.to_multiset().remove(bindings[k]));
            assert(bindings.to_multiset().count(first) == 1);
            assert(false);
        }
    }
}

/// A field is bound to the same expression in a reordering of bindings with distinct names.
proof fn lemma_reordering_keeps_bindings(
    bindings: Seq<BindingModel>,
    reordered: Seq<BindingModel>,
    name: Seq<char>,
)
    requires
        distinct_names(bindings),
        bindings.to_multiset() == reordered.to_multiset(),
    ensures
        bound_expression(bindings, name) == bound_expression(reordered, name),
{
    lemma_reordering_keeps_names_distinct(bindings, reordered);
    lemma_first_binding_is_first(bindings, name);
    lemma_first_binding_is_first(reordered, name);
    bindings.to_multiset_ensures();
    reordered.to_multiset_ensures();
    match first_binding(bindings, name) {
        Some(index) => {
            let binding = bindings[index];
            assert(bindings.contains(binding));
            assert(bindings.to_multiset().count(binding) > 0);
            assert(reordered.to_multiset().count(binding) > 0);
            assert(reordered.contains(binding));
            let k = choose|k: int| 0 <= k < reordered.len() && reordered[k] == binding;
            match first_binding(reordered, name) {
                Some(other) => {
                    assert(other == k) by {
                        if other < k {
                            assert(reordered[other].name != reordered[k].name);
                        } else if k < other {
                            assert(reordered[k].name != reordered[other].name);
                        }
                    }
                },
                None => {
                    assert(reordered[k].name != name);
                },
            }
        },
        None => {
            match first_binding(reordered, name) {
                Some(other) => {
                    let binding = reordered[other];
                    assert(reordered.contains(binding));
                    assert(reordered.to_multiset().count(binding) > 0);
                    assert(bindings.to_multiset().count(binding) > 0);
                    assert(bindings.contains(binding));
                    let k = choose|k: int| 0 <= k < bindings.len() && bindings[k] == binding;
                    assert(bindings[k].name != name);
                },
                None => {},
            }
        },
    }
}

/// The members of a record do not depend on the order of the bindings.
proof fn lemma_members_of_reordering(
    state: State,
    scopes: Scopes,
    circuit: CircuitModel,
    bindings: Seq<BindingModel>,
    reordered: Seq<BindingModel>,
    count: nat,
    calls: Seq<Invocation>,
)
    requires
        distinct_names(bindings),
        bindings.to_multiset() == reordered.to_multiset(),
    ensures
        members_evaluated(state, scopes, circuit, bindings, count, calls) == members_evaluated(
            state,
            scopes,
            circuit,
            reordered,
            count,
            calls,
        ),
    decreases count,
{
    if !(count == 0 || count > circuit.members.len()) {
        lemma_members_of_reordering(
            state,
            scopes,
            circuit,
            bindings,
            reordered,
            (count - 1) as nat,
            calls,
        );
        match circuit.members[count - 1] {
            CircuitMemberModel::CircuitField(name, _) => {
                lemma_reordering_keeps_bindings(bindings, reordered, name);
                lemma_first_binding_is_first(bindings, name);
                lemma_first_binding_is_first(reordered, name);
            },
            _ => {},
        }
    }
}

/// A record expression is worth the same whatever the order of its bindings, where
/// no two of them bind one field.
pub proof fn lemma_binding_order_is_irrelevant(
    state: State,
    scopes: Scopes,
    expected: Seq<TypeModel>,
    name: Seq<char>,
    bindings: Seq<BindingModel>,
    reordered: Seq<BindingModel>,
    calls: Seq<Invocation>,
)
    requires
        distinct_names(bindings),
        bindings.to_multiset() == reordered.to_multiset(),
    ensures
        evaluate(state, scopes, expected, ExpressionModel::Circuit(name, bindings), calls)
            == evaluate(state, scopes, expected, ExpressionModel::Circuit(name, reordered), calls),
{
    let path = crate::semantics::circuit_path(scopes, name);
    if state.store.contains_key(path) && state.store[path] is CircuitDefinition {
        let circuit = state.store[path]->CircuitDefinition_0;
        lemma_members_of_reordering(
            state,
            scopes,
            circuit,
            bindings,
            reordered,
            circuit.members.len(),
            calls,
        );
    }
}

/// The name of a member of a record type.
pub open spec fn declared_name(member: CircuitMemberModel) -> Seq<char> {
    match member {
        CircuitMemberModel::CircuitField(name, _) => name,
        CircuitMemberModel::CircuitFunction(_, function) => function.name,
    }
}

/// The members of a record stand in the order in which the record type declares them.
pub proof fn lemma_members_follow_the_declaration(
    state: State,
    scopes: Scopes,
    circuit: CircuitModel,
    bindings: Seq<BindingModel>,
    count: nat,
    calls: Seq<Invocation>,
)
    requires
        count <= circuit.members.len(),
    ensures
        members_evaluated(state, scopes, circuit, bindings, count, calls) matches Evaluation::Finished(
            _,
            Ok(members),
            _,
        ) ==> members.len() == count && forall|i: int|
            0 <= i < count ==> (#[trigger] members[i]).name == declared_name(circuit.members[i]),
    decreases count,
{
    if count > 0 {
        lemma_members_follow_the_declaration(
            state,
            scopes,
            circuit,
            bindings,
            (count - 1) as nat,
            calls,
        );
    }
}

/// A record extends itself.
pub proof fn lemma_extends_is_reflexive(constraints: Seq<Constraint>)
    ensures
        extends(constraints, constraints),
{
    reveal(extends);
}

/// What extends an extension of a record extends the record.
pub proof fn lemma_extends_is_transitive(
    first: Seq<Constraint>,
    second: Seq<Constraint>,
    third: Seq<Constraint>,
)
    requires
        extends(second, first),
        extends(third, second),
    ensures
        extends(third, first),
{
    reveal(extends);
}

/// An operator adds at most consistent constraints at the end of the record.
pub proof fn lemma_operator_extends_the_record(
    operator: BinaryOperator,
    constraints: Seq<Constraint>,
    left: ValueModel,
    right: ValueModel,
)
    ensures
        extends(applied(operator, constraints, left, right).0, constraints),
{
    reveal(extends);
}

/// A choice adds at most consistent constraints at the end of the record.
pub proof fn lemma_choice_extends_the_record(
    constraints: Seq<Constraint>,
    condition: bool,
    first: ValueModel,
    second: ValueModel,
)
    ensures
        extends(selected(constraints, condition, first, second).0, constraints),
{
    reveal(extends);
}

/// Whether the body of every call left the record extended.
#[verifier::opaque]
pub open spec fn bodies_extend_the_record(calls: Seq<Invocation>) -> bool {
    forall|i: int|
        0 <= i < calls.len() ==> extends(
            (#[trigger] calls[i]).after.constraints,
            calls[i].before.constraints,
        )
}

/// Whether an evaluation that ends has extended the record of `state` and has left
/// only calls whose bodies extend the record.
pub open spec fn extends_the_record<T>(evaluation: Evaluation<T>, state: State) -> bool {
    evaluation matches Evaluation::Finished(after, _, rest) ==> extends(
        after.constraints,
        state.constraints,
    ) && bodies_extend_the_record(rest)
}

proof fn lemma_binary_extends_the_record(
    state: State,
    scopes: Scopes,
    expected: Seq<TypeModel>,
    operator: BinaryOperator,
    left: ExpressionModel,
    right: ExpressionModel,
    calls: Seq<Invocation>,
)
    requires
        extends_the_record(evaluate(state, scopes, expected, left, calls), state),
        evaluate(state, scopes, expected, left, calls) matches Evaluation::Finished(
            after_left,
            Ok(_),
            rest,
        ) ==> extends_the_record(evaluate(after_left, scopes, expected, right, rest), after_left),
    ensures
        extends_the_record(
            evaluate(
                state,
                scopes,
                expected,
                ExpressionModel::Binary(operator, Box::new(left), Box::new(right)),
                calls,
            ),
            state,
        ),
{
    if let Evaluation::Finished(after_left, Ok(left_value), rest) = evaluate(
        state,
        scopes,
        expected,
        left,
        calls,
    ) {
        if let Evaluation::Finished(after_right, outcome, _) = evaluate(
            after_left,
            scopes,
            expected,
            right,
            rest,
        ) {
            lemma_extends_is_transitive(
                state.constraints,
                after_left.constraints,
                after_right.constraints,
            );
            if let Ok(right_value) = outcome {
                let last = applied(operator, after_right.constraints, left_value, right_value).0;
                lemma_operator_extends_the_record(
                    operator,
                    after_right.constraints,
                    left_value,
                    right_value,
                );
                lemma_extends_is_transitive(state.constraints, after_right.constraints, last);
            }
        }
    }
}

proof fn lemma_conditional_extends_the_record(
    state: State,
    scopes: Scopes,
    expected: Seq<TypeModel>,
    first: ExpressionModel,
    second: ExpressionModel,
    third: ExpressionModel,
    calls: Seq<Invocation>,
)
    requires
        extends_the_record(
            evaluate(state, scopes, seq![TypeModel::Boolean], first, calls),
            state,
        ),
        evaluate(state, scopes, seq![TypeModel::Boolean], first, calls) matches Evaluation::Finished(
            after_first,
            Ok(_),
            rest,
        ) ==> extends_the_record(
            evaluate(after_first, scopes, expected, second, rest),
            after_first,
        ),
        evaluate(state, scopes, seq![TypeModel::Boolean], first, calls) matches Evaluation::Finished(
            after_first,
            Ok(_),
            rest,
        ) ==> (evaluate(after_first, scopes, expected, second, rest) matches Evaluation::Finished(
            after_second,
            Ok(_),
            rest,
        ) ==> extends_the_record(
            evaluate(after_second, scopes, expected, third, rest),
            after_second,
        )),
    ensures
        extends_the_record(
            evaluate(
                state,
                scopes,
                expected,
                ExpressionModel::IfElse(Box::new(first), Box::new(second), Box::new(third)),
                calls,
            ),
            state,
        ),
{
    if let Evaluation::Finished(after_first, Ok(ValueModel::Boolean(condition)), rest) = evaluate(
        state,
        scopes,
        seq![TypeModel::Boolean],
        first,
        calls,
    ) {
        if let Evaluation::Finished(after_second, second_outcome, rest) = evaluate(
            after_first,
            scopes,
            expected,
            second,
            rest,
        ) {
            lemma_extends_is_transitive(
                state.constraints,
                after_first.constraints,
                after_second.constraints,
            );
            if let Ok(second_value) = second_outcome {
                if let Evaluation::Finished(after_third, third_outcome, _) = evaluate(
                    after_second,
                    scopes,
                    expected,
                    third,
                    rest,
                ) {
                    lemma_extends_is_transitive(
                        state.constraints,
                        after_second.constraints,
                        after_third.constraints,
                    );
                    if let Ok(third_value) = third_outcome {
                        let last = selected(
                            after_third.constraints,
                            condition,
                            second_value,
                            third_value,
                        ).0;
                        lemma_choice_extends_the_record(
                            after_third.constraints,
                            condition,
                            second_value,
                            third_value,
                        );
                        lemma_extends_is_transitive(
                            state.constraints,
                            after_third.constraints,
                            last,
                        );
                    }
                }
            }
        }
    }
}

proof fn lemma_call_extends_the_record(
    state: State,
    scopes: Scopes,
    function: ExpressionModel,
    value: ValueModel,
    arguments: Seq<ExpressionModel>,
    calls: Seq<Invocation>,
)
    requires
        bodies_extend_the_record(calls),
    ensures
        extends_the_record(invoked(state, scopes, function, value, arguments, calls), state),
{
    reveal(bodies_extend_the_record);
    lemma_extends_is_reflexive(state.constraints);
    if calls.len() > 0 {
        assert forall|i: int| 0 <= i < calls.drop_first().len() implies extends(
            (#[trigger] calls.drop_first()[i]).after.constraints,
            calls.drop_first()[i].before.constraints,
        ) by {
            assert(calls.drop_first()[i] == calls[i + 1]);
        }
    }
}

/// An evaluation never changes a constraint that is recorded, where the bodies of
/// the functions that it calls do not: it adds constraints at the end of the
/// record, in the order of the subexpressions, and each records what its gadget
/// witnesses.
pub proof fn lemma_evaluation_extends_the_record(
    state: State,
    scopes: Scopes,
    expected: Seq<TypeModel>,
    expression: ExpressionModel,
    calls: Seq<Invocation>,
)
    requires
        bodies_extend_the_record(calls),
    ensures
        extends_the_record(evaluate(state, scopes, expected, expression, calls), state),
    decreases expression, 0nat, 0nat,
{
    lemma_extends_is_reflexive(state.constraints);
    match expression {
        ExpressionModel::Binary(operator, left, right) => {
            lemma_evaluation_extends_the_record(state, scopes, expected, *left, calls);
            if let Evaluation::Finished(after_left, Ok(_), rest) = evaluate(
                state,
                scopes,
                expected,
                *left,
                calls,
            ) {
                lemma_evaluation_extends_the_record(after_left, scopes, expected, *right, rest);
            }
            lemma_binary_extends_the_record(
                state,
                scopes,
                expected,
                operator,
                *left,
                *right,
                calls,
            );
        },
        ExpressionModel::Not(inner) => {
            lemma_evaluation_extends_the_record(state, scopes, expected, *inner, calls);
        },
        ExpressionModel::IfElse(first, second, third) => {
            lemma_evaluation_extends_the_record(
                state,
                scopes,
                seq![TypeModel::Boolean],
                *first,
                calls,
            );
            if let Evaluation::Finished(after_first, Ok(_), rest) = evaluate(
                state,
                scopes,
                seq![TypeModel::Boolean],
                *first,
                calls,
            ) {
                lemma_evaluation_extends_the_record(after_first, scopes, expected, *second, rest);
                if let Evaluation::Finished(after_second, Ok(_), rest) = evaluate(
                    after_first,
                    scopes,
                    expected,
                    *second,
                    rest,
                ) {
                    lemma_evaluation_extends_the_record(
                        after_second,
                        scopes,
                        expected,
                        *third,
                        rest,
                    );
                }
            }
            lemma_conditional_extends_the_record(
                state,
                scopes,
                expected,
                *first,
                *second,
                *third,
                calls,
            );
        },
        ExpressionModel::Array(elements) => {
            if let Ok(inner) = element_types(expected) {
                lemma_elements_extend_the_record(
                    state,
                    scopes,
                    inner,
                    elements,
                    elements.len(),
                    calls,
                );
            }
        },
        ExpressionModel::ArrayAccess(array, index) => {
            lemma_evaluation_extends_the_record(state, scopes, expected, *array, calls);
            if let Evaluation::Finished(after_array, Ok(_), rest) = evaluate(
                state,
                scopes,
                expected,
                *array,
                calls,
            ) {
                if let IndexModel::Expression(index_expression) = *index {
                    lemma_evaluation_extends_the_record(
                        after_array,
                        scopes,
                        Seq::empty(),
                        index_expression,
                        rest,
                    );
                    if let Evaluation::Finished(after_index, _, left) = evaluate(
                        after_array,
                        scopes,
                        Seq::empty(),
                        index_expression,
                        rest,
                    ) {
                        lemma_extends_is_transitive(
                            state.constraints,
                            after_array.constraints,
                            after_index.constraints,
                        );
                        assert(index_evaluated(
                            after_array,
                            scopes,
                            Seq::empty(),
                            index_expression,
                            rest,
                        ) matches Evaluation::Finished(after, _, remaining) && after == after_index
                            && remaining == left);
                    }
                }
            }
        },
        ExpressionModel::Circuit(name, bindings) => {
            let path = crate::semantics::circuit_path(scopes, name);
            if state.store.contains_key(path) && state.store[path] is CircuitDefinition {
                let circuit = state.store[path]->CircuitDefinition_0;
                lemma_members_extend_the_record(
                    state,
                    scopes,
                    circuit,
                    bindings,
                    circuit.members.len(),
                    calls,
                );
            }
        },
        ExpressionModel::CircuitMemberAccess(circuit, _) => {
            lemma_evaluation_extends_the_record(state, scopes, expected, *circuit, calls);
        },
        ExpressionModel::CircuitStaticFunctionAccess(circuit, _) => {
            lemma_evaluation_extends_the_record(state, scopes, expected, *circuit, calls);
        },
        ExpressionModel::FunctionCall(function, arguments) => {
            lemma_evaluation_extends_the_record(state, scopes, expected, *function, calls);
            if let Evaluation::Finished(after_callee, Ok(value), rest) = evaluate(
                state,
                scopes,
                expected,
                *function,
                calls,
            ) {
                lemma_call_extends_the_record(
                    after_callee,
                    scopes,
                    *function,
                    value,
                    arguments,
                    rest,
                );
                if let Evaluation::Finished(after_call, _, _) = invoked(
                    after_callee,
                    scopes,
                    *function,
                    value,
                    arguments,
                    rest,
                ) {
                    lemma_extends_is_transitive(
                        state.constraints,
                        after_callee.constraints,
                        after_call.constraints,
                    );
                }
            }
        },
        _ => {},
    }
}

/// The same for the elements of an array expression.
pub proof fn lemma_elements_extend_the_record(
    state: State,
    scopes: Scopes,
    expected: Seq<TypeModel>,
    elements: Seq<ElementModel>,
    count: nat,
    calls: Seq<Invocation>,
)
    requires
        bodies_extend_the_record(calls),
    ensures
        extends_the_record(
            elements_evaluated(state, scopes, expected, elements, count, calls),
            state,
        ),
    decreases elements, 0nat, count,
{
    lemma_extends_is_reflexive(state.constraints);
    if !(count == 0 || count > elements.len()) {
        lemma_elements_extend_the_record(
            state,
            scopes,
            expected,
            elements,
            (count - 1) as nat,
            calls,
        );
        if let Evaluation::Finished(before, Ok(_), rest) = elements_evaluated(
            state,
            scopes,
            expected,
            elements,
            (count - 1) as nat,
            calls,
        ) {
            if let ElementModel::Expression(expression) = elements[count - 1] {
                lemma_evaluation_extends_the_record(before, scopes, expected, expression, rest);
                if let Evaluation::Finished(after, _, _) = evaluate(
                    before,
                    scopes,
                    expected,
                    expression,
                    rest,
                ) {
                    lemma_extends_is_transitive(
                        state.constraints,
                        before.constraints,
                        after.constraints,
                    );
                }
            }
        }
    }
}

/// The same for the members of a record expression.
pub proof fn lemma_members_extend_the_record(
    state: State,
    scopes: Scopes,
    circuit: CircuitModel,
    bindings: Seq<BindingModel>,
    count: nat,
    calls: Seq<Invocation>,
)
    requires
        bodies_extend_the_record(calls),
    ensures
        extends_the_record(
            members_evaluated(state, scopes, circuit, bindings, count, calls),
            state,
        ),
    decreases bindings, 0nat, count,
{
    lemma_extends_is_reflexive(state.constraints);
    if !(count == 0 || count > circuit.members.len()) {
        lemma_members_extend_the_record(
            state,
            scopes,
            circuit,
            bindings,
            (count - 1) as nat,
            calls,
        );
        if let Evaluation::Finished(before, Ok(_), rest) = members_evaluated(
            state,
            scopes,
            circuit,
            bindings,
            (count - 1) as nat,
            calls,
        ) {
            if let CircuitMemberModel::CircuitField(name, declared) = circuit.members[count - 1] {
                if let Some(index) = first_binding(bindings, name) {
                    if 0 <= index < bindings.len() {
                        lemma_evaluation_extends_the_record(
                            before,
                            scopes,
                            seq![declared],
                            bindings[index].expression,
                            rest,
                        );
                        if let Evaluation::Finished(after, _, _) = evaluate(
                            before,
                            scopes,
                            seq![declared],
                            bindings[index].expression,
                            rest,
                        ) {
                            lemma_extends_is_transitive(
                                state.constraints,
                                before.constraints,
                                after.constraints,
                            );
                        }
                    }
                }
            }
        }
    }
}

/// Taking the wrappers off a value twice is taking them off once.
pub proof fn lemma_unwrapping_is_idempotent(value: ValueModel)
    ensures
        value.unwrapped().unwrapped() == value.unwrapped(),
        !(value.unwrapped() is Mutable),
    decreases value,
{
    match value {
        ValueModel::Mutable(inner) => {
            lemma_unwrapping_is_idempotent(*inner);
        },
        _ => {},
    }
}

/// Whether every constraint of a record holds what its gadget witnesses.
pub open spec fn consistent_record(constraints: Seq<Constraint>) -> bool {
    forall|i: int| 0 <= i < constraints.len() ==> (#[trigger] constraints[i]).consistent()
}

/// A consistent record stays consistent when it is extended.
pub proof fn lemma_extension_keeps_the_record_consistent(
    before: Seq<Constraint>,
    after: Seq<Constraint>,
)
    requires
        consistent_record(before),
        extends(after, before),
    ensures
        consistent_record(after),
{
    reveal(extends);
}

/// What a gadget witnesses is well formed: an integer fits its width, and a field
/// element is held by its least representative.
pub proof fn lemma_gadget_results_are_well_formed(
    integer_operation: IntegerOperation,
    left: Integer,
    right: Integer,
    field_operation: FieldOperation,
    first: FieldElement,
    second: FieldElement,
    exponent: nat,
)
    ensures
        integer_result(integer_operation, left, right) matches Ok(integer) ==> integer.wf(),
        field_result(field_operation, first, second) matches Ok(element) ==> element.wf(),
        first.power(exponent).wf(),
        first.inverse().wf(),
{
}

/// A number that reads under a type reads as a well-formed value.
pub proof fn lemma_literals_are_well_formed(text: Seq<char>, expected: TypeModel)
    ensures
        literal_value(text, expected) matches Some(ValueModel::Integer(integer)) ==> integer.wf(),
        literal_value(text, expected) matches Some(ValueModel::FieldElement(element))
            ==> element.wf(),
    decreases expected,
{
    match expected {
        TypeModel::Array(element, _) => {
            lemma_literals_are_well_formed(text, *element);
        },
        _ => {},
    }
}

} // verus!
