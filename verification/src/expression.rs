//! The evaluator: from an expression to its value and the constraints that witness it.
use vstd::prelude::*;
use crate::arrays::array_values;
use crate::arrays::check_array;
use crate::arrays::element_types_of;
use crate::arrays::index_from_value;
use crate::arrays::index_values;
use crate::arrays::slice_values;
use crate::ast::CircuitFieldDefinition;
use crate::ast::Expression;
use crate::ast::ExpressionModel;
use crate::ast::RangeOrExpression;
use crate::ast::SpreadOrExpression;
use crate::ast::arguments_model;
use crate::ast::bindings_model;
use crate::ast::bindings_size;
use crate::ast::elements_model;
use crate::ast::elements_size;
use crate::ast::lemma_binding_size;
use crate::ast::lemma_element_size;
use crate::circuits::access_static;
use crate::circuits::find_binding;
use crate::circuits::member_of_function;
use crate::constraint_system::ConstraintSystem;
use crate::errors::ErrorModel;
use crate::errors::ExpressionError;
use crate::errors::FunctionError;
use crate::functions::function_call_result;
use crate::functions::resolve_callee;
use crate::functions::returned_model;
use crate::operators::result_model;
use crate::operators::select_branches;
use crate::program::ConstrainedProgram;
use crate::program::FunctionInvoker;
use crate::program::Invocations;
use crate::semantics::Invocation;
use crate::semantics::calls_grown;
use crate::semantics::calls_since;
use crate::semantics::elements_evaluated;
use crate::semantics::evaluate;
use crate::semantics::evaluation_ends;
use crate::semantics::identifier_value;
use crate::semantics::index_evaluated;
use crate::semantics::lemma_calls_in_two_steps;
use crate::semantics::lemma_elements_stopped;
use crate::semantics::lemma_members_stopped;
use crate::semantics::lemma_more_calls;
use crate::semantics::lemma_more_calls_of_elements;
use crate::semantics::lemma_more_calls_of_members;
use crate::semantics::members_evaluated;
use crate::semantics::number_implicit;
use crate::semantics::operands_evaluated;
use crate::semantics::scopes;
use crate::semantics::state;
use crate::text::new_scope;
use crate::types::CircuitMember;
use crate::types::Function;
use crate::types::Identifier;
use crate::types::Type;
use crate::types::TypeModel;
use crate::types::types_model;
use crate::value::ConstrainedCircuitMember;
use crate::value::ConstrainedValue;
use crate::value::MemberModel;
use crate::value::ValueModel;
use crate::value::members_model;
use crate::value::values_model;

verus! {

/// What an index, or the error in its place, stands for.
pub open spec fn index_result(result: Result<usize, ExpressionError>) -> Result<usize, ErrorModel> {
    match result {
        Ok(index) => Ok(index),
        Err(error) => Err(error@),
    }
}

/// What two operands, or the error in their place, stand for.
pub open spec fn operands_result(
    result: Result<(ConstrainedValue, ConstrainedValue), ExpressionError>,
) -> Result<(ValueModel, ValueModel), ErrorModel> {
    match result {
        Ok(operands) => Ok((operands.0@, operands.1@)),
        Err(error) => Err(error@),
    }
}

impl ConstrainedProgram {
    /// A number without a written type: read under the expected type if exactly one
    /// is expected, and left without a type otherwise.
    pub fn enforce_number_implicit(expected_types: &Vec<Type>, value: String) -> (result: Result<
        ConstrainedValue,
        ExpressionError,
    >)
        ensures
            result_model(result) == number_implicit(types_model(expected_types@), value@),
    {
        if expected_types.len() == 1 {
            return match ConstrainedValue::from_type(value.as_str(), &expected_types[0]) {
                Some(number) => Ok(number),
                None => Err(ExpressionError::InvalidNumber(value, expected_types[0].to_text())),
            };
        }
        Ok(ConstrainedValue::Unresolved(value))
    }

    /// The value of a name: a copy of what is bound to it in the function scope, else
    /// of what is bound to it in the file scope.
    pub fn evaluate_identifier(
        &mut self,
        file_scope: &str,
        function_scope: &str,
        expected_types: &Vec<Type>,
        unresolved_identifier: &Identifier,
    ) -> (result: Result<ConstrainedValue, ExpressionError>)
        ensures
            *final(self) == *old(self),
            result_model(result) == identifier_value(
                old(self)@,
                scopes(file_scope@, function_scope@),
                types_model(expected_types@),
                unresolved_identifier@,
            ),
    {
        let variable_name = new_scope(function_scope, unresolved_identifier.name.as_str());
        let identifier_name = new_scope(file_scope, unresolved_identifier.name.as_str());
        let result_value = match self.get(variable_name.as_str()) {
            Some(value) => value.duplicate(),
            None => match self.get(identifier_name.as_str()) {
                Some(value) => value.duplicate(),
                None => {
                    return Err(
                        ExpressionError::UndefinedIdentifier(unresolved_identifier.name.clone()),
                    );
                },
            },
        };
        match result_value {
            ConstrainedValue::Unresolved(string) => Self::enforce_number_implicit(
                expected_types,
                string,
            ),
            value => Ok(value),
        }
    }

    /// Evaluates the two operands of an operator, the left one first.
    pub fn enforce_operands<I: FunctionInvoker>(
        &mut self,
        invoker: &mut I,
        cs: &mut ConstraintSystem,
        calls: &mut Invocations,
        file_scope: &str,
        function_scope: &str,
        expected_types: &Vec<Type>,
        left: &Expression,
        right: &Expression,
    ) -> (result: Result<(ConstrainedValue, ConstrainedValue), ExpressionError>)
        ensures
            calls_grown(old(calls)@, final(calls)@),
            final(calls)@.len() == old(calls)@.len() && old(self).wf() ==> final(self).wf(),
            evaluation_ends(
                operands_evaluated(
                    state(old(self)@, old(cs)@),
                    scopes(file_scope@, function_scope@),
                    types_model(expected_types@),
                    left@,
                    right@,
                    calls_since(old(calls)@, final(calls)@),
                ),
                final(self)@,
                final(cs)@,
                operands_result(result),
            ),
        decreases left.size() + right.size(), 1nat,
    {
        let ghost start = state(self@, cs@);
        let ghost names = scopes(file_scope@, function_scope@);
        let ghost expected = types_model(expected_types@);
        let ghost calls_before = calls@;
        let resolved_left = self.enforce_expression(
            invoker,
            cs,
            calls,
            file_scope,
            function_scope,
            expected_types,
            left,
        )?;
        let ghost calls_between = calls@;
        let outcome = self.enforce_expression(
            invoker,
            cs,
            calls,
            file_scope,
            function_scope,
            expected_types,
            right,
        );
        proof {
            let first = calls_since(calls_before, calls_between);
            let second = calls_since(calls_between, calls@);
            lemma_calls_in_two_steps(calls_before, calls_between, calls@);
            lemma_more_calls(start, names, expected, left@, first, second);
        }
        let resolved_right = outcome?;
        Ok((resolved_left, resolved_right))
    }

    /// Evaluates an expression.
    ///
    /// The value and the state afterwards are those of [`evaluate`] for the calls of
    /// functions that the evaluation made, which `calls` holds at its end afterwards.
    pub fn enforce_expression<I: FunctionInvoker>(
        &mut self,
        invoker: &mut I,
        cs: &mut ConstraintSystem,
        calls: &mut Invocations,
        file_scope: &str,
        function_scope: &str,
        expected_types: &Vec<Type>,
        expression: &Expression,
    ) -> (result: Result<ConstrainedValue, ExpressionError>)
        ensures
            calls_grown(old(calls)@, final(calls)@),
            final(calls)@.len() == old(calls)@.len() && old(self).wf() ==> final(self).wf(),
            evaluation_ends(
                evaluate(
                    state(old(self)@, old(cs)@),
                    scopes(file_scope@, function_scope@),
                    types_model(expected_types@),
                    expression@,
                    calls_since(old(calls)@, final(calls)@),
                ),
                final(self)@,
                final(cs)@,
                result_model(result),
            ),
        decreases expression.size(), 0nat,
    {
        proof {
            assert(calls_since(calls@, calls@) =~= Seq::<Invocation>::empty());
            assert(calls@.take(calls@.len() as int) =~= calls@);
        }
        match expression {
            Expression::Identifier(unresolved_variable) => self.evaluate_identifier(
                file_scope,
                function_scope,
                expected_types,
                unresolved_variable,
            ),
            Expression::Integer(integer) => Ok(ConstrainedValue::Integer(*integer)),
            Expression::FieldElement(fe) => Ok(ConstrainedValue::FieldElement(*fe)),
            Expression::GroupElement(gr) => Ok(ConstrainedValue::GroupElement(*gr)),
            Expression::Boolean(boolean) => Ok(ConstrainedValue::Boolean(*boolean)),
            Expression::Implicit(value) => Self::enforce_number_implicit(
                expected_types,
                value.clone(),
            ),
            Expression::Add(left, right) => {
                let operands = self.enforce_operands(
                    invoker,
                    cs,
                    calls,
                    file_scope,
                    function_scope,
                    expected_types,
                    left,
                    right,
                )?;
                self.enforce_add_expression(cs, operands.0, operands.1)
            },
            Expression::Sub(left, right) => {
                let operands = self.enforce_operands(
                    invoker,
                    cs,
                    calls,
                    file_scope,
                    function_scope,
                    expected_types,
                    left,
                    right,
                )?;
                self.enforce_sub_expression(cs, operands.0, operands.1)
            },
            Expression::Mul(left, right) => {
                let operands = self.enforce_operands(
                    invoker,
                    cs,
                    calls,
                    file_scope,
                    function_scope,
                    expected_types,
                    left,
                    right,
                )?;
                self.enforce_mul_expression(cs, operands.0, operands.1)
            },
            Expression::Div(left, right) => {
                let operands = self.enforce_operands(
                    invoker,
                    cs,
                    calls,
                    file_scope,
                    function_scope,
                    expected_types,
                    left,
                    right,
                )?;
                self.enforce_div_expression(cs, operands.0, operands.1)
            },
            Expression::Pow(left, right) => {
                let operands = self.enforce_operands(
                    invoker,
                    cs,
                    calls,
                    file_scope,
                    function_scope,
                    expected_types,
                    left,
                    right,
                )?;
                self.enforce_pow_expression(cs, operands.0, operands.1)
            },
            Expression::Not(expression) => {
                let resolved = self.enforce_expression(
                    invoker,
                    cs,
                    calls,
                    file_scope,
                    function_scope,
                    expected_types,
                    expression,
                )?;
                Self::evaluate_not(resolved)
            },
            Expression::Or(left, right) => {
                let operands = self.enforce_operands(
                    invoker,
                    cs,
                    calls,
                    file_scope,
                    function_scope,
                    expected_types,
                    left,
                    right,
                )?;
                self.enforce_or(cs, operands.0, operands.1)
            },
            Expression::And(left, right) => {
                let operands = self.enforce_operands(
                    invoker,
                    cs,
                    calls,
                    file_scope,
                    function_scope,
                    expected_types,
                    left,
                    right,
                )?;
                self.enforce_and(cs, operands.0, operands.1)
            },
            Expression::Eq(left, right) => {
                let operands = self.enforce_operands(
                    invoker,
                    cs,
                    calls,
                    file_scope,
                    function_scope,
                    expected_types,
                    left,
                    right,
                )?;
                self.evaluate_eq_expression(operands.0, operands.1)
            },
            Expression::Geq(left, right) => {
                let operands = self.enforce_operands(
                    invoker,
                    cs,
                    calls,
                    file_scope,
                    function_scope,
                    expected_types,
                    left,
                    right,
                )?;
                self.evaluate_geq_expression(operands.0, operands.1)
            },
            Expression::Gt(left, right) => {
                let operands = self.enforce_operands(
                    invoker,
                    cs,
                    calls,
                    file_scope,
                    function_scope,
                    expected_types,
                    left,
                    right,
                )?;
                self.evaluate_gt_expression(operands.0, operands.1)
            },
            Expression::Leq(left, right) => {
                let operands = self.enforce_operands(
                    invoker,
                    cs,
                    calls,
                    file_scope,
                    function_scope,
                    expected_types,
                    left,
                    right,
                )?;
                self.evaluate_leq_expression(operands.0, operands.1)
            },
            Expression::Lt(left, right) => {
                let operands = self.enforce_operands(
                    invoker,
                    cs,
                    calls,
                    file_scope,
                    function_scope,
                    expected_types,
                    left,
                    right,
                )?;
                self.evaluate_lt_expression(operands.0, operands.1)
            },
            Expression::IfElse(first, second, third) => self.enforce_conditional_expression(
                invoker,
                cs,
                calls,
                file_scope,
                function_scope,
                expected_types,
                first,
                second,
                third,
            ),
            Expression::Array(array) => self.enforce_array_expression(
                invoker,
                cs,
                calls,
                file_scope,
                function_scope,
                expected_types,
                array,
            ),
            Expression::ArrayAccess(array, index) => self.enforce_array_access_expression(
                invoker,
                cs,
                calls,
                file_scope,
                function_scope,
                expected_types,
                array,
                index,
            ),
            Expression::Circuit(circuit_name, members) => self.enforce_circuit_expression(
                invoker,
                cs,
                calls,
                file_scope,
                function_scope,
                circuit_name,
                members,
            ),
            Expression::CircuitMemberAccess(circuit_variable, circuit_member) => self.enforce_circuit_access_expression(
                invoker,
                cs,
                calls,
                file_scope,
                function_scope,
                expected_types,
                circuit_variable,
                circuit_member,
            ),
            Expression::CircuitStaticFunctionAccess(circuit_identifier, circuit_member) => self.enforce_circuit_static_access_expression(
                invoker,
                cs,
                calls,
                file_scope,
                function_scope,
                expected_types,
                circuit_identifier,
                circuit_member,
            ),
            Expression::FunctionCall(function, arguments) => self.enforce_function_call_expression(
                invoker,
                cs,
                calls,
                file_scope,
                function_scope,
                expected_types,
                function,
                arguments,
            ),
        }
    }

    /// Evaluates a choice: the condition as a boolean, then both branches, then the
    /// gadget that chooses between their values.
    pub fn enforce_conditional_expression<I: FunctionInvoker>(
        &mut self,
        invoker: &mut I,
        cs: &mut ConstraintSystem,
        calls: &mut Invocations,
        file_scope: &str,
        function_scope: &str,
        expected_types: &Vec<Type>,
        first: &Expression,
        second: &Expression,
        third: &Expression,
    ) -> (result: Result<ConstrainedValue, ExpressionError>)
        ensures
            calls_grown(old(calls)@, final(calls)@),
            final(calls)@.len() == old(calls)@.len() && old(self).wf() ==> final(self).wf(),
            evaluation_ends(
                evaluate(
                    state(old(self)@, old(cs)@),
                    scopes(file_scope@, function_scope@),
                    types_model(expected_types@),
                    ExpressionModel::IfElse(Box::new(first@), Box::new(second@), Box::new(third@)),
                    calls_since(old(calls)@, final(calls)@),
                ),
                final(self)@,
                final(cs)@,
                result_model(result),
            ),
        decreases first.size() + second.size() + third.size(), 1nat,
    {
        let ghost start = state(self@, cs@);
        let ghost names = scopes(file_scope@, function_scope@);
        let ghost calls_before = calls@;
        let mut boolean_type: Vec<Type> = Vec::new();
        boolean_type.push(Type::Boolean);
        assert(types_model(boolean_type@) =~= seq![TypeModel::Boolean]);
        let resolved_first = match self.enforce_expression(
            invoker,
            cs,
            calls,
            file_scope,
            function_scope,
            &boolean_type,
            first,
        )? {
            ConstrainedValue::Boolean(resolved) => resolved,
            value => {
                return Err(ExpressionError::IfElseConditional(value.to_text()));
            },
        };
        let ghost calls_of_first = calls@;
        let branches = self.enforce_operands(
            invoker,
            cs,
            calls,
            file_scope,
            function_scope,
            expected_types,
            second,
            third,
        );
        proof {
            let early = calls_since(calls_before, calls_of_first);
            let late = calls_since(calls_of_first, calls@);
            lemma_calls_in_two_steps(calls_before, calls_of_first, calls@);
            lemma_more_calls(start, names, seq![TypeModel::Boolean], first@, early, late);
        }
        let branches = branches?;
        select_branches(cs, resolved_first, branches.0, branches.1)
    }

    /// Evaluates an array expression: its elements in their order, those of a spread
    /// in their own order.
    #[verifier::loop_isolation(false)]
    pub fn enforce_array_expression<I: FunctionInvoker>(
        &mut self,
        invoker: &mut I,
        cs: &mut ConstraintSystem,
        calls: &mut Invocations,
        file_scope: &str,
        function_scope: &str,
        expected_types: &Vec<Type>,
        array: &Vec<SpreadOrExpression>,
    ) -> (result: Result<ConstrainedValue, ExpressionError>)
        ensures
            calls_grown(old(calls)@, final(calls)@),
            final(calls)@.len() == old(calls)@.len() && old(self).wf() ==> final(self).wf(),
            evaluation_ends(
                evaluate(
                    state(old(self)@, old(cs)@),
                    scopes(file_scope@, function_scope@),
                    types_model(expected_types@),
                    ExpressionModel::Array(elements_model(*array)),
                    calls_since(old(calls)@, final(calls)@),
                ),
                final(self)@,
                final(cs)@,
                result_model(result),
            ),
        decreases elements_size(*array, array.len() as nat), 1nat,
    {
        let ghost start = state(self@, cs@);
        let ghost names = scopes(file_scope@, function_scope@);
        let ghost elements = elements_model(*array);
        let ghost calls_before = calls@;
        proof {
            assert(calls_since(calls@, calls@) =~= Seq::<Invocation>::empty());
            assert(calls@.take(calls@.len() as int) =~= calls@);
        }
        let inner_types = element_types_of(expected_types)?;
        let ghost inner = types_model(inner_types@);
        let mut result: Vec<ConstrainedValue> = Vec::new();
        let mut i: usize = 0;
        assert(values_model(result) =~= Seq::<ValueModel>::empty());
        while i < array.len()
            invariant
                i <= array.len(),
                calls_grown(calls_before, calls@),
                calls@.len() == calls_before.len() && old(self).wf() ==> self.wf(),
                evaluation_ends(
                    elements_evaluated(
                        start,
                        names,
                        inner,
                        elements,
                        i as nat,
                        calls_since(calls_before, calls@),
                    ),
                    self@,
                    cs@,
                    Ok(values_model(result)),
                ),
            decreases array.len() - i,
        {
            let ghost calls_reached = calls@;
            let ghost values_before = values_model(result);
            proof {
                lemma_element_size(*array, i as int, array.len() as nat);
            }
            match &array[i] {
                SpreadOrExpression::Spread(identifier) => {
                    match self.spread_of(file_scope, function_scope, identifier) {
                        Ok(mut values) => {
                            let ghost spread = values_model(values);
                            result.append(&mut values);
                            assert(values_model(result) =~= values_before + spread);
                        },
                        Err(error) => {
                            proof {
                                lemma_elements_stopped(
                                    start,
                                    names,
                                    inner,
                                    elements,
                                    (i + 1) as nat,
                                    elements.len(),
                                    calls_since(calls_before, calls@),
                                );
                            }
                            return Err(error);
                        },
                    }
                },
                SpreadOrExpression::Expression(expression) => {
                    let outcome = self.enforce_expression(
                        invoker,
                        cs,
                        calls,
                        file_scope,
                        function_scope,
                        &inner_types,
                        expression,
                    );
                    proof {
                        let early = calls_since(calls_before, calls_reached);
                        let late = calls_since(calls_reached, calls@);
                        lemma_calls_in_two_steps(calls_before, calls_reached, calls@);
                        lemma_more_calls_of_elements(
                            start,
                            names,
                            inner,
                            elements,
                            i as nat,
                            early,
                            late,
                        );
                    }
                    match outcome {
                        Ok(value) => {
                            result.push(value);
                            assert(values_model(result) =~= values_before.push(value@));
                        },
                        Err(error) => {
                            proof {
                                lemma_elements_stopped(
                                    start,
                                    names,
                                    inner,
                                    elements,
                                    (i + 1) as nat,
                                    elements.len(),
                                    calls_since(calls_before, calls@),
                                );
                            }
                            return Err(error);
                        },
                    }
                },
            }
            i = i + 1;
        }
        check_array(expected_types, result)
    }

    /// Evaluates an index expression to the index that its value stands for.
    pub fn enforce_index<I: FunctionInvoker>(
        &mut self,
        invoker: &mut I,
        cs: &mut ConstraintSystem,
        calls: &mut Invocations,
        file_scope: &str,
        function_scope: &str,
        expected_types: &Vec<Type>,
        index: &Expression,
    ) -> (result: Result<usize, ExpressionError>)
        ensures
            calls_grown(old(calls)@, final(calls)@),
            final(calls)@.len() == old(calls)@.len() && old(self).wf() ==> final(self).wf(),
            evaluation_ends(
                index_evaluated(
                    state(old(self)@, old(cs)@),
                    scopes(file_scope@, function_scope@),
                    types_model(expected_types@),
                    index@,
                    calls_since(old(calls)@, final(calls)@),
                ),
                final(self)@,
                final(cs)@,
                index_result(result),
            ),
        decreases index.size(), 1nat,
    {
        let value = self.enforce_expression(
            invoker,
            cs,
            calls,
            file_scope,
            function_scope,
            expected_types,
            index,
        )?;
        index_from_value(&value)
    }

    /// Evaluates an array access: the array first, then a copy of the part or of the
    /// element that the index names. The index itself is evaluated with no type expected.
    pub fn enforce_array_access_expression<I: FunctionInvoker>(
        &mut self,
        invoker: &mut I,
        cs: &mut ConstraintSystem,
        calls: &mut Invocations,
        file_scope: &str,
        function_scope: &str,
        expected_types: &Vec<Type>,
        array: &Expression,
        index: &RangeOrExpression,
    ) -> (result: Result<ConstrainedValue, ExpressionError>)
        ensures
            calls_grown(old(calls)@, final(calls)@),
            final(calls)@.len() == old(calls)@.len() && old(self).wf() ==> final(self).wf(),
            evaluation_ends(
                evaluate(
                    state(old(self)@, old(cs)@),
                    scopes(file_scope@, function_scope@),
                    types_model(expected_types@),
                    ExpressionModel::ArrayAccess(Box::new(array@), Box::new(index@)),
                    calls_since(old(calls)@, final(calls)@),
                ),
                final(self)@,
                final(cs)@,
                result_model(result),
            ),
        decreases array.size() + index.size(), 1nat,
    {
        let ghost start = state(self@, cs@);
        let ghost names = scopes(file_scope@, function_scope@);
        let ghost expected = types_model(expected_types@);
        let ghost calls_before = calls@;
        let value = self.enforce_expression(
            invoker,
            cs,
            calls,
            file_scope,
            function_scope,
            expected_types,
            array,
        )?;
        let values = array_values(value)?;
        match index {
            RangeOrExpression::Range(from, to) => slice_values(&values, from, to),
            RangeOrExpression::Expression(index) => {
                let ghost calls_of_array = calls@;
                let no_types: Vec<Type> = Vec::new();
                assert(types_model(no_types@) =~= Seq::<TypeModel>::empty());
                let outcome = self.enforce_index(
                    invoker,
                    cs,
                    calls,
                    file_scope,
                    function_scope,
                    &no_types,
                    index,
                );
                proof {
                    let early = calls_since(calls_before, calls_of_array);
                    let late = calls_since(calls_of_array, calls@);
                    lemma_calls_in_two_steps(calls_before, calls_of_array, calls@);
                    lemma_more_calls(start, names, expected, array@, early, late);
                }
                let index_resolved = outcome?;
                index_values(&values, index_resolved)
            },
        }
    }

    /// Evaluates a record expression: the members of the record type in the order of
    /// their declaration, each field from the expression first bound to its name.
    #[verifier::loop_isolation(false)]
    pub fn enforce_circuit_expression<I: FunctionInvoker>(
        &mut self,
        invoker: &mut I,
        cs: &mut ConstraintSystem,
        calls: &mut Invocations,
        file_scope: &str,
        function_scope: &str,
        identifier: &Identifier,
        members: &Vec<CircuitFieldDefinition>,
    ) -> (result: Result<ConstrainedValue, ExpressionError>)
        ensures
            calls_grown(old(calls)@, final(calls)@),
            final(calls)@.len() == old(calls)@.len() && old(self).wf() ==> final(self).wf(),
            forall|expected: Seq<TypeModel>|
                evaluation_ends(
                    #[trigger] evaluate(
                        state(old(self)@, old(cs)@),
                        scopes(file_scope@, function_scope@),
                        expected,
                        ExpressionModel::Circuit(identifier@, bindings_model(*members)),
                        calls_since(old(calls)@, final(calls)@),
                    ),
                    final(self)@,
                    final(cs)@,
                    result_model(result),
                ),
        decreases bindings_size(*members, members.len() as nat), 1nat,
    {
        let ghost start = state(self@, cs@);
        let ghost names = scopes(file_scope@, function_scope@);
        let ghost bindings = bindings_model(*members);
        let ghost calls_before = calls@;
        proof {
            assert(calls_since(calls@, calls@) =~= Seq::<Invocation>::empty());
            assert(calls@.take(calls@.len() as int) =~= calls@);
        }
        let circuit = match self.circuit_named(file_scope, function_scope, identifier) {
            Some(circuit) => circuit,
            None => {
                return Err(ExpressionError::UndefinedCircuit(identifier.name.clone()));
            },
        };
        let mut resolved_members: Vec<ConstrainedCircuitMember> = Vec::new();
        let mut i: usize = 0;
        assert(members_model(resolved_members) =~= Seq::<MemberModel>::empty());
        while i < circuit.members.len()
            invariant
                i <= circuit.members.len(),
                calls_grown(calls_before, calls@),
                calls@.len() == calls_before.len() && old(self).wf() ==> self.wf(),
                evaluation_ends(
                    members_evaluated(
                        start,
                        names,
                        circuit@,
                        bindings,
                        i as nat,
                        calls_since(calls_before, calls@),
                    ),
                    self@,
                    cs@,
                    Ok(members_model(resolved_members)),
                ),
            decreases circuit.members.len() - i,
        {
            let ghost calls_reached = calls@;
            let ghost members_before = members_model(resolved_members);
            match &circuit.members[i] {
                CircuitMember::CircuitField(name, declared) => {
                    match find_binding(members, name) {
                        Some(position) => {
                            let mut field_type: Vec<Type> = Vec::new();
                            field_type.push(declared.duplicate());
                            assert(types_model(field_type@) =~= seq![declared@]);
                            proof {
                                lemma_binding_size(*members, position as int, members.len() as nat);
                            }
                            let outcome = self.enforce_expression(
                                invoker,
                                cs,
                                calls,
                                file_scope,
                                function_scope,
                                &field_type,
                                &members[position].expression,
                            );
                            proof {
                                let early = calls_since(calls_before, calls_reached);
                                let late = calls_since(calls_reached, calls@);
                                lemma_calls_in_two_steps(calls_before, calls_reached, calls@);
                                lemma_more_calls_of_members(
                                    start,
                                    names,
                                    circuit@,
                                    bindings,
                                    i as nat,
                                    early,
                                    late,
                                );
                            }
                            match outcome {
                                Ok(field_value) => {
                                    resolved_members.push(
                                        ConstrainedCircuitMember(name.duplicate(), field_value),
                                    );
                                    assert(members_model(resolved_members) =~= members_before.push(
                                        MemberModel { name: name@, value: field_value@ },
                                    ));
                                },
                                Err(error) => {
                                    proof {
                                        lemma_members_stopped(
                                            start,
                                            names,
                                            circuit@,
                                            bindings,
                                            (i + 1) as nat,
                                            circuit@.members.len(),
                                            calls_since(calls_before, calls@),
                                        );
                                    }
                                    return Err(error);
                                },
                            }
                        },
                        None => {
                            proof {
                                lemma_members_stopped(
                                    start,
                                    names,
                                    circuit@,
                                    bindings,
                                    (i + 1) as nat,
                                    circuit@.members.len(),
                                    calls_since(calls_before, calls@),
                                );
                            }
                            return Err(ExpressionError::ExpectedCircuitValue(name.name.clone()));
                        },
                    }
                },
                CircuitMember::CircuitFunction(is_static, function) => {
                    let member = member_of_function(&circuit.identifier, *is_static, function);
                    resolved_members.push(member);
                    assert(members_model(resolved_members) =~= members_before.push(member@));
                },
            }
            i = i + 1;
        }
        Ok(ConstrainedValue::CircuitExpression(circuit.identifier, resolved_members))
    }

    /// Evaluates the access to a member of a record.
    pub fn enforce_circuit_access_expression<I: FunctionInvoker>(
        &mut self,
        invoker: &mut I,
        cs: &mut ConstraintSystem,
        calls: &mut Invocations,
        file_scope: &str,
        function_scope: &str,
        expected_types: &Vec<Type>,
        circuit_identifier: &Expression,
        circuit_member: &Identifier,
    ) -> (result: Result<ConstrainedValue, ExpressionError>)
        ensures
            calls_grown(old(calls)@, final(calls)@),
            final(calls)@.len() == old(calls)@.len() && old(self).wf() ==> final(self).wf(),
            evaluation_ends(
                evaluate(
                    state(old(self)@, old(cs)@),
                    scopes(file_scope@, function_scope@),
                    types_model(expected_types@),
                    ExpressionModel::CircuitMemberAccess(
                        Box::new(circuit_identifier@),
                        circuit_member@,
                    ),
                    calls_since(old(calls)@, final(calls)@),
                ),
                final(self)@,
                final(cs)@,
                result_model(result),
            ),
        decreases circuit_identifier.size(), 1nat,
    {
        let value = self.enforce_expression(
            invoker,
            cs,
            calls,
            file_scope,
            function_scope,
            expected_types,
            circuit_identifier,
        )?;
        self.access_member(file_scope, function_scope, value, circuit_member)
    }

    /// Evaluates the access to a static function of a record type.
    pub fn enforce_circuit_static_access_expression<I: FunctionInvoker>(
        &mut self,
        invoker: &mut I,
        cs: &mut ConstraintSystem,
        calls: &mut Invocations,
        file_scope: &str,
        function_scope: &str,
        expected_types: &Vec<Type>,
        circuit_identifier: &Expression,
        circuit_member: &Identifier,
    ) -> (result: Result<ConstrainedValue, ExpressionError>)
        ensures
            calls_grown(old(calls)@, final(calls)@),
            final(calls)@.len() == old(calls)@.len() && old(self).wf() ==> final(self).wf(),
            evaluation_ends(
                evaluate(
                    state(old(self)@, old(cs)@),
                    scopes(file_scope@, function_scope@),
                    types_model(expected_types@),
                    ExpressionModel::CircuitStaticFunctionAccess(
                        Box::new(circuit_identifier@),
                        circuit_member@,
                    ),
                    calls_since(old(calls)@, final(calls)@),
                ),
                final(self)@,
                final(cs)@,
                result_model(result),
            ),
        decreases circuit_identifier.size(), 1nat,
    {
        let value = self.enforce_expression(
            invoker,
            cs,
            calls,
            file_scope,
            function_scope,
            expected_types,
            circuit_identifier,
        )?;
        access_static(value, circuit_member)
    }

    /// Runs the body of a function through `invoker` and notes the call: what the
    /// body was handed, the state in which it left the program and the constraints,
    /// and what it handed back.
    fn invoke<I: FunctionInvoker>(
        &mut self,
        invoker: &mut I,
        cs: &mut ConstraintSystem,
        calls: &mut Invocations,
        outer_scope: &str,
        function_scope: &str,
        function: &Function,
        arguments: &Vec<Expression>,
    ) -> (returned: Result<ConstrainedValue, FunctionError>)
        ensures
            final(calls)@ == old(calls)@.push(
                (Invocation {
                    before: state(old(self)@, old(cs)@),
                    outer_scope: outer_scope@,
                    function_scope: function_scope@,
                    function: function@,
                    arguments: arguments_model(*arguments),
                    after: state(final(self)@, final(cs)@),
                    returned: returned_model(returned),
                }),
            ),
    {
        let ghost before = state(self@, cs@);
        let returned = invoker.invoke_function(
            self,
            cs,
            outer_scope,
            function_scope,
            function,
            arguments,
        );
        calls.record(
            Ghost(
                Invocation {
                    before,
                    outer_scope: outer_scope@,
                    function_scope: function_scope@,
                    function: function@,
                    arguments: arguments_model(*arguments),
                    after: state(self@, cs@),
                    returned: returned_model(returned),
                },
            ),
        );
        returned
    }

    /// Evaluates a call: the callee first, then the function's body through `invoker`.
    ///
    /// The body is handed the function that [`resolve_callee`] finds, the scope below
    /// which it runs, the scope of the caller and the arguments as they are written.
    /// What the body does to the program and to the constraints is its own business:
    /// the call is noted in `calls` with the state in which the body left them and
    /// with what it handed back, and is worth what [`function_call_result`] says.
    pub fn enforce_function_call_expression<I: FunctionInvoker>(
        &mut self,
        invoker: &mut I,
        cs: &mut ConstraintSystem,
        calls: &mut Invocations,
        file_scope: &str,
        function_scope: &str,
        expected_types: &Vec<Type>,
        function: &Expression,
        arguments: &Vec<Expression>,
    ) -> (result: Result<ConstrainedValue, ExpressionError>)
        ensures
            calls_grown(old(calls)@, final(calls)@),
            final(calls)@.len() == old(calls)@.len() && old(self).wf() ==> final(self).wf(),
            evaluation_ends(
                evaluate(
                    state(old(self)@, old(cs)@),
                    scopes(file_scope@, function_scope@),
                    types_model(expected_types@),
                    ExpressionModel::FunctionCall(Box::new(function@), arguments_model(*arguments)),
                    calls_since(old(calls)@, final(calls)@),
                ),
                final(self)@,
                final(cs)@,
                result_model(result),
            ),
        decreases function.size(), 1nat,
    {
        let ghost start = state(self@, cs@);
        let ghost names = scopes(file_scope@, function_scope@);
        let ghost expected = types_model(expected_types@);
        let ghost calls_before = calls@;
        let function_value = self.enforce_expression(
            invoker,
            cs,
            calls,
            file_scope,
            function_scope,
            expected_types,
            function,
        )?;
        let (outer_scope, function_call) = resolve_callee(file_scope, function_scope, function_value)?;
        let ghost calls_of_callee = calls@;
        let returned = self.invoke(
            invoker,
            cs,
            calls,
            outer_scope.as_str(),
            function_scope,
            &function_call,
            arguments,
        );
        proof {
            let early = calls_since(calls_before, calls_of_callee);
            let late = calls_since(calls_of_callee, calls@);
            assert(calls@.take(calls_of_callee.len() as int) =~= calls_of_callee);
            lemma_calls_in_two_steps(calls_before, calls_of_callee, calls@);
            lemma_more_calls(start, names, expected, function@, early, late);
            assert(late.drop_first() =~= Seq::<Invocation>::empty());
        }
        function_call_result(function, returned)
    }
}

} // verus!
