//! Calls: which function a call runs, and what the call is worth.
use vstd::prelude::*;
use crate::ast::Expression;
use crate::errors::ExpressionError;
use crate::errors::FunctionError;
use crate::operators::result_model;
use crate::semantics::call_result;
use crate::semantics::callee;
use crate::semantics::scopes;
use crate::text::new_scope;
use crate::types::Function;
use crate::value::ConstrainedValue;
use crate::value::ValueModel;
use crate::value::values_model;

verus! {

/// What the outcome of a function body stands for.
pub open spec fn returned_model(returned: Result<ConstrainedValue, FunctionError>) -> Result<
    ValueModel,
    Seq<char>,
> {
    match returned {
        Ok(value) => Ok(value@),
        Err(error) => Err(error.message@),
    }
}

/// The function that a call of `value` runs, and the scope below which it runs.
pub fn resolve_callee(file_scope: &str, function_scope: &str, value: ConstrainedValue) -> (r: Result<
    (String, Function),
    ExpressionError,
>)
    ensures
        match callee(scopes(file_scope@, function_scope@), value@) {
            Ok(found) => r matches Ok(pair) && pair.0@ == found.0 && pair.1@ == found.1,
            Err(error) => r matches Err(found) && found@ == error,
        },
{
    match value {
        ConstrainedValue::Function(owner, function) => {
            let outer_scope = match owner {
                Some(circuit) => new_scope(file_scope, circuit.name.as_str()),
                None => String::from_str(file_scope),
            };
            Ok((outer_scope, function))
        },
        other => {
            Err(ExpressionError::UndefinedFunction(other.to_text()))
        },
    }
}

/// The value of a call of `callee`, from what the function's body handed back.
pub fn function_call_result(callee: &Expression, returned: Result<ConstrainedValue, FunctionError>) -> (r:
    Result<ConstrainedValue, ExpressionError>)
    ensures
        result_model(r) == call_result(callee@, returned_model(returned)),
{
    match returned {
        Ok(ConstrainedValue::Return(mut values)) => {
            let ghost before = values_model(values);
            if values.len() == 1 {
                match values.pop() {
                    Some(value) => {
                        assert(before[0] == value@);
                        Ok(value)
                    },
                    None => Ok(ConstrainedValue::Return(values)),
                }
            } else {
                Ok(ConstrainedValue::Return(values))
            }
        },
        Ok(_) => Err(ExpressionError::FunctionDidNotReturn(callee.to_text())),
        Err(error) => Err(ExpressionError::FunctionError(error)),
    }
}

} // verus!
