//! Arrays: what their elements are expected to be, their parts and their elements.
use vstd::prelude::*;
use crate::errors::ExpressionError;
use crate::integer::GadgetError;
use crate::integer::Integer;
use crate::operators::result_model;
use crate::program::ConstrainedProgram;
use crate::semantics::array_checked;
use crate::semantics::array_elements;
use crate::semantics::element_types;
use crate::semantics::index_of;
use crate::semantics::indexed;
use crate::semantics::scopes;
use crate::semantics::sliced;
use crate::semantics::spread_values;
use crate::text::new_scope;
use crate::text::parse_number;
use crate::types::Identifier;
use crate::types::Type;
use crate::types::types_model;
use crate::value::ConstrainedValue;
use crate::value::ValueModel;
use crate::value::duplicate_values;
use crate::value::values_model;

verus! {

/// The types expected of the elements of an array expression.
pub fn element_types_of(expected_types: &Vec<Type>) -> (r: Result<Vec<Type>, ExpressionError>)
    ensures
        match element_types(types_model(expected_types@)) {
            Ok(inner) => r matches Ok(found) && types_model(found@) == inner,
            Err(error) => r matches Err(found) && found@ == error,
        },
{
    if expected_types.len() == 0 {
        let inner: Vec<Type> = Vec::new();
        return Ok(inner);
    }
    match &expected_types[0] {
        Type::Array(_, _) => {
            let mut inner: Vec<Type> = Vec::new();
            inner.push(expected_types[0].inner_dimension());
            Ok(inner)
        },
        other => Err(ExpressionError::IncompatibleTypes(other.to_text())),
    }
}

/// Holds the values of an array expression against the innermost dimension of the
/// expected type and makes the array of them.
pub fn check_array(expected_types: &Vec<Type>, values: Vec<ConstrainedValue>) -> (r: Result<
    ConstrainedValue,
    ExpressionError,
>)
    ensures
        result_model(r) == array_checked(types_model(expected_types@), values_model(values)),
{
    if expected_types.len() > 0 {
        match &expected_types[0] {
            Type::Array(_, dimensions) => {
                if dimensions.len() > 0 {
                    let innermost: usize = dimensions[dimensions.len() - 1];
                    if innermost != values.len() {
                        return Err(ExpressionError::InvalidLength(innermost, values.len()));
                    }
                }
            },
            _ => {},
        }
    }
    Ok(ConstrainedValue::Array(values))
}

/// The elements of an array value, assignable or not.
pub fn array_values(value: ConstrainedValue) -> (r: Result<Vec<ConstrainedValue>, ExpressionError>)
    ensures
        match array_elements(value@) {
            Ok(values) => r matches Ok(found) && values_model(found) == values,
            Err(error) => r matches Err(found) && found@ == error,
        },
{
    match value {
        ConstrainedValue::Array(values) => {
            Ok(values)
        },
        ConstrainedValue::Mutable(inner) => {
            match *inner {
                ConstrainedValue::Array(values) => {
                    assert(inner@ == ValueModel::Array(values_model(values)));
                    Ok(values)
                },
                other => {
                    Err(ExpressionError::InvalidArrayAccess(other.to_text()))
                },
            }
        },
        other => {
            Err(ExpressionError::InvalidArrayAccess(other.to_text()))
        },
    }
}

/// A copy of the part of an array between two bounds.
pub fn slice_values(values: &Vec<ConstrainedValue>, from: &Option<Integer>, to: &Option<Integer>) -> (r:
    Result<ConstrainedValue, ExpressionError>)
    ensures
        result_model(r) == sliced(values_model(*values), *from, *to),
{
    let from: usize = match from {
        Some(bound) => match bound.to_usize() {
            Some(from) => from,
            None => {
                return Err(ExpressionError::GadgetError(GadgetError::OutOfBounds));
            },
        },
        None => 0,
    };
    let to: usize = match to {
        Some(bound) => match bound.to_usize() {
            Some(to) => to,
            None => {
                return Err(ExpressionError::GadgetError(GadgetError::OutOfBounds));
            },
        },
        None => values.len(),
    };
    if !(from <= to && to <= values.len()) {
        return Err(ExpressionError::GadgetError(GadgetError::OutOfBounds));
    }
    let mut part: Vec<ConstrainedValue> = Vec::new();
    let mut i: usize = from;
    while i < to
        invariant
            from <= i <= to <= values.len(),
            part.len() == i - from,
            forall|j: int| 0 <= j < part.len() ==> part[j]@ == values[from + j]@,
        decreases to - i,
    {
        part.push(values[i].duplicate());
        i = i + 1;
    }
    assert(values_model(part) =~= values_model(*values).subrange(from as int, to as int));
    Ok(ConstrainedValue::Array(part))
}

/// A copy of the element of an array at an index.
pub fn index_values(values: &Vec<ConstrainedValue>, index: usize) -> (r: Result<
    ConstrainedValue,
    ExpressionError,
>)
    ensures
        result_model(r) == indexed(values_model(*values), index),
{
    if index < values.len() {
        Ok(values[index].duplicate())
    } else {
        Err(ExpressionError::GadgetError(GadgetError::OutOfBounds))
    }
}

/// The index that a value stands for.
pub fn index_from_value(value: &ConstrainedValue) -> (r: Result<usize, ExpressionError>)
    ensures
        match index_of(value@) {
            Ok(index) => r == Ok::<usize, ExpressionError>(index),
            Err(error) => r matches Err(found) && found@ == error,
        },
{
    match value {
        ConstrainedValue::Integer(integer) => match integer.to_usize() {
            Some(index) => Ok(index),
            None => Err(ExpressionError::InvalidIndex(value.to_text())),
        },
        ConstrainedValue::Unresolved(text) => match parse_number(text.as_str(), usize::MAX as u128) {
            Some(index) => Ok(index as usize),
            None => Err(ExpressionError::InvalidIndex(value.to_text())),
        },
        _ => Err(ExpressionError::InvalidIndex(value.to_text())),
    }
}

impl ConstrainedProgram {
    /// Copies of the values that a spread of the variable `identifier` stands for.
    pub fn spread_of(&self, file_scope: &str, function_scope: &str, identifier: &Identifier) -> (r:
        Result<Vec<ConstrainedValue>, ExpressionError>)
        ensures
            match spread_values(self@, scopes(file_scope@, function_scope@), identifier@) {
                Ok(values) => r matches Ok(found) && values_model(found) == values,
                Err(error) => r matches Err(found) && found@ == error,
            },
    {
        let path = new_scope(function_scope, identifier.name.as_str());
        match self.get(path.as_str()) {
            Some(value) => match value {
                ConstrainedValue::Array(values) => Ok(duplicate_values(values)),
                other => Err(ExpressionError::InvalidSpread(other.to_text())),
            },
            None => Err(ExpressionError::UndefinedArray(identifier.name.clone())),
        }
    }
}

} // verus!
