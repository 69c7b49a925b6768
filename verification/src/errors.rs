//! What an evaluation fails with.
use vstd::prelude::*;
use crate::integer::GadgetError;

verus! {

/// The failure of a function body, as whoever ran it reports it.
#[derive(Debug, PartialEq, Eq)]
pub struct FunctionError {
    pub message: String,
}

/// Why an expression has no value.
#[derive(Debug, PartialEq, Eq)]
pub enum ExpressionError {
    /// A name is bound neither in the function scope nor in the file scope.
    UndefinedIdentifier(String),
    /// A spread names no bound variable.
    UndefinedArray(String),
    /// A record expression names no record type.
    UndefinedCircuit(String),
    /// A record has no member of that name.
    UndefinedCircuitObject(String),
    /// A record type, and a name under which it has no function.
    UndefinedStaticFunction(String, String),
    /// What is called is no function.
    UndefinedFunction(String),
    /// An operator has no meaning on its two operands.
    IncompatibleTypes(String),
    /// What is spread is no array.
    InvalidSpread(String),
    /// An index is no number that can count elements.
    InvalidIndex(String),
    /// An array should have the first length and has the second.
    InvalidLength(usize, usize),
    /// What is indexed is no array.
    InvalidArrayAccess(String),
    /// What a member is asked of is no record.
    InvalidCircuitAccess(String),
    /// A function reached through a record type is not static.
    InvalidStaticFunction(String),
    /// The exponent is a field element.
    InvalidExponent(String),
    /// The condition of a choice is no boolean.
    IfElseConditional(String),
    /// A function body handed back no return value.
    FunctionDidNotReturn(String),
    /// A record expression binds no expression to a field.
    ExpectedCircuitValue(String),
    /// A number, and the type under which it cannot be read.
    InvalidNumber(String, String),
    /// A gadget could not witness a result.
    GadgetError(GadgetError),
    /// A function body failed.
    FunctionError(FunctionError),
}

/// What an [`ExpressionError`] stands for.
pub enum ErrorModel {
    UndefinedIdentifier(Seq<char>),
    UndefinedArray(Seq<char>),
    UndefinedCircuit(Seq<char>),
    UndefinedCircuitObject(Seq<char>),
    UndefinedStaticFunction(Seq<char>, Seq<char>),
    UndefinedFunction(Seq<char>),
    IncompatibleTypes(Seq<char>),
    InvalidSpread(Seq<char>),
    InvalidIndex(Seq<char>),
    InvalidLength(usize, usize),
    InvalidArrayAccess(Seq<char>),
    InvalidCircuitAccess(Seq<char>),
    InvalidStaticFunction(Seq<char>),
    InvalidExponent(Seq<char>),
    IfElseConditional(Seq<char>),
    FunctionDidNotReturn(Seq<char>),
    ExpectedCircuitValue(Seq<char>),
    InvalidNumber(Seq<char>, Seq<char>),
    GadgetError(GadgetError),
    FunctionError(Seq<char>),
}

impl View for ExpressionError {
    type V = ErrorModel;

    open spec fn view(&self) -> ErrorModel {
        match self {
            ExpressionError::UndefinedIdentifier(name) => ErrorModel::UndefinedIdentifier(name@),
            ExpressionError::UndefinedArray(name) => ErrorModel::UndefinedArray(name@),
            ExpressionError::UndefinedCircuit(name) => ErrorModel::UndefinedCircuit(name@),
            ExpressionError::UndefinedCircuitObject(name) => ErrorModel::UndefinedCircuitObject(
                name@,
            ),
            ExpressionError::UndefinedStaticFunction(circuit, name) => ErrorModel::UndefinedStaticFunction(
                circuit@,
                name@,
            ),
            ExpressionError::UndefinedFunction(text) => ErrorModel::UndefinedFunction(text@),
            ExpressionError::IncompatibleTypes(text) => ErrorModel::IncompatibleTypes(text@),
            ExpressionError::InvalidSpread(text) => ErrorModel::InvalidSpread(text@),
            ExpressionError::InvalidIndex(text) => ErrorModel::InvalidIndex(text@),
            ExpressionError::InvalidLength(expected, found) => ErrorModel::InvalidLength(
                *expected,
                *found,
            ),
            ExpressionError::InvalidArrayAccess(text) => ErrorModel::InvalidArrayAccess(text@),
            ExpressionError::InvalidCircuitAccess(text) => ErrorModel::InvalidCircuitAccess(text@),
            ExpressionError::InvalidStaticFunction(name) => ErrorModel::InvalidStaticFunction(name@),
            ExpressionError::InvalidExponent(text) => ErrorModel::InvalidExponent(text@),
            ExpressionError::IfElseConditional(text) => ErrorModel::IfElseConditional(text@),
            ExpressionError::FunctionDidNotReturn(name) => ErrorModel::FunctionDidNotReturn(name@),
            ExpressionError::ExpectedCircuitValue(name) => ErrorModel::ExpectedCircuitValue(name@),
            ExpressionError::InvalidNumber(text, expected) => ErrorModel::InvalidNumber(
                text@,
                expected@,
            ),
            ExpressionError::GadgetError(error) => ErrorModel::GadgetError(*error),
            ExpressionError::FunctionError(error) => ErrorModel::FunctionError(error.message@),
        }
    }
}

} // verus!
