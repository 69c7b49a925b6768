//! Expression evaluation for a language that compiles to arithmetic constraints.
//!
//! An expression is lowered into constraints over a prime field while the value that
//! satisfies them is computed alongside. [`program::ConstrainedProgram`] holds what
//! is bound under each scope path and evaluates expressions with
//! [`enforce_expression`](program::ConstrainedProgram::enforce_expression);
//! [`constraint_system::ConstraintSystem`] records each gadget that an evaluation
//! enforces, with the witnesses of its operands and of its result.
//!
//! What an expression is worth is defined once, by [`semantics::evaluate`], and the
//! evaluator is proved to compute exactly that. The bodies of functions are run by
//! whoever implements [`program::FunctionInvoker`]; an evaluation is stated for the
//! calls that it made, which [`program::Invocations`] keeps for the proofs.
//! [`laws`] holds what is proved of every evaluation.
pub mod arrays;
pub mod ast;
pub mod circuits;
pub mod constraint_system;
pub mod errors;
pub mod expression;
pub mod field;
pub mod functions;
pub mod group;
pub mod integer;
pub mod laws;
pub mod operators;
pub mod program;
pub mod semantics;
pub mod text;
pub mod types;
pub mod value;
