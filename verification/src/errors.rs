//! The errors of synthesis: one tier for each construct of the language.
//!
//! A failure is raised once, at the construct that found it, as a [`Fault`]
//! in the error of that construct's tier. Each layer that the failure passes
//! wraps it in the error of its own tier and returns at once.

use crate::program::Span;
use std::path::PathBuf;
use vstd::prelude::*;

verus! {

/// Why a construct could not be synthesized.
#[derive(Clone, Copy, Debug, PartialEq, Eq, Structural)]
pub enum Reason {
    /// An operand of a boolean operator is not a boolean.
    NotBoolean,
    /// An operand of an integer operator is not an integer.
    NotInteger,
    /// The operands of an integer operator have different integer types.
    IntegerTypesDiffer,
    /// A literal or a constant result lies outside its integer type.
    OutOfRange,
    /// A witness value left the range of its integer type.
    Overflow,
    /// The result of two constant field elements is no machine integer.
    Unrepresentable,
    /// The operands cannot be compared.
    IncompatibleTypes,
    /// A number without a type stands where no type can be found for it.
    UnresolvedNumber,
    /// No binding of that name is in scope.
    UndefinedIdentifier,
    /// The value indexed is not an array.
    NotArray,
    /// An index is not an unsigned integer.
    InvalidIndex,
    /// A constant index lies outside the array.
    IndexOutOfBounds,
    /// An array of no elements cannot be indexed by a wire.
    EmptyArray,
    /// The value accessed is not a tuple.
    NotTuple,
    /// The value accessed is not a circuit instance.
    NotCircuit,
    /// No circuit of that name is declared.
    UndefinedCircuit,
    /// The circuit has no member of that name.
    UndefinedMember,
    /// The members given do not match the members declared.
    MemberMismatch,
    /// The value called is not a function.
    NotFunction,
    /// The number of arguments differs from the number of parameters.
    ArityMismatch,
    /// An argument does not have the type of its parameter.
    ArgumentMismatch,
    /// The value returned does not have the declared type.
    ReturnMismatch,
    /// A function with a return type ended without returning.
    MissingReturn,
    /// Calls are nested more deeply than the synthesizer follows.
    CallDepthExceeded,
    /// The value bound does not have the declared type.
    DefinitionMismatch,
    /// The value assigned does not have the shape of the value it replaces.
    AssignmentMismatch,
    /// One branch returns a value and the other does not, or the two branches
    /// leave values of different shapes.
    BranchMismatch,
    /// A bound of a loop is not an integer known at synthesis.
    LoopBoundNotConstant,
    /// An index of an assignment is not an integer known at synthesis.
    IndexNotConstant,
    /// The program has no entry function.
    MissingEntry,
    /// An input value does not have the type of its parameter.
    InputMismatch,
    /// The value returned does not fit the declared output registers.
    RegisterMismatch,
    /// An import names a package that was not resolved.
    UnresolvedImport,
    /// An import names a symbol that its package does not define.
    UnknownSymbol,
}

impl Reason {
    /// The cause in words.
    pub open spec fn message_text(self) -> Seq<char> {
        match self {
            Reason::NotBoolean => "expected a boolean operand"@,
            Reason::NotInteger => "expected an integer operand"@,
            Reason::IntegerTypesDiffer => "the operands have different integer types"@,
            Reason::OutOfRange => "the value lies outside its integer type"@,
            Reason::Overflow => "a witness value left the range of its integer type"@,
            Reason::Unrepresentable => "the field element is too large to be represented"@,
            Reason::IncompatibleTypes => "the operands cannot be compared"@,
            Reason::UnresolvedNumber => "the type of the number cannot be found"@,
            Reason::UndefinedIdentifier => "the identifier is not defined"@,
            Reason::NotArray => "expected an array"@,
            Reason::InvalidIndex => "expected an unsigned integer index"@,
            Reason::IndexOutOfBounds => "the index lies outside the array"@,
            Reason::EmptyArray => "an empty array cannot be indexed"@,
            Reason::NotTuple => "expected a tuple"@,
            Reason::NotCircuit => "expected a circuit instance"@,
            Reason::UndefinedCircuit => "the circuit is not defined"@,
            Reason::UndefinedMember => "the circuit has no such member"@,
            Reason::MemberMismatch => "the members do not match the declaration"@,
            Reason::NotFunction => "expected a function"@,
            Reason::ArityMismatch => "the number of arguments differs from the declaration"@,
            Reason::ArgumentMismatch => "an argument does not have the declared type"@,
            Reason::ReturnMismatch => "the value returned does not have the declared type"@,
            Reason::MissingReturn => "the function ends without returning a value"@,
            Reason::CallDepthExceeded => "calls are nested too deeply"@,
            Reason::DefinitionMismatch => "the value does not have the declared type"@,
            Reason::AssignmentMismatch => "the value does not fit the assigned variable"@,
            Reason::BranchMismatch => "the branches of the conditional do not agree"@,
            Reason::LoopBoundNotConstant => "the bounds of a loop must be constant integers"@,
            Reason::IndexNotConstant => "the index of an assignment must be a constant integer"@,
            Reason::MissingEntry => "the program has no function named main"@,
            Reason::InputMismatch => "an input does not have the declared type"@,
            Reason::RegisterMismatch => "the value returned does not fit the output registers"@,
            Reason::UnresolvedImport => "the imported package was not resolved"@,
            Reason::UnknownSymbol => "the imported symbol is not defined by its package"@,
        }
    }

    /// The cause in words.
    pub fn message(self) -> (r: &'static str)
        ensures
            r@ == self.message_text(),
    {
        match self {
            Reason::NotBoolean => "expected a boolean operand",
            Reason::NotInteger => "expected an integer operand",
            Reason::IntegerTypesDiffer => "the operands have different integer types",
            Reason::OutOfRange => "the value lies outside its integer type",
            Reason::Overflow => "a witness value left the range of its integer type",
            Reason::Unrepresentable => "the field element is too large to be represented",
            Reason::IncompatibleTypes => "the operands cannot be compared",
            Reason::UnresolvedNumber => "the type of the number cannot be found",
            Reason::UndefinedIdentifier => "the identifier is not defined",
            Reason::NotArray => "expected an array",
            Reason::InvalidIndex => "expected an unsigned integer index",
            Reason::IndexOutOfBounds => "the index lies outside the array",
            Reason::EmptyArray => "an empty array cannot be indexed",
            Reason::NotTuple => "expected a tuple",
            Reason::NotCircuit => "expected a circuit instance",
            Reason::UndefinedCircuit => "the circuit is not defined",
            Reason::UndefinedMember => "the circuit has no such member",
            Reason::MemberMismatch => "the members do not match the declaration",
            Reason::NotFunction => "expected a function",
            Reason::ArityMismatch => "the number of arguments differs from the declaration",
            Reason::ArgumentMismatch => "an argument does not have the declared type",
            Reason::ReturnMismatch => "the value returned does not have the declared type",
            Reason::MissingReturn => "the function ends without returning a value",
            Reason::CallDepthExceeded => "calls are nested too deeply",
            Reason::DefinitionMismatch => "the value does not have the declared type",
            Reason::AssignmentMismatch => "the value does not fit the assigned variable",
            Reason::BranchMismatch => "the branches of the conditional do not agree",
            Reason::LoopBoundNotConstant => "the bounds of a loop must be constant integers",
            Reason::IndexNotConstant => "the index of an assignment must be a constant integer",
            Reason::MissingEntry => "the program has no function named main",
            Reason::InputMismatch => "an input does not have the declared type",
            Reason::RegisterMismatch => "the value returned does not fit the output registers",
            Reason::UnresolvedImport => "the imported package was not resolved",
            Reason::UnknownSymbol => "the imported symbol is not defined by its package",
        }
    }
}

/// The one cause of an error, and where in the source it arose.
#[derive(Clone, Copy, Debug, PartialEq, Eq, Structural)]
pub struct Fault {
    pub reason: Reason,
    pub span: Span,
}

#[derive(Clone, Copy, Debug, PartialEq, Eq, Structural)]
pub enum BooleanError {
    Error(Fault),
}

#[derive(Clone, Copy, Debug, PartialEq, Eq, Structural)]
pub enum IntegerError {
    Error(Fault),
}

#[derive(Clone, Copy, Debug, PartialEq, Eq, Structural)]
pub enum ArrayError {
    Error(Fault),
}

#[derive(Clone, Copy, Debug, PartialEq, Eq, Structural)]
pub enum CircuitError {
    Error(Fault),
}

#[derive(Debug, PartialEq, Eq)]
pub enum ExpressionError {
    Error(Fault),
    UndefinedIdentifier(Fault),
    BooleanError(BooleanError),
    IntegerError(IntegerError),
    ArrayError(ArrayError),
    CircuitError(CircuitError),
    FunctionError(Box<FunctionError>),
}

#[derive(Debug, PartialEq, Eq)]
pub enum StatementError {
    Error(Fault),
    ExpressionError(ExpressionError),
}

#[derive(Debug, PartialEq, Eq)]
pub enum FunctionError {
    Error(Fault),
    StatementError(StatementError),
    ExpressionError(ExpressionError),
    BooleanError(BooleanError),
    IntegerError(IntegerError),
}

/// A failure of a compilation, as the caller of the compiler sees it.
#[derive(Debug, PartialEq, Eq)]
pub enum CompilerError {
    /// The synthesis of a function failed.
    FunctionError(FunctionError),
    /// An import could not be resolved.
    ImportError(Fault),
    /// An input does not have its declared type, or is declared twice.
    InputError(Fault),
    /// The parser refused the source text; the error is the parser's own, unchanged.
    ParserError(String),
    /// The file at the path could not be read.
    FileReadError(PathBuf),
    /// The compilation of the file at the path failed with the error held,
    /// which is kept as it was raised.
    InFile(PathBuf, Box<CompilerError>),
}

/// Why a synthesis did not end in a circuit that its witness fulfils. The two
/// outcomes are kept apart: a program that could not be synthesized is never
/// reported as unsatisfiable.
#[derive(Debug, PartialEq, Eq)]
pub enum SynthesisError {
    /// The program was synthesized, and the witness does not fulfil the
    /// constraints.
    Unsatisfiable,
    /// The program could not be synthesized: the error held says why and
    /// where, as it was raised.
    Malformed(CompilerError),
}

/// The error `error`, with the path of the file whose compilation raised it.
pub open spec fn in_file(path: PathBuf, error: CompilerError) -> CompilerError {
    CompilerError::InFile(path, Box::new(error))
}

pub open spec fn fault(reason: Reason, span: Span) -> Fault {
    Fault { reason, span }
}

pub open spec fn boolean_fault(reason: Reason, span: Span) -> ExpressionError {
    ExpressionError::BooleanError(BooleanError::Error(Fault { reason, span }))
}

pub open spec fn integer_fault(reason: Reason, span: Span) -> ExpressionError {
    ExpressionError::IntegerError(IntegerError::Error(Fault { reason, span }))
}

pub open spec fn array_fault(reason: Reason, span: Span) -> ExpressionError {
    ExpressionError::ArrayError(ArrayError::Error(Fault { reason, span }))
}

pub open spec fn circuit_fault(reason: Reason, span: Span) -> ExpressionError {
    ExpressionError::CircuitError(CircuitError::Error(Fault { reason, span }))
}

pub open spec fn expression_fault(reason: Reason, span: Span) -> ExpressionError {
    ExpressionError::Error(Fault { reason, span })
}

pub open spec fn function_fault(reason: Reason, span: Span) -> ExpressionError {
    ExpressionError::FunctionError(Box::new(FunctionError::Error(Fault { reason, span })))
}

pub open spec fn statement_fault(reason: Reason, span: Span) -> StatementError {
    StatementError::Error(Fault { reason, span })
}

pub fn boolean_error(reason: Reason, span: Span) -> (e: ExpressionError)
    ensures
        e == boolean_fault(reason, span),
{
    ExpressionError::BooleanError(BooleanError::Error(Fault { reason, span }))
}

pub fn integer_error(reason: Reason, span: Span) -> (e: ExpressionError)
    ensures
        e == integer_fault(reason, span),
{
    ExpressionError::IntegerError(IntegerError::Error(Fault { reason, span }))
}

pub fn array_error(reason: Reason, span: Span) -> (e: ExpressionError)
    ensures
        e == array_fault(reason, span),
{
    ExpressionError::ArrayError(ArrayError::Error(Fault { reason, span }))
}

pub fn circuit_error(reason: Reason, span: Span) -> (e: ExpressionError)
    ensures
        e == circuit_fault(reason, span),
{
    ExpressionError::CircuitError(CircuitError::Error(Fault { reason, span }))
}

pub fn expression_error(reason: Reason, span: Span) -> (e: ExpressionError)
    ensures
        e == expression_fault(reason, span),
{
    ExpressionError::Error(Fault { reason, span })
}

pub fn function_error(reason: Reason, span: Span) -> (e: ExpressionError)
    ensures
        e == function_fault(reason, span),
{
    ExpressionError::FunctionError(Box::new(FunctionError::Error(Fault { reason, span })))
}

pub fn statement_error(reason: Reason, span: Span) -> (e: StatementError)
    ensures
        e == statement_fault(reason, span),
{
    StatementError::Error(Fault { reason, span })
}

} // verus!
