//! The typed program model: what a parser hands to the synthesizer.

use crate::integer::IntegerType;
use vstd::prelude::*;

verus! {

/// A place in the source text.
#[derive(Clone, Copy, Debug, PartialEq, Eq, Structural)]
pub struct Span {
    pub line: u32,
    pub start: u32,
    pub end: u32,
}

/// A name, and where it was written.
#[derive(Clone, Debug)]
pub struct Identifier {
    pub name: String,
    pub span: Span,
}

/// The types that a value of the language can have.
#[derive(Debug)]
pub enum Type {
    Boolean,
    Integer(IntegerType),
    Field,
    Group,
    Array(Box<Type>, usize),
    Tuple(Vec<Type>),
    Circuit(String),
}

/// The operators with two operands.
#[derive(Clone, Copy, Debug, PartialEq, Eq, Structural)]
pub enum BinaryOperator {
    And,
    Or,
    Eq,
    Ne,
    Ge,
    Gt,
    Le,
    Lt,
    Add,
    Sub,
    Mul,
}

/// A member of a circuit expression: `name: expression`.
#[derive(Debug)]
pub struct CircuitVariable {
    pub name: Identifier,
    pub expression: Expression,
}

#[derive(Debug)]
pub enum Expression {
    /// A name in scope, or the name of a function.
    Identifier(Identifier),
    /// `true` or `false`.
    Boolean(bool, Span),
    /// A number with its integer type, as in `1u32`.
    Integer(IntegerType, i128, Span),
    /// A number without a type.
    Implicit(i128, Span),
    /// A field element, as in `1field`.
    Field(i128, Span),
    /// `!operand`.
    Not(Box<Expression>, Span),
    Binary(BinaryOperator, Box<Expression>, Box<Expression>, Span),
    /// `[a, b, c]`.
    Array(Vec<Expression>, Span),
    /// `array[index]`.
    ArrayAccess(Box<Expression>, Box<Expression>, Span),
    /// `(a, b, c)`.
    Tuple(Vec<Expression>, Span),
    /// `tuple.0`.
    TupleAccess(Box<Expression>, usize, Span),
    /// `Name { member: value }`.
    Circuit(Identifier, Vec<CircuitVariable>, Span),
    /// `instance.member`.
    CircuitMember(Box<Expression>, Identifier, Span),
    /// `function(arguments)`.
    Call(Identifier, Vec<Expression>, Span),
}

/// One step from a variable into the value it holds.
#[derive(Debug)]
pub enum Access {
    /// `[index]`.
    Index(Expression),
    /// `.member`.
    Member(Identifier),
}

/// The target of an assignment: a variable, or a part of the value it holds.
#[derive(Debug)]
pub struct Assignee {
    pub identifier: Identifier,
    pub accesses: Vec<Access>,
}

#[derive(Debug)]
pub enum Statement {
    /// `return expression`.
    Return(Expression, Span),
    /// `let name: type = expression`, the type being optional.
    Definition(Identifier, Option<Type>, Expression, Span),
    /// `assignee = expression`.
    Assign(Assignee, Expression, Span),
    /// `if condition { .. } else { .. }`.
    Conditional(Expression, Vec<Statement>, Vec<Statement>, Span),
    /// `for name in start..stop { .. }`.
    Iteration(Identifier, Expression, Expression, Vec<Statement>, Span),
    /// `assert(condition)`.
    Assert(Expression, Span),
    /// `assert_eq(left, right)`.
    AssertEq(Expression, Expression, Span),
    /// An expression whose value is dropped.
    Expression(Expression, Span),
}

/// A parameter of a function.
#[derive(Debug)]
pub struct Parameter {
    pub name: Identifier,
    pub ty: Type,
}

#[derive(Debug)]
pub struct Function {
    pub name: Identifier,
    pub parameters: Vec<Parameter>,
    pub output: Option<Type>,
    pub body: Vec<Statement>,
    pub span: Span,
}

/// A member that a circuit declares.
#[derive(Debug)]
pub struct CircuitMember {
    pub name: Identifier,
    pub ty: Type,
}

/// A composite type with named members.
#[derive(Debug)]
pub struct Circuit {
    pub name: Identifier,
    pub members: Vec<CircuitMember>,
}

/// `import package.symbol`.
#[derive(Clone, Debug)]
pub struct Import {
    pub package: String,
    pub symbol: String,
    pub span: Span,
}

/// One source file, parsed: its imports, circuits and functions.
#[derive(Debug)]
pub struct Program {
    pub name: String,
    pub imports: Vec<Import>,
    pub circuits: Vec<Circuit>,
    pub functions: Vec<Function>,
}

/// The mathematical content of a [`Type`].
pub enum TypeModel {
    Boolean,
    Integer(IntegerType),
    Field,
    Group,
    Array(Box<TypeModel>, usize),
    Tuple(Seq<TypeModel>),
    Circuit(Seq<char>),
}

/// The mathematical content of a type.
pub open spec fn type_model(ty: Type) -> TypeModel
    decreases ty,
{
    match ty {
        Type::Boolean => TypeModel::Boolean,
        Type::Integer(t) => TypeModel::Integer(t),
        Type::Field => TypeModel::Field,
        Type::Group => TypeModel::Group,
        Type::Array(element, length) => TypeModel::Array(Box::new(type_model(*element)), length),
        Type::Tuple(elements) => TypeModel::Tuple(
            Seq::new(
                elements@.len(),
                |i: int|
                    if 0 <= i < elements@.len() {
                        type_model(elements@[i])
                    } else {
                        TypeModel::Boolean
                    },
            ),
        ),
        Type::Circuit(name) => TypeModel::Circuit(name@),
    }
}

impl View for Type {
    type V = TypeModel;

    open spec fn view(&self) -> TypeModel {
        type_model(*self)
    }
}

impl Expression {
    /// Where the expression was written.
    pub open spec fn spec_span(&self) -> Span {
        match self {
            Expression::Identifier(identifier) => identifier.span,
            Expression::Boolean(_, span) => *span,
            Expression::Integer(_, _, span) => *span,
            Expression::Implicit(_, span) => *span,
            Expression::Field(_, span) => *span,
            Expression::Not(_, span) => *span,
            Expression::Binary(_, _, _, span) => *span,
            Expression::Array(_, span) => *span,
            Expression::ArrayAccess(_, _, span) => *span,
            Expression::Tuple(_, span) => *span,
            Expression::TupleAccess(_, _, span) => *span,
            Expression::Circuit(_, _, span) => *span,
            Expression::CircuitMember(_, _, span) => *span,
            Expression::Call(_, _, span) => *span,
        }
    }
}

impl Expression {
    /// The expression, written at `span`.
    pub open spec fn with_span(self, span: Span) -> Expression {
        match self {
            Expression::Identifier(identifier) => Expression::Identifier(
                Identifier { name: identifier.name, span },
            ),
            Expression::Boolean(literal, _) => Expression::Boolean(literal, span),
            Expression::Integer(ty, literal, _) => Expression::Integer(ty, literal, span),
            Expression::Implicit(literal, _) => Expression::Implicit(literal, span),
            Expression::Field(literal, _) => Expression::Field(literal, span),
            Expression::Not(operand, _) => Expression::Not(operand, span),
            Expression::Binary(op, left, right, _) => Expression::Binary(op, left, right, span),
            Expression::Array(elements, _) => Expression::Array(elements, span),
            Expression::ArrayAccess(array, place, _) => Expression::ArrayAccess(array, place, span),
            Expression::Tuple(elements, _) => Expression::Tuple(elements, span),
            Expression::TupleAccess(tuple, place, _) => Expression::TupleAccess(tuple, place, span),
            Expression::Circuit(name, members, _) => Expression::Circuit(name, members, span),
            Expression::CircuitMember(instance, member, _) => Expression::CircuitMember(
                instance,
                member,
                span,
            ),
            Expression::Call(name, arguments, _) => Expression::Call(name, arguments, span),
        }
    }
}

impl Statement {
    /// The statement, written at `span`.
    pub open spec fn with_span(self, span: Span) -> Statement {
        match self {
            Statement::Return(value, _) => Statement::Return(value, span),
            Statement::Definition(name, declared, value, _) => Statement::Definition(
                name,
                declared,
                value,
                span,
            ),
            Statement::Assign(assignee, value, _) => Statement::Assign(assignee, value, span),
            Statement::Conditional(condition, first, second, _) => Statement::Conditional(
                condition,
                first,
                second,
                span,
            ),
            Statement::Iteration(variable, lower, upper, body, _) => Statement::Iteration(
                variable,
                lower,
                upper,
                body,
                span,
            ),
            Statement::Assert(condition, _) => Statement::Assert(condition, span),
            Statement::AssertEq(left, right, _) => Statement::AssertEq(left, right, span),
            Statement::Expression(value, _) => Statement::Expression(value, span),
        }
    }

    /// Where the statement was written.
    pub open spec fn spec_span(&self) -> Span {
        match self {
            Statement::Return(_, span) => *span,
            Statement::Definition(_, _, _, span) => *span,
            Statement::Assign(_, _, span) => *span,
            Statement::Conditional(_, _, _, span) => *span,
            Statement::Iteration(_, _, _, _, span) => *span,
            Statement::Assert(_, span) => *span,
            Statement::AssertEq(_, _, span) => *span,
            Statement::Expression(_, span) => *span,
        }
    }
}

/// A node of the syntax tree: it knows where in the source it was written.
pub trait Node {
    spec fn node_span(&self) -> Span;

    /// Returns the span of the node.
    fn span(&self) -> (s: Span)
        ensures
            s == self.node_span(),
    ;

    /// Sets the span of the node.
    fn set_span(&mut self, span: Span)
        ensures
            final(self).node_span() == span,
    ;
}

impl Node for Identifier {
    open spec fn node_span(&self) -> Span {
        self.span
    }

    fn span(&self) -> (s: Span) {
        self.span
    }

    fn set_span(&mut self, span: Span)
        ensures
            final(self).name == old(self).name,
    {
        self.span = span;
    }
}

impl Node for Expression {
    open spec fn node_span(&self) -> Span {
        self.spec_span()
    }

    fn span(&self) -> (s: Span) {
        match self {
            Expression::Identifier(identifier) => identifier.span,
            Expression::Boolean(_, span) => *span,
            Expression::Integer(_, _, span) => *span,
            Expression::Implicit(_, span) => *span,
            Expression::Field(_, span) => *span,
            Expression::Not(_, span) => *span,
            Expression::Binary(_, _, _, span) => *span,
            Expression::Array(_, span) => *span,
            Expression::ArrayAccess(_, _, span) => *span,
            Expression::Tuple(_, span) => *span,
            Expression::TupleAccess(_, _, span) => *span,
            Expression::Circuit(_, _, span) => *span,
            Expression::CircuitMember(_, _, span) => *span,
            Expression::Call(_, _, span) => *span,
        }
    }

    fn set_span(&mut self, span: Span)
        ensures
            *final(self) == old(self).with_span(span),
    {
        match self {
            Expression::Identifier(identifier) => {
                identifier.span = span;
            },
            Expression::Boolean(_, s) => {
                *s = span;
            },
            Expression::Integer(_, _, s) => {
                *s = span;
            },
            Expression::Implicit(_, s) => {
                *s = span;
            },
            Expression::Field(_, s) => {
                *s = span;
            },
            Expression::Not(_, s) => {
                *s = span;
            },
            Expression::Binary(_, _, _, s) => {
                *s = span;
            },
            Expression::Array(_, s) => {
                *s = span;
            },
            Expression::ArrayAccess(_, _, s) => {
                *s = span;
            },
            Expression::Tuple(_, s) => {
                *s = span;
            },
            Expression::TupleAccess(_, _, s) => {
                *s = span;
            },
            Expression::Circuit(_, _, s) => {
                *s = span;
            },
            Expression::CircuitMember(_, _, s) => {
                *s = span;
            },
            Expression::Call(_, _, s) => {
                *s = span;
            },
        }
    }
}

impl Node for Statement {
    open spec fn node_span(&self) -> Span {
        self.spec_span()
    }

    fn span(&self) -> (s: Span) {
        match self {
            Statement::Return(_, span) => *span,
            Statement::Definition(_, _, _, span) => *span,
            Statement::Assign(_, _, span) => *span,
            Statement::Conditional(_, _, _, span) => *span,
            Statement::Iteration(_, _, _, _, span) => *span,
            Statement::Assert(_, span) => *span,
            Statement::AssertEq(_, _, span) => *span,
            Statement::Expression(_, span) => *span,
        }
    }

    fn set_span(&mut self, span: Span)
        ensures
            *final(self) == old(self).with_span(span),
    {
        match self {
            Statement::Return(_, s) => {
                *s = span;
            },
            Statement::Definition(_, _, _, s) => {
                *s = span;
            },
            Statement::Assign(_, _, s) => {
                *s = span;
            },
            Statement::Conditional(_, _, _, s) => {
                *s = span;
            },
            Statement::Iteration(_, _, _, _, s) => {
                *s = span;
            },
            Statement::Assert(_, s) => {
                *s = span;
            },
            Statement::AssertEq(_, _, s) => {
                *s = span;
            },
            Statement::Expression(_, s) => {
                *s = span;
            },
        }
    }
}

impl Node for Function {
    open spec fn node_span(&self) -> Span {
        self.span
    }

    fn span(&self) -> (s: Span) {
        self.span
    }

    fn set_span(&mut self, span: Span)
        ensures
            final(self).name == old(self).name,
            final(self).parameters == old(self).parameters,
            final(self).output == old(self).output,
            final(self).body == old(self).body,
    {
        self.span = span;
    }
}

} // verus!
