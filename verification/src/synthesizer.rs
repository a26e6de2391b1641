//! The expression synthesizer and the statement synthesizer.
//!
//! Synthesis walks the program in source order and writes into one ledger.
//! Nothing in it branches on a witness value: a conditional synthesizes both of
//! its branches, each on the scope that the conditional found, and then merges
//! what they left by selections on the wire of the condition. The ledger that a
//! program leaves therefore has one shape, whatever its inputs are.
//!
//! Each synthesizer exists twice: as a spec function, which says what is
//! synthesized, and as the executable function that does it.

use crate::access::{
    find_text, index, index_of, index_spec, member_access, member_access_spec, position,
    tuple_access, tuple_access_spec, Index,
};
use crate::arithmetic::{arithmetic_result, constant_integer, constant_integer_spec};
use crate::boolean::{enforce_true, true_constraint};
use crate::calls::{
    enter, enter_spec, finish, finish_spec, instantiate, instantiate_spec, resolve_name,
    resolve_name_spec,
};
use crate::errors::{
    array_error, array_fault, boolean_error, boolean_fault, circuit_error, circuit_fault,
    expression_error, expression_fault, function_error, function_fault, integer_error,
    integer_fault, statement_error, statement_fault, ExpressionError, FunctionError, Reason,
    StatementError,
};
use crate::integer::IntegerType;
use crate::ledger::{lemma_mark, lemma_proceeds_transitive, ConstraintLedger, LedgerModel};
use crate::operators::{
    arithmetic_of, binary, binary_spec, boolean_literal, boolean_literal_spec, field_literal,
    field_literal_spec, integer_literal, integer_literal_spec, integer_value, is_boolean,
    is_logical, not_value, not_value_spec, outcome, resolve, resolve_like, resolve_like_spec,
    resolve_spec, Evaluated,
};
use crate::program::{
    type_model, Access, BinaryOperator, CircuitVariable, Expression, Identifier, Program, Span,
    Statement, Type, TypeModel,
};
use crate::scope::{
    lemma_assign_ok, lemma_define_ok, lemma_lookup_ok, lemma_push_pop, lemma_scope_ok_extends,
    merge_scope_spec, scope_assign, scope_define, scope_lookup, scope_ok, scope_pop, scope_push,
    scopes_compatible, ScopeModel, SymbolScope,
};
use crate::value::{
    compatible, equal_value, equal_value_spec, lemma_models_push, lemma_value_ok_extends,
    lemma_values_ok_extends, lemma_view, models, no_values, option_model, select_value,
    select_value_spec, texts, value_ok, values_ok, Scalar, Value, ValueModel,
};
use vstd::prelude::*;

verus! {

/// What a statement leaves: the value it returned, if it returned, or why it
/// failed; the scope; and the ledger.
pub type Executed = (Result<Option<ValueModel>, StatementError>, ScopeModel, LedgerModel);

pub type EvaluatedList = (Result<Seq<ValueModel>, ExpressionError>, LedgerModel);

/// The deepest nesting of calls that synthesis follows.
pub const MAX_CALL_DEPTH: usize = 64;

/// The statement holds no assertion, in itself or in a block of its own.
pub open spec fn statement_safe(statement: Statement) -> bool
    decreases statement,
{
    match statement {
        Statement::Assert(_, _) => false,
        Statement::AssertEq(_, _, _) => false,
        Statement::Conditional(_, first, second, _) => block_safe(first) && block_safe(second),
        Statement::Iteration(_, _, _, body, _) => block_safe(body),
        _ => true,
    }
}

pub open spec fn block_safe(statements: Vec<Statement>) -> bool
    decreases statements,
{
    forall|i: int| 0 <= i < statements@.len() ==> statement_safe(#[trigger] statements@[i])
}

/// No function of the program holds an assertion.
pub open spec fn assertion_free(program: Program) -> bool {
    forall|i: int|
        0 <= i < program.functions@.len() ==> block_safe(#[trigger] program.functions@[i].body)
}

/// The values are of one shape, and none is a number without a type.
pub open spec fn uniform(values: Seq<ValueModel>) -> bool {
    forall|i: int| 0 <= i < values.len() ==> compatible(values[0], #[trigger] values[i])
}

/// No value is, or holds, a number without a type.
pub open spec fn settled(values: Seq<ValueModel>) -> bool {
    forall|i: int| 0 <= i < values.len() ==> compatible(#[trigger] values[i], values[i])
}

/// The names of the members of a circuit expression.
pub open spec fn member_names(members: Seq<CircuitVariable>) -> Seq<Seq<char>> {
    Seq::new(members.len(), |i: int| members[i].name.name@)
}

/// A number known at synthesis, and its integer type if it has one.
pub open spec fn bound_of(value: ValueModel) -> Option<(i128, Option<IntegerType>)> {
    match value {
        ValueModel::Scalar(Scalar::Unresolved(n)) => Some((n, None)),
        ValueModel::Scalar(Scalar::Integer { ty, constant: Some(n), .. }) => Some((n, Some(ty))),
        _ => None,
    }
}

/// The type of a loop variable: that of the upper bound, else that of the
/// lower bound, else `u32`.
pub open spec fn loop_type(lower: Option<IntegerType>, upper: Option<IntegerType>) -> IntegerType {
    match upper {
        Some(t) => t,
        None => match lower {
            Some(t) => t,
            None => IntegerType::U32,
        },
    }
}

pub open spec fn wrap(error: ExpressionError) -> StatementError {
    StatementError::ExpressionError(error)
}

pub open spec fn call_failure(error: StatementError) -> ExpressionError {
    ExpressionError::FunctionError(Box::new(FunctionError::StatementError(error)))
}

/// What a conditional leaves after both of its branches were synthesized.
/// Where neither branch returned, every binding of the scope becomes the
/// selection between what the two branches left in it. Where both returned,
/// the conditional returns the selection between the two values.
pub open spec fn join_spec(
    ledger: LedgerModel,
    c: usize,
    scope: ScopeModel,
    first_scope: ScopeModel,
    first: Option<ValueModel>,
    second_scope: ScopeModel,
    second: Option<ValueModel>,
    span: Span,
) -> Executed {
    match (first, second) {
        (None, None) => if scopes_compatible(first_scope, second_scope) {
            let m = merge_scope_spec(ledger, c, first_scope, second_scope, 0, Seq::empty());
            (Ok(None), m.0, m.1)
        } else {
            (Err(statement_fault(Reason::BranchMismatch, span)), scope, ledger)
        },
        (Some(a), Some(b)) => if compatible(a, b) {
            let s = select_value_spec(ledger, c, a, b);
            (Ok(Some(s.0)), scope, s.1)
        } else {
            (Err(statement_fault(Reason::BranchMismatch, span)), scope, ledger)
        },
        _ => (Err(statement_fault(Reason::BranchMismatch, span)), scope, ledger),
    }
}

/// The value of an expression and the ledger that its synthesis leaves.
pub open spec fn evaluate_spec(
    program: Program,
    scope: ScopeModel,
    ledger: LedgerModel,
    expression: Expression,
    depth: nat,
) -> Evaluated
    decreases depth, 0nat, expression, 0nat, 0nat,
{
    match expression {
        Expression::Identifier(identifier) => (
            resolve_name_spec(program, scope, identifier),
            ledger,
        ),
        Expression::Boolean(literal, _) => boolean_literal_spec(ledger, literal),
        Expression::Integer(ty, literal, span) => integer_literal_spec(ledger, ty, literal, span),
        Expression::Implicit(literal, _) => (
            Ok(ValueModel::Scalar(Scalar::Unresolved(literal))),
            ledger,
        ),
        Expression::Field(literal, _) => field_literal_spec(ledger, literal),
        Expression::Not(operand, span) => {
            let r = evaluate_spec(program, scope, ledger, *operand, depth);
            match r.0 {
                Ok(v) => not_value_spec(r.1, v, span),
                Err(_) => r,
            }
        },
        Expression::Binary(op, left, right, span) => {
            let a = evaluate_spec(program, scope, ledger, *left, depth);
            match a.0 {
                Err(_) => a,
                Ok(x) => {
                    let b = evaluate_spec(program, scope, a.1, *right, depth);
                    match b.0 {
                        Err(_) => b,
                        Ok(y) => binary_spec(b.1, op, x, y, span),
                    }
                },
            }
        },
        Expression::Array(elements, span) => {
            let r = evaluate_list_spec(program, scope, ledger, elements, 0, Seq::empty(), depth);
            match r.0 {
                Err(e) => (Err(e), r.1),
                Ok(values) => if uniform(values) {
                    (Ok(ValueModel::Array(values)), r.1)
                } else {
                    (Err(array_fault(Reason::IncompatibleTypes, span)), r.1)
                },
            }
        },
        Expression::ArrayAccess(array, place, span) => {
            let a = evaluate_spec(program, scope, ledger, *array, depth);
            match a.0 {
                Err(_) => a,
                Ok(x) => {
                    let b = evaluate_spec(program, scope, a.1, *place, depth);
                    match b.0 {
                        Err(_) => b,
                        Ok(y) => index_spec(b.1, x, y, span),
                    }
                },
            }
        },
        Expression::Tuple(elements, span) => {
            let r = evaluate_list_spec(program, scope, ledger, elements, 0, Seq::empty(), depth);
            match r.0 {
                Err(e) => (Err(e), r.1),
                Ok(values) => if settled(values) {
                    (Ok(ValueModel::Tuple(values)), r.1)
                } else {
                    (Err(expression_fault(Reason::UnresolvedNumber, span)), r.1)
                },
            }
        },
        Expression::TupleAccess(tuple, place, span) => {
            let r = evaluate_spec(program, scope, ledger, *tuple, depth);
            match r.0 {
                Err(_) => r,
                Ok(v) => (tuple_access_spec(v, place, span), r.1),
            }
        },
        Expression::Circuit(name, members, span) => {
            let r = evaluate_members_spec(program, scope, ledger, members, 0, Seq::empty(), depth);
            match r.0 {
                Err(e) => (Err(e), r.1),
                Ok(values) => instantiate_spec(
                    program,
                    r.1,
                    name.name@,
                    member_names(members@),
                    values,
                    span,
                ),
            }
        },
        Expression::CircuitMember(instance, member, span) => {
            let r = evaluate_spec(program, scope, ledger, *instance, depth);
            match r.0 {
                Err(_) => r,
                Ok(v) => (member_access_spec(v, member.name@, span), r.1),
            }
        },
        Expression::Call(name, arguments, span) => {
            if depth == 0 {
                (Err(function_fault(Reason::CallDepthExceeded, span)), ledger)
            } else {
                match resolve_name_spec(program, scope, name) {
                    Err(e) => (Err(e), ledger),
                    Ok(callee) => {
                        let a = evaluate_list_spec(
                            program,
                            scope,
                            ledger,
                            arguments,
                            0,
                            Seq::empty(),
                            depth,
                        );
                        match a.0 {
                            Err(e) => (Err(e), a.1),
                            Ok(values) => call_spec(
                                program,
                                a.1,
                                callee,
                                values,
                                (depth - 1) as nat,
                                span,
                            ),
                        }
                    },
                }
            }
        },
    }
}

/// The value of a call of `callee` with arguments that are already
/// evaluated: the arguments are bound to the parameters in a scope of their
/// own, the body is synthesized, and what it returned is held to the declared
/// type. `fuel` bounds the nesting of calls inside the body.
pub open spec fn call_spec(
    program: Program,
    ledger: LedgerModel,
    callee: ValueModel,
    arguments: Seq<ValueModel>,
    fuel: nat,
    span: Span,
) -> Evaluated
    decreases fuel, 3nat,
{
    let e = enter_spec(program, ledger, callee, arguments, span);
    match e.0 {
        Err(x) => (Err(x), e.1),
        Ok((i, inner)) => {
            let b = block_spec(program, inner, e.1, program.functions@[i as int].body, 0, fuel);
            match b.0 {
                Err(x) => (Err(call_failure(x)), b.2),
                Ok(returned) => finish_spec(
                    b.2,
                    program.functions@[i as int].output,
                    returned,
                    span,
                ),
            }
        },
    }
}

/// The values of the expressions from `index` on, after those in `done`.
pub open spec fn evaluate_list_spec(
    program: Program,
    scope: ScopeModel,
    ledger: LedgerModel,
    expressions: Vec<Expression>,
    index: nat,
    done: Seq<ValueModel>,
    depth: nat,
) -> EvaluatedList
    decreases depth, 0nat, expressions, 0nat, expressions@.len() - index,
{
    if index >= expressions@.len() {
        (Ok(done), ledger)
    } else {
        let r = evaluate_spec(program, scope, ledger, expressions@[index as int], depth);
        match r.0 {
            Err(e) => (Err(e), r.1),
            Ok(v) => evaluate_list_spec(
                program,
                scope,
                r.1,
                expressions,
                index + 1,
                done.push(v),
                depth,
            ),
        }
    }
}

/// The values of the members of a circuit expression from `index` on.
pub open spec fn evaluate_members_spec(
    program: Program,
    scope: ScopeModel,
    ledger: LedgerModel,
    members: Vec<CircuitVariable>,
    index: nat,
    done: Seq<ValueModel>,
    depth: nat,
) -> EvaluatedList
    decreases depth, 0nat, members, 0nat, members@.len() - index,
{
    if index >= members@.len() {
        (Ok(done), ledger)
    } else {
        let r = evaluate_spec(program, scope, ledger, members@[index as int].expression, depth);
        match r.0 {
            Err(e) => (Err(e), r.1),
            Ok(v) => evaluate_members_spec(
                program,
                scope,
                r.1,
                members,
                index + 1,
                done.push(v),
                depth,
            ),
        }
    }
}

/// The value that takes the place of `target` when `value` is assigned to the
/// part of it that the accesses from `index` on name.
pub open spec fn update_spec(
    program: Program,
    scope: ScopeModel,
    ledger: LedgerModel,
    target: ValueModel,
    accesses: Vec<Access>,
    index: nat,
    value: ValueModel,
    depth: nat,
    span: Span,
) -> (Result<ValueModel, StatementError>, LedgerModel)
    decreases depth, 1nat, accesses, 0nat, accesses@.len() - index,
{
    if index >= accesses@.len() {
        let r = resolve_like_spec(ledger, value, target, span);
        match r.0 {
            Err(e) => (Err(wrap(e)), r.1),
            Ok(v) => if compatible(target, v) {
                (Ok(v), r.1)
            } else {
                (Err(statement_fault(Reason::AssignmentMismatch, span)), r.1)
            },
        }
    } else {
        match accesses@[index as int] {
            Access::Index(place) => {
                let r = evaluate_spec(program, scope, ledger, place, depth);
                match r.0 {
                    Err(e) => (Err(wrap(e)), r.1),
                    Ok(i) => match target {
                        ValueModel::Array(elements) => match index_of(i) {
                            Index::Constant(n) => if 0 <= n < elements.len() {
                                let u = update_spec(
                                    program,
                                    scope,
                                    r.1,
                                    elements[n as int],
                                    accesses,
                                    index + 1,
                                    value,
                                    depth,
                                    span,
                                );
                                match u.0 {
                                    Ok(v) => (
                                        Ok(ValueModel::Array(elements.update(n as int, v))),
                                        u.1,
                                    ),
                                    Err(_) => u,
                                }
                            } else {
                                (Err(wrap(array_fault(Reason::IndexOutOfBounds, span))), r.1)
                            },
                            _ => (Err(statement_fault(Reason::IndexNotConstant, span)), r.1),
                        },
                        _ => (Err(wrap(array_fault(Reason::NotArray, span))), r.1),
                    },
                }
            },
            Access::Member(member) => match target {
                ValueModel::Circuit(name, names, values) => match position(
                    names,
                    member.name@,
                    names.len(),
                ) {
                    Some(k) => if k < values.len() {
                        let u = update_spec(
                            program,
                            scope,
                            ledger,
                            values[k as int],
                            accesses,
                            index + 1,
                            value,
                            depth,
                            span,
                        );
                        match u.0 {
                            Ok(v) => (
                                Ok(ValueModel::Circuit(name, names, values.update(k as int, v))),
                                u.1,
                            ),
                            Err(_) => u,
                        }
                    } else {
                        (Err(wrap(circuit_fault(Reason::UndefinedMember, span))), ledger)
                    },
                    None => (Err(wrap(circuit_fault(Reason::UndefinedMember, span))), ledger),
                },
                _ => (Err(wrap(circuit_fault(Reason::NotCircuit, span))), ledger),
            },
        }
    }
}

/// What a statement leaves.
pub open spec fn statement_spec(
    program: Program,
    scope: ScopeModel,
    ledger: LedgerModel,
    statement: Statement,
    depth: nat,
) -> Executed
    decreases depth, 2nat, statement, 0nat, 0nat,
{
    match statement {
        Statement::Return(expression, _) => {
            let r = evaluate_spec(program, scope, ledger, expression, depth);
            match r.0 {
                Ok(v) => (Ok(Some(v)), scope, r.1),
                Err(e) => (Err(wrap(e)), scope, r.1),
            }
        },
        Statement::Definition(name, declared, expression, span) => {
            let r = evaluate_spec(program, scope, ledger, expression, depth);
            match r.0 {
                Err(e) => (Err(wrap(e)), scope, r.1),
                Ok(v) => match declared {
                    Some(ty) => {
                        let t = resolve_spec(r.1, v, ty@, span);
                        match t.0 {
                            Err(e) => (Err(wrap(e)), scope, t.1),
                            Ok(w) => if crate::value::value_matches(w, ty@) {
                                (Ok(None), scope_define(scope, name.name@, w), t.1)
                            } else {
                                (
                                    Err(statement_fault(Reason::DefinitionMismatch, span)),
                                    scope,
                                    t.1,
                                )
                            },
                        }
                    },
                    None => if compatible(v, v) {
                        (Ok(None), scope_define(scope, name.name@, v), r.1)
                    } else {
                        (Err(statement_fault(Reason::UnresolvedNumber, span)), scope, r.1)
                    },
                },
            }
        },
        Statement::Assign(assignee, expression, span) => {
            let r = evaluate_spec(program, scope, ledger, expression, depth);
            match r.0 {
                Err(e) => (Err(wrap(e)), scope, r.1),
                Ok(v) => match scope_lookup(scope, assignee.identifier.name@) {
                    None => (
                        Err(
                            wrap(
                                ExpressionError::UndefinedIdentifier(
                                    crate::errors::fault(
                                        Reason::UndefinedIdentifier,
                                        assignee.identifier.span,
                                    ),
                                ),
                            ),
                        ),
                        scope,
                        r.1,
                    ),
                    Some(target) => {
                        let u = update_spec(
                            program,
                            scope,
                            r.1,
                            target,
                            assignee.accesses,
                            0,
                            v,
                            depth,
                            span,
                        );
                        match u.0 {
                            Err(e) => (Err(e), scope, u.1),
                            Ok(w) => match scope_assign(scope, assignee.identifier.name@, w) {
                                Some(next) => (Ok(None), next, u.1),
                                None => (Ok(None), scope, u.1),
                            },
                        }
                    },
                },
            }
        },
        Statement::Conditional(condition, first, second, span) => {
            let r = evaluate_spec(program, scope, ledger, condition, depth);
            match r.0 {
                Err(e) => (Err(wrap(e)), scope, r.1),
                Ok(ValueModel::Scalar(Scalar::Boolean { wire, .. })) => {
                    let a = block_spec(program, scope_push(scope), r.1, first, 0, depth);
                    match a.0 {
                        Err(e) => (Err(e), scope, a.2),
                        Ok(x) => {
                            let b = block_spec(program, scope_push(scope), a.2, second, 0, depth);
                            match b.0 {
                                Err(e) => (Err(e), scope, b.2),
                                Ok(y) => join_spec(
                                    b.2,
                                    wire,
                                    scope,
                                    scope_pop(a.1),
                                    x,
                                    scope_pop(b.1),
                                    y,
                                    span,
                                ),
                            }
                        },
                    }
                },
                Ok(_) => (Err(wrap(boolean_fault(Reason::NotBoolean, span))), scope, r.1),
            }
        },
        Statement::Iteration(variable, lower, upper, body, span) => {
            let a = evaluate_spec(program, scope, ledger, lower, depth);
            match a.0 {
                Err(e) => (Err(wrap(e)), scope, a.1),
                Ok(x) => {
                    let b = evaluate_spec(program, scope, a.1, upper, depth);
                    match b.0 {
                        Err(e) => (Err(wrap(e)), scope, b.1),
                        Ok(y) => match (bound_of(x), bound_of(y)) {
                            (Some((from, s)), Some((to, t))) => iteration_spec(
                                program,
                                scope,
                                b.1,
                                variable,
                                loop_type(s, t),
                                from as int,
                                to as int,
                                body,
                                depth,
                                span,
                            ),
                            _ => (
                                Err(statement_fault(Reason::LoopBoundNotConstant, span)),
                                scope,
                                b.1,
                            ),
                        },
                    }
                },
            }
        },
        Statement::Assert(condition, span) => {
            let r = evaluate_spec(program, scope, ledger, condition, depth);
            match r.0 {
                Err(e) => (Err(wrap(e)), scope, r.1),
                Ok(ValueModel::Scalar(Scalar::Boolean { wire, .. })) => (
                    Ok(None),
                    scope,
                    r.1.enforce(true_constraint(wire)).mark(r.1.constraints.len()),
                ),
                Ok(_) => (Err(wrap(boolean_fault(Reason::NotBoolean, span))), scope, r.1),
            }
        },
        Statement::AssertEq(left, right, span) => {
            let a = evaluate_spec(program, scope, ledger, left, depth);
            match a.0 {
                Err(e) => (Err(wrap(e)), scope, a.1),
                Ok(x) => {
                    let b = evaluate_spec(program, scope, a.1, right, depth);
                    match b.0 {
                        Err(e) => (Err(wrap(e)), scope, b.1),
                        Ok(y) => {
                            let p = resolve_like_spec(b.1, x, y, span);
                            match p.0 {
                                Err(e) => (Err(wrap(e)), scope, p.1),
                                Ok(u) => {
                                    let q = resolve_like_spec(p.1, y, u, span);
                                    match q.0 {
                                        Err(e) => (Err(wrap(e)), scope, q.1),
                                        Ok(v) => if compatible(u, v) {
                                            (
                                                Ok(None),
                                                scope,
                                                equal_value_spec(q.1, u, v).mark(
                                                    q.1.constraints.len(),
                                                ),
                                            )
                                        } else {
                                            (
                                                Err(
                                                    wrap(
                                                        expression_fault(
                                                            Reason::IncompatibleTypes,
                                                            span,
                                                        ),
                                                    ),
                                                ),
                                                scope,
                                                q.1,
                                            )
                                        },
                                    }
                                },
                            }
                        },
                    }
                },
            }
        },
        Statement::Expression(expression, _) => {
            let r = evaluate_spec(program, scope, ledger, expression, depth);
            match r.0 {
                Ok(_) => (Ok(None), scope, r.1),
                Err(e) => (Err(wrap(e)), scope, r.1),
            }
        },
    }
}

/// What the statements of a block leave from `index` on. A statement that
/// returns ends the block.
pub open spec fn block_spec(
    program: Program,
    scope: ScopeModel,
    ledger: LedgerModel,
    statements: Vec<Statement>,
    index: nat,
    depth: nat,
) -> Executed
    decreases depth, 2nat, statements, 0nat, statements@.len() - index,
{
    if index >= statements@.len() {
        (Ok(None), scope, ledger)
    } else {
        let r = statement_spec(program, scope, ledger, statements@[index as int], depth);
        match r.0 {
            Ok(None) => block_spec(program, r.1, r.2, statements, index + 1, depth),
            _ => r,
        }
    }
}

/// What a loop leaves: its body is unrolled once for each value from `from`
/// up to, and without, `to`, each time in a frame of its own that binds the
/// loop variable to that value.
pub open spec fn iteration_spec(
    program: Program,
    scope: ScopeModel,
    ledger: LedgerModel,
    variable: Identifier,
    ty: IntegerType,
    from: int,
    to: int,
    body: Vec<Statement>,
    depth: nat,
    span: Span,
) -> Executed
    decreases depth, 2nat, body, 1nat, to - from,
{
    if from >= to {
        (Ok(None), scope, ledger)
    } else if !ty.contains(from) {
        (Err(wrap(integer_fault(Reason::OutOfRange, span))), scope, ledger)
    } else {
        let k = constant_integer_spec(ledger, ty, from as i128);
        let inner = scope_define(
            scope_push(scope),
            variable.name@,
            integer_value(ty, k.1, Some(from as i128)),
        );
        let b = block_spec(program, inner, k.0, body, 0, depth);
        match b.0 {
            Ok(None) => iteration_spec(
                program,
                scope_pop(b.1),
                b.2,
                variable,
                ty,
                from + 1,
                to,
                body,
                depth,
                span,
            ),
            _ => (b.0, scope_pop(b.1), b.2),
        }
    }
}

pub open spec fn list_outcome(r: Result<Vec<Value>, ExpressionError>) -> Result<
    Seq<ValueModel>,
    ExpressionError,
> {
    match r {
        Ok(v) => Ok(models(v@)),
        Err(e) => Err(e),
    }
}

pub open spec fn returned(r: Result<Option<Value>, StatementError>) -> Result<
    Option<ValueModel>,
    StatementError,
> {
    match r {
        Ok(v) => Ok(option_model(v)),
        Err(e) => Err(e),
    }
}

/// What the synthesis of an expression guarantees beyond its result: the
/// ledger was only extended, it is still well-formed, a complete witness is
/// still complete, a sound ledger is still sound, and the value is backed by
/// the ledger. Where the program holds no assertion, none was recorded.
pub open spec fn evaluation_holds(
    program: Program,
    before: LedgerModel,
    after: LedgerModel,
    value: Result<ValueModel, ExpressionError>,
) -> bool {
    &&& after.proceeds(before, assertion_free(program))
    &&& after.wf()
    &&& value matches Ok(v) ==> value_ok(v, after)
}

/// What the synthesis of statements guarantees beyond its result. `safe` says
/// that neither the program nor the statements hold an assertion: then none
/// was recorded.
pub open spec fn execution_holds(
    safe: bool,
    before: LedgerModel,
    scope: ScopeModel,
    after: LedgerModel,
    value: Result<Option<ValueModel>, StatementError>,
) -> bool {
    &&& after.proceeds(before, safe)
    &&& after.wf()
    &&& scope_ok(scope, after)
    &&& value matches Ok(Some(v)) ==> value_ok(v, after)
}

/// What holds of a conditional whatever its condition is: where the statement
/// succeeds, the ledger that it leaves holds what the condition recorded,
/// then what the first branch recorded, then what the second branch recorded,
/// then the selections that merge the two.
pub open spec fn branches_recorded(
    program: Program,
    scope: ScopeModel,
    ledger: LedgerModel,
    statement: Statement,
    depth: nat,
) -> bool {
    match statement {
        Statement::Conditional(condition, first, second, _) => {
            let r = evaluate_spec(program, scope, ledger, condition, depth);
            let a = block_spec(program, scope_push(scope), r.1, first, 0, depth);
            let b = block_spec(program, scope_push(scope), a.2, second, 0, depth);
            let s = statement_spec(program, scope, ledger, statement, depth);
            s.0 is Ok ==> {
                &&& r.1.extends(ledger)
                &&& a.2.extends(r.1)
                &&& b.2.extends(a.2)
                &&& s.2.extends(b.2)
            }
        },
        _ => true,
    }
}

/// Both branches of a conditional are synthesized whatever the condition is:
/// an error of the first branch is the error of the statement, and so is an
/// error of the second branch where the first has none. The value of the
/// condition, constant or not, plays no part.
pub proof fn lemma_branch_error_surfaces(
    program: Program,
    scope: ScopeModel,
    ledger: LedgerModel,
    condition: Expression,
    first: Vec<Statement>,
    second: Vec<Statement>,
    span: Span,
    depth: nat,
)
    requires
        evaluate_spec(program, scope, ledger, condition, depth).0 matches Ok(
            ValueModel::Scalar(Scalar::Boolean { .. }),
        ),
    ensures
        ({
            let r = evaluate_spec(program, scope, ledger, condition, depth);
            let a = block_spec(program, scope_push(scope), r.1, first, 0, depth);
            let b = block_spec(program, scope_push(scope), a.2, second, 0, depth);
            let s = statement_spec(
                program,
                scope,
                ledger,
                Statement::Conditional(condition, first, second, span),
                depth,
            );
            &&& a.0 matches Err(e) ==> s.0 == Err::<Option<ValueModel>, StatementError>(e)
            &&& a.0 is Ok ==> (b.0 matches Err(e) ==> s.0 == Err::<
                Option<ValueModel>,
                StatementError,
            >(e))
        }),
{
}

/// An expression that applies `!`, `&&` or `||` to an operand that is no
/// boolean has no value: where the operands themselves have values, the error
/// is the error of the booleans at the place of the operator, whatever the
/// other operand is. An integer, or a number without a type, is never taken
/// for a boolean.
pub proof fn lemma_boolean_expression_refused(
    program: Program,
    scope: ScopeModel,
    ledger: LedgerModel,
    op: BinaryOperator,
    left: Expression,
    right: Expression,
    span: Span,
    depth: nat,
)
    requires
        is_logical(op),
    ensures
        ({
            let a = evaluate_spec(program, scope, ledger, left, depth);
            let b = evaluate_spec(program, scope, a.1, right, depth);
            let refused = Err::<ValueModel, ExpressionError>(
                boolean_fault(Reason::NotBoolean, span),
            );
            &&& (a.0 matches Ok(x) && !is_boolean(x)) ==> evaluate_spec(
                program,
                scope,
                ledger,
                Expression::Not(Box::new(left), span),
                depth,
            ) == (refused, a.1)
            &&& (a.0 matches Ok(x) && b.0 matches Ok(y) && (!is_boolean(x) || !is_boolean(y)))
                ==> evaluate_spec(
                program,
                scope,
                ledger,
                Expression::Binary(op, Box::new(left), Box::new(right), span),
                depth,
            ) == (refused, b.1)
        }),
{
}

/// The expression that a statement evaluates first.
pub open spec fn leading(statement: Statement) -> Expression {
    match statement {
        Statement::Return(expression, _) => expression,
        Statement::Definition(_, _, expression, _) => expression,
        Statement::Assign(_, expression, _) => expression,
        Statement::Conditional(condition, _, _, _) => condition,
        Statement::Iteration(_, lower, _, _, _) => lower,
        Statement::Assert(condition, _) => condition,
        Statement::AssertEq(left, _, _) => left,
        Statement::Expression(expression, _) => expression,
    }
}

/// An error of the expression that a statement evaluates first is the error
/// of the statement, as the error of an expression.
pub proof fn lemma_leading_error(
    program: Program,
    scope: ScopeModel,
    ledger: LedgerModel,
    statement: Statement,
    depth: nat,
)
    ensures
        evaluate_spec(program, scope, ledger, leading(statement), depth).0 matches Err(e)
            ==> statement_spec(program, scope, ledger, statement, depth).0 == Err::<
            Option<ValueModel>,
            StatementError,
        >(wrap(e)),
{
}

/// A sum, a difference or a product of two constant integers that lies
/// outside the type of its operands has no value: the expression is refused,
/// and the result is never reduced into the type.
pub proof fn lemma_constant_expression_refused(
    program: Program,
    scope: ScopeModel,
    ledger: LedgerModel,
    op: BinaryOperator,
    left: Expression,
    right: Expression,
    span: Span,
    depth: nat,
    ty: IntegerType,
    p: i128,
    q: i128,
)
    requires
        op == BinaryOperator::Add || op == BinaryOperator::Sub || op == BinaryOperator::Mul,
        ({
            let a = evaluate_spec(program, scope, ledger, left, depth);
            let b = evaluate_spec(program, scope, a.1, right, depth);
            &&& a.0 matches Ok(ValueModel::Scalar(Scalar::Integer { ty: s, constant: Some(u), .. }))
                && s == ty && u == p
            &&& b.0 matches Ok(ValueModel::Scalar(Scalar::Integer { ty: t, constant: Some(v), .. }))
                && t == ty && v == q
        }),
        !ty.contains(arithmetic_result(arithmetic_of(op), p as int, q as int)),
    ensures
        evaluate_spec(
            program,
            scope,
            ledger,
            Expression::Binary(op, Box::new(left), Box::new(right), span),
            depth,
        ).0 == Err::<ValueModel, ExpressionError>(integer_fault(Reason::OutOfRange, span)),
{
}

/// A definition of a variable of an integer type whose value is a number
/// outside the type is refused: the variable is not bound, to that number or
/// to any other.
pub proof fn lemma_definition_refused(
    program: Program,
    scope: ScopeModel,
    ledger: LedgerModel,
    name: Identifier,
    ty: IntegerType,
    expression: Expression,
    span: Span,
    depth: nat,
    number: i128,
)
    requires
        evaluate_spec(program, scope, ledger, expression, depth).0 == Ok::<
            ValueModel,
            ExpressionError,
        >(ValueModel::Scalar(Scalar::Unresolved(number))),
        !ty.contains(number as int),
    ensures
        ({
            let s = statement_spec(
                program,
                scope,
                ledger,
                Statement::Definition(name, Some(Type::Integer(ty)), expression, span),
                depth,
            );
            &&& s.0 == Err::<Option<ValueModel>, StatementError>(
                wrap(integer_fault(Reason::OutOfRange, span)),
            )
            &&& s.1 == scope
            &&& s.2 == evaluate_spec(program, scope, ledger, expression, depth).1
        }),
{
    let declared = Type::Integer(ty);
    assert(declared@ == TypeModel::Integer(ty)) by {
        reveal_with_fuel(type_model, 2);
    }
}

/// Whether the values are of one shape, and none is a number without a type.
pub fn is_uniform(values: &Vec<Value>) -> (r: bool)
    ensures
        r == uniform(models(values@)),
{
    let mut i: usize = 0;
    while i < values.len()
        invariant
            i <= values.len(),
            forall|k: int| 0 <= k < i ==> compatible(models(values@)[0], #[trigger] models(values@)[k]),
        decreases values.len() - i,
    {
        assert(models(values@)[0] == values@[0]@);
        assert(models(values@)[i as int] == values@[i as int]@);
        if !values[0].fits(&values[i]) {
            return false;
        }
        i = i + 1;
    }
    true
}

/// Whether no value is, or holds, a number without a type.
pub fn is_settled(values: &Vec<Value>) -> (r: bool)
    ensures
        r == settled(models(values@)),
{
    let mut i: usize = 0;
    while i < values.len()
        invariant
            i <= values.len(),
            forall|k: int| 0 <= k < i ==> compatible(#[trigger] models(values@)[k], models(values@)[k]),
        decreases values.len() - i,
    {
        assert(models(values@)[i as int] == values@[i as int]@);
        if !values[i].fits(&values[i]) {
            return false;
        }
        i = i + 1;
    }
    true
}

/// A number known at synthesis, and its integer type if it has one.
pub fn bound(value: &Value) -> (r: Option<(i128, Option<IntegerType>)>)
    ensures
        r == bound_of(value@),
{
    match value {
        Value::Scalar(Scalar::Unresolved(n)) => Some((*n, None)),
        Value::Scalar(Scalar::Integer { ty, constant: Some(n), .. }) => Some((*n, Some(*ty))),
        _ => None,
    }
}

fn names_of(members: &Vec<CircuitVariable>) -> (r: Vec<String>)
    ensures
        texts(r@) == member_names(members@),
{
    let mut r: Vec<String> = Vec::new();
    let mut i: usize = 0;
    while i < members.len()
        invariant
            i <= members.len(),
            r@.len() == i,
            forall|k: int| 0 <= k < i ==> r@[k]@ == members@[k].name.name@,
        decreases members.len() - i,
    {
        r.push(members[i].name.name.clone());
        i = i + 1;
    }
    assert(texts(r@) =~= member_names(members@));
    r
}

fn join(
    ledger: &mut ConstraintLedger,
    c: usize,
    scope: &mut SymbolScope,
    first_scope: SymbolScope,
    first: Option<Value>,
    second_scope: SymbolScope,
    second: Option<Value>,
    span: Span,
) -> (r: Result<Option<Value>, StatementError>)
    requires
        old(ledger)@.wf(),
        old(ledger)@.is_bit(c),
        scope_ok(old(scope)@, old(ledger)@),
        scope_ok(first_scope@, old(ledger)@),
        scope_ok(second_scope@, old(ledger)@),
        first matches Some(v) ==> value_ok(v@, old(ledger)@),
        second matches Some(v) ==> value_ok(v@, old(ledger)@),
    ensures
        (returned(r), final(scope)@, final(ledger)@) == join_spec(
            old(ledger)@,
            c,
            old(scope)@,
            first_scope@,
            option_model(first),
            second_scope@,
            option_model(second),
            span,
        ),
        execution_holds(true, old(ledger)@, final(scope)@, final(ledger)@, returned(r)),
{
    match (first, second) {
        (None, None) => {
            if first_scope.fits(&second_scope) {
                let merged = first_scope.merge(&second_scope, ledger, c);
                *scope = merged;
                Ok(None)
            } else {
                Err(statement_error(Reason::BranchMismatch, span))
            }
        },
        (Some(a), Some(b)) => {
            if a.fits(&b) {
                let v = select_value(ledger, c, &a, &b);
                proof {
                    lemma_scope_ok_extends(scope@, old(ledger)@, ledger@);
                }
                Ok(Some(v))
            } else {
                Err(statement_error(Reason::BranchMismatch, span))
            }
        },
        _ => Err(statement_error(Reason::BranchMismatch, span)),
    }
}

/// Synthesizes an expression: returns its value and leaves in the ledger the
/// wires and constraints that tie the value to its operands.
pub fn evaluate(
    program: &Program,
    scope: &SymbolScope,
    ledger: &mut ConstraintLedger,
    expression: &Expression,
    depth: usize,
) -> (r: Result<Value, ExpressionError>)
    requires
        old(ledger)@.wf(),
        scope_ok(scope@, old(ledger)@),
    ensures
        (outcome(r), final(ledger)@) == evaluate_spec(
            *program,
            scope@,
            old(ledger)@,
            *expression,
            depth as nat,
        ),
        evaluation_holds(*program, old(ledger)@, final(ledger)@, outcome(r)),
    decreases depth, 0nat, expression, 0nat, 0nat,
{
    let ghost safe = assertion_free(*program);
    let ghost start = old(ledger)@;
    match expression {
        Expression::Identifier(identifier) => resolve_name(program, scope, identifier),
        Expression::Boolean(literal, _) => Ok(boolean_literal(ledger, *literal)),
        Expression::Integer(ty, literal, span) => integer_literal(ledger, *ty, *literal, *span),
        Expression::Implicit(literal, _) => Ok(Value::Scalar(Scalar::Unresolved(*literal))),
        Expression::Field(literal, _) => Ok(field_literal(ledger, *literal)),
        Expression::Not(operand, span) => {
            let v = match evaluate(program, scope, ledger, operand, depth) {
                Ok(v) => v,
                Err(e) => {
                    return Err(e);
                },
            };
            let ghost middle = ledger@;
            let r = not_value(ledger, &v, *span);
            proof {
                lemma_proceeds_transitive(start, middle, ledger@, safe);
            }
            r
        },
        Expression::Binary(op, left, right, span) => {
            let x = match evaluate(program, scope, ledger, left, depth) {
                Ok(v) => v,
                Err(e) => {
                    return Err(e);
                },
            };
            let ghost first = ledger@;
            proof {
                lemma_scope_ok_extends(scope@, start, first);
            }
            let y = match evaluate(program, scope, ledger, right, depth) {
                Ok(v) => v,
                Err(e) => {
                    proof {
                        lemma_proceeds_transitive(start, first, ledger@, safe);
                    }
                    return Err(e);
                },
            };
            let ghost second = ledger@;
            proof {
                lemma_value_ok_extends(x@, first, second);
                lemma_proceeds_transitive(start, first, second, safe);
            }
            let r = binary(ledger, *op, x, y, *span);
            proof {
                lemma_proceeds_transitive(start, second, ledger@, safe);
            }
            r
        },
        Expression::Array(elements, span) => {
            let values = match evaluate_list(program, scope, ledger, elements, 0, no_values(), depth) {
                Ok(v) => v,
                Err(e) => {
                    return Err(e);
                },
            };
            if is_uniform(&values) {
                let r = Value::Array(values);
                proof {
                    lemma_view(&r);
                }
                Ok(r)
            } else {
                Err(array_error(Reason::IncompatibleTypes, *span))
            }
        },
        Expression::ArrayAccess(array, place, span) => {
            let x = match evaluate(program, scope, ledger, array, depth) {
                Ok(v) => v,
                Err(e) => {
                    return Err(e);
                },
            };
            let ghost first = ledger@;
            proof {
                lemma_scope_ok_extends(scope@, start, first);
            }
            let y = match evaluate(program, scope, ledger, place, depth) {
                Ok(v) => v,
                Err(e) => {
                    proof {
                        lemma_proceeds_transitive(start, first, ledger@, safe);
                    }
                    return Err(e);
                },
            };
            let ghost second = ledger@;
            proof {
                lemma_value_ok_extends(x@, first, second);
                lemma_proceeds_transitive(start, first, second, safe);
            }
            let r = index(ledger, &x, &y, *span);
            proof {
                lemma_proceeds_transitive(start, second, ledger@, safe);
            }
            r
        },
        Expression::Tuple(elements, span) => {
            let values = match evaluate_list(program, scope, ledger, elements, 0, no_values(), depth) {
                Ok(v) => v,
                Err(e) => {
                    return Err(e);
                },
            };
            if is_settled(&values) {
                let r = Value::Tuple(values);
                proof {
                    lemma_view(&r);
                }
                Ok(r)
            } else {
                Err(expression_error(Reason::UnresolvedNumber, *span))
            }
        },
        Expression::TupleAccess(tuple, place, span) => {
            let v = match evaluate(program, scope, ledger, tuple, depth) {
                Ok(v) => v,
                Err(e) => {
                    return Err(e);
                },
            };
            let r = tuple_access(&v, *place, *span);
            proof {
                crate::access::lemma_parts_ok(v@, ledger@);
            }
            r
        },
        Expression::Circuit(name, members, span) => {
            let values = match evaluate_members(
                program,
                scope,
                ledger,
                members,
                0,
                no_values(),
                depth,
            ) {
                Ok(v) => v,
                Err(e) => {
                    return Err(e);
                },
            };
            let ghost middle = ledger@;
            let r = instantiate(program, ledger, &name.name, names_of(members), &values, *span);
            proof {
                lemma_proceeds_transitive(start, middle, ledger@, safe);
            }
            r
        },
        Expression::CircuitMember(instance, member, span) => {
            let v = match evaluate(program, scope, ledger, instance, depth) {
                Ok(v) => v,
                Err(e) => {
                    return Err(e);
                },
            };
            let r = member_access(&v, &member.name, *span);
            proof {
                crate::access::lemma_parts_ok(v@, ledger@);
                crate::access::lemma_position(v@, member.name@);
            }
            r
        },
        Expression::Call(name, arguments, span) => {
            if depth == 0 {
                return Err(function_error(Reason::CallDepthExceeded, *span));
            }
            let callee = match resolve_name(program, scope, name) {
                Ok(v) => v,
                Err(e) => {
                    return Err(e);
                },
            };
            let values = match evaluate_list(
                program,
                scope,
                ledger,
                arguments,
                0,
                no_values(),
                depth,
            ) {
                Ok(v) => v,
                Err(e) => {
                    return Err(e);
                },
            };
            let ghost first = ledger@;
            let r = call(program, ledger, &callee, &values, depth - 1, *span);
            proof {
                lemma_proceeds_transitive(start, first, ledger@, safe);
            }
            r
        },
    }
}

/// Calls `callee` with arguments that are already evaluated. `fuel` bounds
/// the nesting of calls inside the body.
pub fn call(
    program: &Program,
    ledger: &mut ConstraintLedger,
    callee: &Value,
    arguments: &Vec<Value>,
    fuel: usize,
    span: Span,
) -> (r: Result<Value, ExpressionError>)
    requires
        old(ledger)@.wf(),
        values_ok(models(arguments@), old(ledger)@),
    ensures
        (outcome(r), final(ledger)@) == call_spec(
            *program,
            old(ledger)@,
            callee@,
            models(arguments@),
            fuel as nat,
            span,
        ),
        evaluation_holds(*program, old(ledger)@, final(ledger)@, outcome(r)),
    decreases fuel, 3nat,
{
    let ghost safe = assertion_free(*program);
    let ghost start = old(ledger)@;
    let (i, inner) = match enter(program, ledger, callee, arguments, span) {
        Ok(entered) => entered,
        Err(e) => {
            return Err(e);
        },
    };
    let ghost second = ledger@;
    proof {
        assert(safe ==> block_safe(program.functions@[i as int].body));
    }
    let mut inner = inner;
    let function = &program.functions[i];
    let returned = match block(program, &mut inner, ledger, &function.body, 0, fuel) {
        Ok(v) => v,
        Err(e) => {
            proof {
                lemma_proceeds_transitive(start, second, ledger@, safe);
            }
            return Err(ExpressionError::FunctionError(Box::new(FunctionError::StatementError(e))));
        },
    };
    let ghost third = ledger@;
    proof {
        lemma_proceeds_transitive(start, second, third, safe);
    }
    let r = finish(ledger, &function.output, returned, span);
    proof {
        lemma_proceeds_transitive(start, third, ledger@, safe);
    }
    r
}

fn evaluate_list(
    program: &Program,
    scope: &SymbolScope,
    ledger: &mut ConstraintLedger,
    expressions: &Vec<Expression>,
    index: usize,
    done: Vec<Value>,
    depth: usize,
) -> (r: Result<Vec<Value>, ExpressionError>)
    requires
        old(ledger)@.wf(),
        scope_ok(scope@, old(ledger)@),
        values_ok(models(done@), old(ledger)@),
    ensures
        (list_outcome(r), final(ledger)@) == evaluate_list_spec(
            *program,
            scope@,
            old(ledger)@,
            *expressions,
            index as nat,
            models(done@),
            depth as nat,
        ),
        final(ledger)@.proceeds(old(ledger)@, assertion_free(*program)),
        final(ledger)@.wf(),
        r matches Ok(v) ==> values_ok(models(v@), final(ledger)@),
    decreases depth, 0nat, expressions, 0nat, expressions@.len() - index,
{
    if index >= expressions.len() {
        return Ok(done);
    }
    let v = match evaluate(program, scope, ledger, &expressions[index], depth) {
        Ok(v) => v,
        Err(e) => {
            return Err(e);
        },
    };
    let ghost middle = ledger@;
    let ghost earlier = done@;
    let mut done = done;
    proof {
        lemma_scope_ok_extends(scope@, old(ledger)@, middle);
        lemma_values_ok_extends(models(earlier), old(ledger)@, middle);
        lemma_models_push(earlier, v);
    }
    done.push(v);
    proof {
        assert forall|i: int| 0 <= i < models(done@).len() implies value_ok(
            #[trigger] models(done@)[i],
            middle,
        ) by {
            if i < earlier.len() {
                assert(models(done@)[i] == models(earlier)[i]);
            }
        }
    }
    let r = evaluate_list(program, scope, ledger, expressions, index + 1, done, depth);
    proof {
        lemma_proceeds_transitive(old(ledger)@, middle, ledger@, assertion_free(*program));
    }
    r
}

fn evaluate_members(
    program: &Program,
    scope: &SymbolScope,
    ledger: &mut ConstraintLedger,
    members: &Vec<CircuitVariable>,
    index: usize,
    done: Vec<Value>,
    depth: usize,
) -> (r: Result<Vec<Value>, ExpressionError>)
    requires
        old(ledger)@.wf(),
        scope_ok(scope@, old(ledger)@),
        values_ok(models(done@), old(ledger)@),
    ensures
        (list_outcome(r), final(ledger)@) == evaluate_members_spec(
            *program,
            scope@,
            old(ledger)@,
            *members,
            index as nat,
            models(done@),
            depth as nat,
        ),
        final(ledger)@.proceeds(old(ledger)@, assertion_free(*program)),
        final(ledger)@.wf(),
        r matches Ok(v) ==> values_ok(models(v@), final(ledger)@),
    decreases depth, 0nat, members, 0nat, members@.len() - index,
{
    if index >= members.len() {
        return Ok(done);
    }
    let v = match evaluate(program, scope, ledger, &members[index].expression, depth) {
        Ok(v) => v,
        Err(e) => {
            return Err(e);
        },
    };
    let ghost middle = ledger@;
    let ghost earlier = done@;
    let mut done = done;
    proof {
        lemma_scope_ok_extends(scope@, old(ledger)@, middle);
        lemma_values_ok_extends(models(earlier), old(ledger)@, middle);
        lemma_models_push(earlier, v);
    }
    done.push(v);
    proof {
        assert forall|i: int| 0 <= i < models(done@).len() implies value_ok(
            #[trigger] models(done@)[i],
            middle,
        ) by {
            if i < earlier.len() {
                assert(models(done@)[i] == models(earlier)[i]);
            }
        }
    }
    let r = evaluate_members(program, scope, ledger, members, index + 1, done, depth);
    proof {
        lemma_proceeds_transitive(old(ledger)@, middle, ledger@, assertion_free(*program));
    }
    r
}

fn update(
    program: &Program,
    scope: &SymbolScope,
    ledger: &mut ConstraintLedger,
    target: Value,
    accesses: &Vec<Access>,
    index: usize,
    value: Value,
    depth: usize,
    span: Span,
) -> (r: Result<Value, StatementError>)
    requires
        old(ledger)@.wf(),
        scope_ok(scope@, old(ledger)@),
        value_ok(target@, old(ledger)@),
        value_ok(value@, old(ledger)@),
    ensures
        (match r {
            Ok(v) => Ok(v@),
            Err(e) => Err(e),
        }, final(ledger)@) == update_spec(
            *program,
            scope@,
            old(ledger)@,
            target@,
            *accesses,
            index as nat,
            value@,
            depth as nat,
            span,
        ),
        final(ledger)@.proceeds(old(ledger)@, assertion_free(*program)),
        final(ledger)@.wf(),
        r matches Ok(v) ==> value_ok(v@, final(ledger)@),
    decreases depth, 1nat, accesses, 0nat, accesses@.len() - index,
{
    let ghost safe = assertion_free(*program);
    let ghost start = old(ledger)@;
    if index >= accesses.len() {
        return match resolve_like(ledger, value, &target, span) {
            Err(e) => Err(StatementError::ExpressionError(e)),
            Ok(v) => if target.fits(&v) {
                Ok(v)
            } else {
                Err(statement_error(Reason::AssignmentMismatch, span))
            },
        };
    }
    proof {
        lemma_view(&target);
        crate::access::lemma_parts_ok(target@, start);
    }
    match &accesses[index] {
        Access::Index(place) => {
            let i = match evaluate(program, scope, ledger, place, depth) {
                Ok(v) => v,
                Err(e) => {
                    return Err(StatementError::ExpressionError(e));
                },
            };
            let ghost first = ledger@;
            proof {
                lemma_scope_ok_extends(scope@, start, first);
                lemma_value_ok_extends(target@, start, first);
                lemma_value_ok_extends(value@, start, first);
                crate::access::lemma_parts_ok(target@, first);
            }
            match target {
                Value::Array(elements) => {
                    let n = match constant_place(&i) {
                        Some(n) => n,
                        None => {
                            return Err(statement_error(Reason::IndexNotConstant, span));
                        },
                    };
                    if !(0 <= n && (n as u128) < (elements.len() as u128)) {
                        return Err(
                            StatementError::ExpressionError(
                                array_error(Reason::IndexOutOfBounds, span),
                            ),
                        );
                    }
                    let k = n as usize;
                    assert(models(elements@)[k as int] == elements@[k as int]@);
                    assert(value_ok(models(elements@)[k as int], first));
                    let element = elements[k].duplicate();
                    let v = match update(
                        program,
                        scope,
                        ledger,
                        element,
                        accesses,
                        index + 1,
                        value,
                        depth,
                        span,
                    ) {
                        Ok(v) => v,
                        Err(e) => {
                            proof {
                                lemma_proceeds_transitive(start, first, ledger@, safe);
                            }
                            return Err(e);
                        },
                    };
                    let ghost before = elements@;
                    let mut elements = elements;
                    elements.set(k, v);
                    let r = Value::Array(elements);
                    proof {
                        lemma_proceeds_transitive(start, first, ledger@, safe);
                        lemma_view(&r);
                        lemma_values_ok_extends(models(before), first, ledger@);
                        assert(models(elements@) =~= models(before).update(k as int, v@));
                    }
                    Ok(r)
                },
                _ => Err(StatementError::ExpressionError(array_error(Reason::NotArray, span))),
            }
        },
        Access::Member(member) => {
            match target {
                Value::Circuit(name, names, values) => {
                    let k = match find_text(&names, &member.name) {
                        Some(k) => k,
                        None => {
                            return Err(
                                StatementError::ExpressionError(
                                    circuit_error(Reason::UndefinedMember, span),
                                ),
                            );
                        },
                    };
                    if k >= values.len() {
                        return Err(
                            StatementError::ExpressionError(
                                circuit_error(Reason::UndefinedMember, span),
                            ),
                        );
                    }
                    assert(models(values@)[k as int] == values@[k as int]@);
                    assert(value_ok(models(values@)[k as int], start));
                    let element = values[k].duplicate();
                    let v = match update(
                        program,
                        scope,
                        ledger,
                        element,
                        accesses,
                        index + 1,
                        value,
                        depth,
                        span,
                    ) {
                        Ok(v) => v,
                        Err(e) => {
                            return Err(e);
                        },
                    };
                    let ghost before = values@;
                    let mut values = values;
                    values.set(k, v);
                    let r = Value::Circuit(name, names, values);
                    proof {
                        lemma_view(&r);
                        lemma_values_ok_extends(models(before), start, ledger@);
                        assert(models(values@) =~= models(before).update(k as int, v@));
                    }
                    Ok(r)
                },
                _ => Err(StatementError::ExpressionError(circuit_error(Reason::NotCircuit, span))),
            }
        },
    }
}

fn constant_place(value: &Value) -> (r: Option<i128>)
    ensures
        r matches Some(n) ==> index_of(value@) == Index::Constant(n),
        r is None ==> !(index_of(value@) is Constant),
{
    match value {
        Value::Scalar(Scalar::Unresolved(n)) => Some(*n),
        Value::Scalar(Scalar::Integer { constant: Some(n), .. }) => Some(*n),
        _ => None,
    }
}

/// Synthesizes a statement: changes the scope and the ledger, and returns the
/// value of a `return`.
pub fn execute(
    program: &Program,
    scope: &mut SymbolScope,
    ledger: &mut ConstraintLedger,
    statement: &Statement,
    depth: usize,
) -> (r: Result<Option<Value>, StatementError>)
    requires
        old(ledger)@.wf(),
        scope_ok(old(scope)@, old(ledger)@),
    ensures
        (returned(r), final(scope)@, final(ledger)@) == statement_spec(
            *program,
            old(scope)@,
            old(ledger)@,
            *statement,
            depth as nat,
        ),
        execution_holds(
            assertion_free(*program) && statement_safe(*statement),
            old(ledger)@,
            final(scope)@,
            final(ledger)@,
            returned(r),
        ),
        branches_recorded(*program, old(scope)@, old(ledger)@, *statement, depth as nat),
    decreases depth, 2nat, statement, 0nat, 0nat,
{
    let ghost free = assertion_free(*program);
    let ghost safe = assertion_free(*program) && statement_safe(*statement);
    let ghost start = old(ledger)@;
    match statement {
        Statement::Return(expression, _) => {
            let r = evaluate(program, scope, ledger, expression, depth);
            proof {
                lemma_scope_ok_extends(scope@, start, ledger@);
            }
            match r {
                Ok(v) => Ok(Some(v)),
                Err(e) => Err(StatementError::ExpressionError(e)),
            }
        },
        Statement::Definition(name, declared, expression, span) => {
            let v = match evaluate(program, scope, ledger, expression, depth) {
                Ok(v) => v,
                Err(e) => {
                    proof {
                        lemma_scope_ok_extends(scope@, start, ledger@);
                    }
                    return Err(StatementError::ExpressionError(e));
                },
            };
            let ghost first = ledger@;
            match declared {
                Some(ty) => {
                    let w = match resolve(ledger, v, ty, *span) {
                        Ok(w) => w,
                        Err(e) => {
                            proof {
                                lemma_proceeds_transitive(start, first, ledger@, safe);
                                lemma_scope_ok_extends(scope@, start, ledger@);
                            }
                            return Err(StatementError::ExpressionError(e));
                        },
                    };
                    proof {
                        lemma_proceeds_transitive(start, first, ledger@, safe);
                        lemma_scope_ok_extends(scope@, start, ledger@);
                    }
                    if w.matches(ty) {
                        proof {
                            lemma_define_ok(scope@, name.name@, w@, ledger@);
                        }
                        scope.define(name.name.clone(), w);
                        Ok(None)
                    } else {
                        Err(statement_error(Reason::DefinitionMismatch, *span))
                    }
                },
                None => {
                    proof {
                        lemma_scope_ok_extends(scope@, start, ledger@);
                    }
                    if v.fits(&v) {
                        proof {
                            lemma_define_ok(scope@, name.name@, v@, ledger@);
                        }
                        scope.define(name.name.clone(), v);
                        Ok(None)
                    } else {
                        Err(statement_error(Reason::UnresolvedNumber, *span))
                    }
                },
            }
        },
        Statement::Assign(assignee, expression, span) => {
            let v = match evaluate(program, scope, ledger, expression, depth) {
                Ok(v) => v,
                Err(e) => {
                    proof {
                        lemma_scope_ok_extends(scope@, start, ledger@);
                    }
                    return Err(StatementError::ExpressionError(e));
                },
            };
            let ghost first = ledger@;
            proof {
                lemma_scope_ok_extends(scope@, start, first);
                lemma_lookup_ok(scope@, assignee.identifier.name@, first);
            }
            let target = match scope.lookup(&assignee.identifier.name) {
                Some(t) => t,
                None => {
                    return Err(
                        StatementError::ExpressionError(
                            ExpressionError::UndefinedIdentifier(
                                crate::errors::Fault {
                                    reason: Reason::UndefinedIdentifier,
                                    span: assignee.identifier.span,
                                },
                            ),
                        ),
                    );
                },
            };
            let w = match update(
                program,
                scope,
                ledger,
                target,
                &assignee.accesses,
                0,
                v,
                depth,
                *span,
            ) {
                Ok(w) => w,
                Err(e) => {
                    proof {
                        lemma_proceeds_transitive(start, first, ledger@, safe);
                        lemma_scope_ok_extends(scope@, first, ledger@);
                    }
                    return Err(e);
                },
            };
            proof {
                lemma_proceeds_transitive(start, first, ledger@, safe);
                lemma_scope_ok_extends(scope@, first, ledger@);
                lemma_assign_ok(scope@, assignee.identifier.name@, w@, ledger@);
            }
            let _ = scope.assign(&assignee.identifier.name, w);
            Ok(None)
        },
        Statement::Conditional(condition, first_block, second_block, span) => {
            let c = match evaluate(program, scope, ledger, condition, depth) {
                Ok(v) => v,
                Err(e) => {
                    proof {
                        lemma_scope_ok_extends(scope@, start, ledger@);
                    }
                    return Err(StatementError::ExpressionError(e));
                },
            };
            let ghost first = ledger@;
            proof {
                lemma_scope_ok_extends(scope@, start, first);
            }
            let wire = match c {
                Value::Scalar(Scalar::Boolean { wire, .. }) => wire,
                _ => {
                    return Err(StatementError::ExpressionError(boolean_error(Reason::NotBoolean, *span)));
                },
            };
            let mut first_scope = scope.duplicate();
            first_scope.push_frame();
            proof {
                lemma_push_pop(scope@, first);
            }
            let x = match block(program, &mut first_scope, ledger, first_block, 0, depth) {
                Ok(x) => x,
                Err(e) => {
                    proof {
                        lemma_proceeds_transitive(start, first, ledger@, safe);
                        lemma_scope_ok_extends(scope@, first, ledger@);
                    }
                    return Err(e);
                },
            };
            let ghost second = ledger@;
            proof {
                lemma_push_pop(first_scope@, second);
            }
            first_scope.pop_frame();
            let mut second_scope = scope.duplicate();
            second_scope.push_frame();
            proof {
                lemma_proceeds_transitive(start, first, second, safe);
                lemma_scope_ok_extends(scope@, first, second);
                lemma_push_pop(scope@, second);
            }
            let y = match block(program, &mut second_scope, ledger, second_block, 0, depth) {
                Ok(y) => y,
                Err(e) => {
                    proof {
                        lemma_proceeds_transitive(start, second, ledger@, safe);
                        lemma_scope_ok_extends(scope@, second, ledger@);
                    }
                    return Err(e);
                },
            };
            let ghost third = ledger@;
            proof {
                lemma_push_pop(second_scope@, third);
            }
            second_scope.pop_frame();
            proof {
                lemma_proceeds_transitive(start, second, third, safe);
                lemma_scope_ok_extends(scope@, second, third);
                lemma_scope_ok_extends(first_scope@, second, third);
                lemma_value_ok_extends(c@, first, third);
                if x is Some {
                    lemma_value_ok_extends(x->Some_0@, second, third);
                }
            }
            let r = join(ledger, wire, scope, first_scope, x, second_scope, y, *span);
            proof {
                lemma_proceeds_transitive(start, third, ledger@, safe);
            }
            r
        },
        Statement::Iteration(variable, lower, upper, body, span) => {
            let x = match evaluate(program, scope, ledger, lower, depth) {
                Ok(v) => v,
                Err(e) => {
                    proof {
                        lemma_scope_ok_extends(scope@, start, ledger@);
                    }
                    return Err(StatementError::ExpressionError(e));
                },
            };
            let ghost first = ledger@;
            proof {
                lemma_scope_ok_extends(scope@, start, first);
            }
            let y = match evaluate(program, scope, ledger, upper, depth) {
                Ok(v) => v,
                Err(e) => {
                    proof {
                        lemma_proceeds_transitive(start, first, ledger@, safe);
                        lemma_scope_ok_extends(scope@, first, ledger@);
                    }
                    return Err(StatementError::ExpressionError(e));
                },
            };
            let ghost second = ledger@;
            proof {
                lemma_proceeds_transitive(start, first, second, safe);
                lemma_scope_ok_extends(scope@, first, second);
            }
            match (bound(&x), bound(&y)) {
                (Some((from, s)), Some((to, t))) => {
                    let ty = match t {
                        Some(t) => t,
                        None => match s {
                            Some(s) => s,
                            None => IntegerType::U32,
                        },
                    };
                    let r = iterate(program, scope, ledger, variable, ty, from, to, body, depth, *span);
                    proof {
                        lemma_proceeds_transitive(start, second, ledger@, safe);
                    }
                    r
                },
                _ => Err(statement_error(Reason::LoopBoundNotConstant, *span)),
            }
        },
        Statement::Assert(condition, span) => {
            let c = match evaluate(program, scope, ledger, condition, depth) {
                Ok(v) => v,
                Err(e) => {
                    proof {
                        lemma_scope_ok_extends(scope@, start, ledger@);
                    }
                    return Err(StatementError::ExpressionError(e));
                },
            };
            let ghost first = ledger@;
            proof {
                lemma_scope_ok_extends(scope@, start, first);
            }
            match c {
                Value::Scalar(Scalar::Boolean { wire, .. }) => {
                    let from = ledger.num_constraints();
                    enforce_true(ledger, wire);
                    let ghost demanded = ledger@;
                    ledger.mark(from);
                    proof {
                        lemma_mark(first, demanded);
                        lemma_scope_ok_extends(scope@, first, ledger@);
                    }
                    Ok(None)
                },
                _ => Err(StatementError::ExpressionError(boolean_error(Reason::NotBoolean, *span))),
            }
        },
        Statement::AssertEq(left, right, span) => {
            let x = match evaluate(program, scope, ledger, left, depth) {
                Ok(v) => v,
                Err(e) => {
                    proof {
                        lemma_scope_ok_extends(scope@, start, ledger@);
                    }
                    return Err(StatementError::ExpressionError(e));
                },
            };
            let ghost first = ledger@;
            proof {
                lemma_scope_ok_extends(scope@, start, first);
            }
            let y = match evaluate(program, scope, ledger, right, depth) {
                Ok(v) => v,
                Err(e) => {
                    proof {
                        lemma_proceeds_transitive(start, first, ledger@, safe);
                        lemma_scope_ok_extends(scope@, first, ledger@);
                    }
                    return Err(StatementError::ExpressionError(e));
                },
            };
            let ghost second = ledger@;
            proof {
                lemma_proceeds_transitive(start, first, second, safe);
                lemma_scope_ok_extends(scope@, first, second);
                lemma_value_ok_extends(x@, first, second);
            }
            let ghost ym = y@;
            let u = match resolve_like(ledger, x, &y, *span) {
                Ok(u) => u,
                Err(e) => {
                    proof {
                        lemma_proceeds_transitive(start, second, ledger@, safe);
                        lemma_scope_ok_extends(scope@, second, ledger@);
                    }
                    return Err(StatementError::ExpressionError(e));
                },
            };
            let ghost third = ledger@;
            proof {
                lemma_proceeds_transitive(start, second, third, safe);
                lemma_scope_ok_extends(scope@, second, third);
                lemma_value_ok_extends(ym, second, third);
            }
            let v = match resolve_like(ledger, y, &u, *span) {
                Ok(v) => v,
                Err(e) => {
                    proof {
                        lemma_proceeds_transitive(start, third, ledger@, safe);
                        lemma_scope_ok_extends(scope@, third, ledger@);
                    }
                    return Err(StatementError::ExpressionError(e));
                },
            };
            let ghost fourth = ledger@;
            proof {
                lemma_proceeds_transitive(start, third, fourth, safe);
                lemma_scope_ok_extends(scope@, third, fourth);
                lemma_value_ok_extends(u@, third, fourth);
            }
            if u.fits(&v) {
                let from = ledger.num_constraints();
                equal_value(ledger, &u, &v);
                let ghost demanded = ledger@;
                ledger.mark(from);
                proof {
                    lemma_mark(fourth, demanded);
                    lemma_scope_ok_extends(scope@, fourth, ledger@);
                }
                Ok(None)
            } else {
                Err(StatementError::ExpressionError(expression_error(Reason::IncompatibleTypes, *span)))
            }
        },
        Statement::Expression(expression, _) => {
            let r = evaluate(program, scope, ledger, expression, depth);
            proof {
                lemma_scope_ok_extends(scope@, start, ledger@);
            }
            match r {
                Ok(_) => Ok(None),
                Err(e) => Err(StatementError::ExpressionError(e)),
            }
        },
    }
}

/// Synthesizes the statements of a block from `index` on. A statement that
/// returns ends the block.
pub fn block(
    program: &Program,
    scope: &mut SymbolScope,
    ledger: &mut ConstraintLedger,
    statements: &Vec<Statement>,
    index: usize,
    depth: usize,
) -> (r: Result<Option<Value>, StatementError>)
    requires
        old(ledger)@.wf(),
        scope_ok(old(scope)@, old(ledger)@),
    ensures
        (returned(r), final(scope)@, final(ledger)@) == block_spec(
            *program,
            old(scope)@,
            old(ledger)@,
            *statements,
            index as nat,
            depth as nat,
        ),
        execution_holds(
            assertion_free(*program) && block_safe(*statements),
            old(ledger)@,
            final(scope)@,
            final(ledger)@,
            returned(r),
        ),
    decreases depth, 2nat, statements, 0nat, statements@.len() - index,
{
    if index >= statements.len() {
        return Ok(None);
    }
    let ghost safe = assertion_free(*program) && block_safe(*statements);
    let ghost start = old(ledger)@;
    assert(block_safe(*statements) ==> statement_safe(statements@[index as int]));
    match execute(program, scope, ledger, &statements[index], depth) {
        Ok(None) => {
            let ghost middle = ledger@;
            let r = block(program, scope, ledger, statements, index + 1, depth);
            proof {
                lemma_proceeds_transitive(start, middle, ledger@, safe);
            }
            r
        },
        other => other,
    }
}

fn iterate(
    program: &Program,
    scope: &mut SymbolScope,
    ledger: &mut ConstraintLedger,
    variable: &Identifier,
    ty: IntegerType,
    from: i128,
    to: i128,
    body: &Vec<Statement>,
    depth: usize,
    span: Span,
) -> (r: Result<Option<Value>, StatementError>)
    requires
        old(ledger)@.wf(),
        scope_ok(old(scope)@, old(ledger)@),
    ensures
        (returned(r), final(scope)@, final(ledger)@) == iteration_spec(
            *program,
            old(scope)@,
            old(ledger)@,
            *variable,
            ty,
            from as int,
            to as int,
            *body,
            depth as nat,
            span,
        ),
        execution_holds(
            assertion_free(*program) && block_safe(*body),
            old(ledger)@,
            final(scope)@,
            final(ledger)@,
            returned(r),
        ),
    decreases depth, 2nat, body, 1nat, to - from,
{
    let ghost safe = assertion_free(*program) && block_safe(*body);
    let ghost start = old(ledger)@;
    let ghost goal = iteration_spec(
        *program,
        old(scope)@,
        old(ledger)@,
        *variable,
        ty,
        from as int,
        to as int,
        *body,
        depth as nat,
        span,
    );
    let mut k = from;
    while k < to
        invariant
            from <= k,
            start.wf(),
            start == old(ledger)@,
            safe == (assertion_free(*program) && block_safe(*body)),
            goal == iteration_spec(
                *program,
                old(scope)@,
                old(ledger)@,
                *variable,
                ty,
                from as int,
                to as int,
                *body,
                depth as nat,
                span,
            ),
            goal == iteration_spec(
                *program,
                scope@,
                ledger@,
                *variable,
                ty,
                k as int,
                to as int,
                *body,
                depth as nat,
                span,
            ),
            ledger@.wf(),
            ledger@.proceeds(start, safe),
            scope_ok(scope@, ledger@),
        decreases to - k,
    {
        let ghost entry = ledger@;
        if !ty.holds(k) {
            return Err(StatementError::ExpressionError(integer_error(Reason::OutOfRange, span)));
        }
        let first_wire = constant_integer(ledger, ty, k);
        let ghost first = ledger@;
        let value = Value::Scalar(Scalar::Integer { ty, first: first_wire, constant: Some(k) });
        proof {
            lemma_scope_ok_extends(scope@, entry, first);
            lemma_push_pop(scope@, first);
            lemma_define_ok(scope_push(scope@), variable.name@, value@, first);
        }
        scope.push_frame();
        scope.define(variable.name.clone(), value);
        let r = block(program, scope, ledger, body, 0, depth);
        let ghost second = ledger@;
        proof {
            lemma_proceeds_transitive(entry, first, second, safe);
            lemma_proceeds_transitive(start, entry, second, safe);
            lemma_push_pop(scope@, second);
        }
        scope.pop_frame();
        match r {
            Ok(None) => {},
            other => {
                return other;
            },
        }
        k = k + 1;
    }
    Ok(None)
}

} // verus!
