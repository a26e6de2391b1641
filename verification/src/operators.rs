//! What literals and operators do to values and to the ledger.
//!
//! Every function here takes the values of its operands, which are already
//! evaluated, and returns the value of the result or the error of the tier
//! that the operator belongs to. Operands of different kinds are never
//! coerced: the operator fails.

use crate::arithmetic::{
    arithmetic, arithmetic_result, arithmetic_spec, at_least, at_least_spec, constant_integer,
    constant_integer_spec, constant_wire, constant_wire_spec, field_arithmetic,
    field_arithmetic_spec, Arithmetic,
};
use crate::boolean::{
    bit_of, constant_bit, constant_bit_spec, gate, gate_spec, not, not_spec, Gate,
};
use crate::errors::{
    boolean_error, boolean_fault, expression_error, expression_fault, integer_error,
    integer_fault, ExpressionError, Reason,
};
use crate::integer::{bundle_value, is_bundle, lemma_bundle_stable, IntegerType};
use crate::ledger::{lemma_follows_transitive, ConstraintLedger, LedgerModel};
use crate::program::{BinaryOperator, Span, Type, TypeModel};
use crate::value::{
    lemma_value_ok_extends, lemma_view, same_integer_type, value_ok, Scalar, Value, ValueModel,
};
use vstd::prelude::*;

verus! {

/// The value of an expression, or why it has none, and the ledger that the
/// evaluation leaves.
pub type Evaluated = (Result<ValueModel, ExpressionError>, LedgerModel);

pub open spec fn outcome(r: Result<Value, ExpressionError>) -> Result<
    ValueModel,
    ExpressionError,
> {
    match r {
        Ok(v) => Ok(v@),
        Err(e) => Err(e),
    }
}

pub open spec fn boolean_value(wire: usize, constant: Option<bool>) -> ValueModel {
    ValueModel::Scalar(Scalar::Boolean { wire, constant })
}

pub open spec fn integer_value(ty: IntegerType, first: usize, constant: Option<i128>) -> ValueModel {
    ValueModel::Scalar(Scalar::Integer { ty, first, constant })
}

pub open spec fn field_value(wire: usize, constant: Option<i128>) -> ValueModel {
    ValueModel::Scalar(Scalar::Field { wire, constant })
}

/// What every operator guarantees: the ledger follows the one before, and the
/// value returned is backed by it.
pub open spec fn evaluated_ok(before: LedgerModel, after: Evaluated) -> bool {
    &&& after.1.follows(before)
    &&& after.1.wf()
    &&& after.0 matches Ok(v) ==> value_ok(v, after.1)
}

pub open spec fn boolean_literal_spec(ledger: LedgerModel, literal: bool) -> Evaluated {
    let g = constant_bit_spec(ledger, literal);
    (Ok(boolean_value(g.1, Some(literal))), g.0)
}

/// A literal of an integer type. A literal outside the type is an error.
pub open spec fn integer_literal_spec(
    ledger: LedgerModel,
    ty: IntegerType,
    literal: i128,
    span: Span,
) -> Evaluated {
    if ty.contains(literal as int) {
        let g = constant_integer_spec(ledger, ty, literal);
        (Ok(integer_value(ty, g.1, Some(literal))), g.0)
    } else {
        (Err(integer_fault(Reason::OutOfRange, span)), ledger)
    }
}

pub open spec fn field_literal_spec(ledger: LedgerModel, literal: i128) -> Evaluated {
    let g = constant_wire_spec(ledger, literal);
    (Ok(field_value(g.1, Some(literal))), g.0)
}

/// Gives a number without a type the type `ty`; leaves every other value as it is.
pub open spec fn resolve_spec(
    ledger: LedgerModel,
    value: ValueModel,
    ty: TypeModel,
    span: Span,
) -> Evaluated {
    match value {
        ValueModel::Scalar(Scalar::Unresolved(n)) => match ty {
            TypeModel::Integer(t) => integer_literal_spec(ledger, t, n, span),
            TypeModel::Field => field_literal_spec(ledger, n),
            _ => (Err(expression_fault(Reason::UnresolvedNumber, span)), ledger),
        },
        _ => (Ok(value), ledger),
    }
}

/// Gives a number without a type the type of `other`; leaves every other value as it is.
pub open spec fn resolve_like_spec(
    ledger: LedgerModel,
    value: ValueModel,
    other: ValueModel,
    span: Span,
) -> Evaluated {
    match value {
        ValueModel::Scalar(Scalar::Unresolved(n)) => match other {
            ValueModel::Scalar(Scalar::Integer { ty, .. }) => integer_literal_spec(
                ledger,
                ty,
                n,
                span,
            ),
            ValueModel::Scalar(Scalar::Field { .. }) => field_literal_spec(ledger, n),
            _ => (Err(expression_fault(Reason::UnresolvedNumber, span)), ledger),
        },
        _ => (Ok(value), ledger),
    }
}

pub open spec fn negated(constant: Option<bool>) -> Option<bool> {
    match constant {
        Some(b) => Some(!b),
        None => None,
    }
}

/// `!value`.
pub open spec fn not_value_spec(ledger: LedgerModel, value: ValueModel, span: Span) -> Evaluated {
    match value {
        ValueModel::Scalar(Scalar::Boolean { wire, constant }) => {
            let g = not_spec(ledger, wire);
            (Ok(boolean_value(g.1, negated(constant))), g.0)
        },
        _ => (Err(boolean_fault(Reason::NotBoolean, span)), ledger),
    }
}

/// What an operator on booleans gives for two constants.
pub open spec fn folded_gate(gate: Gate, p: Option<bool>, q: Option<bool>) -> Option<bool> {
    match (p, q) {
        (Some(x), Some(y)) => Some(
            match gate {
                Gate::And => x && y,
                Gate::Or => x || y,
                Gate::Same => x == y,
            },
        ),
        _ => None,
    }
}

/// What a comparison gives for two constants.
pub open spec fn folded_comparison(op: BinaryOperator, p: Option<i128>, q: Option<i128>) -> Option<
    bool,
> {
    match (p, q) {
        (Some(x), Some(y)) => Some(
            match op {
                BinaryOperator::Ge => x >= y,
                BinaryOperator::Gt => x > y,
                BinaryOperator::Le => x <= y,
                BinaryOperator::Lt => x < y,
                BinaryOperator::Ne => x != y,
                _ => x == y,
            },
        ),
        _ => None,
    }
}

/// The wire of `x == y` for two bundles of one type: `x >= y && y >= x`.
pub open spec fn same_integer_spec(ledger: LedgerModel, x: usize, y: usize, ty: IntegerType) -> (
    LedgerModel,
    usize,
) {
    let a = at_least_spec(ledger, x, y, ty);
    let b = at_least_spec(a.0, y, x, ty);
    gate_spec(b.0, Gate::And, a.1, b.1)
}

/// The wire of a comparison of two bundles of one type.
pub open spec fn comparison_spec(
    ledger: LedgerModel,
    op: BinaryOperator,
    x: usize,
    y: usize,
    ty: IntegerType,
) -> (LedgerModel, usize) {
    match op {
        BinaryOperator::Ge => at_least_spec(ledger, x, y, ty),
        BinaryOperator::Le => at_least_spec(ledger, y, x, ty),
        BinaryOperator::Lt => {
            let g = at_least_spec(ledger, x, y, ty);
            not_spec(g.0, g.1)
        },
        BinaryOperator::Gt => {
            let g = at_least_spec(ledger, y, x, ty);
            not_spec(g.0, g.1)
        },
        BinaryOperator::Ne => {
            let g = same_integer_spec(ledger, x, y, ty);
            not_spec(g.0, g.1)
        },
        _ => same_integer_spec(ledger, x, y, ty),
    }
}

pub open spec fn arithmetic_of(op: BinaryOperator) -> Arithmetic {
    match op {
        BinaryOperator::Sub => Arithmetic::Sub,
        BinaryOperator::Mul => Arithmetic::Mul,
        _ => Arithmetic::Add,
    }
}

/// What an arithmetic operator gives for two constants.
pub open spec fn folded_arithmetic(op: BinaryOperator, p: Option<i128>, q: Option<i128>) -> Option<
    int,
> {
    match (p, q) {
        (Some(x), Some(y)) => Some(arithmetic_result(arithmetic_of(op), x as int, y as int)),
        _ => None,
    }
}

pub open spec fn narrowed(value: Option<int>) -> Option<i128> {
    match value {
        Some(v) => Some(v as i128),
        None => None,
    }
}

/// `a && b` and `a || b`: both operands must be booleans.
pub open spec fn logical_spec(
    ledger: LedgerModel,
    kind: Gate,
    a: ValueModel,
    b: ValueModel,
    span: Span,
) -> Evaluated {
    match (a, b) {
        (
            ValueModel::Scalar(Scalar::Boolean { wire: x, constant: p }),
            ValueModel::Scalar(Scalar::Boolean { wire: y, constant: q }),
        ) => {
            let g = gate_spec(ledger, kind, x, y);
            (Ok(boolean_value(g.1, folded_gate(kind, p, q))), g.0)
        },
        _ => (Err(boolean_fault(Reason::NotBoolean, span)), ledger),
    }
}

/// `a == b` and `a != b`: two booleans, or two integers of one type.
pub open spec fn equality_spec(
    ledger: LedgerModel,
    op: BinaryOperator,
    a: ValueModel,
    b: ValueModel,
    span: Span,
) -> Evaluated {
    match (a, b) {
        (
            ValueModel::Scalar(Scalar::Boolean { wire: x, constant: p }),
            ValueModel::Scalar(Scalar::Boolean { wire: y, constant: q }),
        ) => {
            let g = gate_spec(ledger, Gate::Same, x, y);
            if op == BinaryOperator::Ne {
                let h = not_spec(g.0, g.1);
                (Ok(boolean_value(h.1, negated(folded_gate(Gate::Same, p, q)))), h.0)
            } else {
                (Ok(boolean_value(g.1, folded_gate(Gate::Same, p, q))), g.0)
            }
        },
        (
            ValueModel::Scalar(Scalar::Integer { ty: s, first: x, constant: p }),
            ValueModel::Scalar(Scalar::Integer { ty: t, first: y, constant: q }),
        ) => {
            if s == t {
                let g = comparison_spec(ledger, op, x, y, s);
                (Ok(boolean_value(g.1, folded_comparison(op, p, q))), g.0)
            } else {
                (Err(integer_fault(Reason::IntegerTypesDiffer, span)), ledger)
            }
        },
        _ => (Err(expression_fault(Reason::IncompatibleTypes, span)), ledger),
    }
}

/// `a >= b`, `a > b`, `a <= b`, `a < b`: two integers of one type.
pub open spec fn relational_spec(
    ledger: LedgerModel,
    op: BinaryOperator,
    a: ValueModel,
    b: ValueModel,
    span: Span,
) -> Evaluated {
    match (a, b) {
        (
            ValueModel::Scalar(Scalar::Integer { ty: s, first: x, constant: p }),
            ValueModel::Scalar(Scalar::Integer { ty: t, first: y, constant: q }),
        ) => {
            if s == t {
                let g = comparison_spec(ledger, op, x, y, s);
                (Ok(boolean_value(g.1, folded_comparison(op, p, q))), g.0)
            } else {
                (Err(integer_fault(Reason::IntegerTypesDiffer, span)), ledger)
            }
        },
        _ => (Err(integer_fault(Reason::NotInteger, span)), ledger),
    }
}

/// `a + b`, `a - b`, `a * b`: two integers of one type, or two field
/// elements. A result of two constant integers that leaves the type is an
/// error; a result of witness values that leaves the type is recorded by the
/// ledger as a violation. The result of two field elements is exact: it is
/// refused, or recorded as a violation, only where it is no machine integer.
pub open spec fn arithmetic_value_spec(
    ledger: LedgerModel,
    op: BinaryOperator,
    a: ValueModel,
    b: ValueModel,
    span: Span,
) -> Evaluated {
    match (a, b) {
        (
            ValueModel::Scalar(Scalar::Integer { ty: s, first: x, constant: p }),
            ValueModel::Scalar(Scalar::Integer { ty: t, first: y, constant: q }),
        ) => {
            if s != t {
                (Err(integer_fault(Reason::IntegerTypesDiffer, span)), ledger)
            } else if folded_arithmetic(op, p, q) matches Some(r) && !s.contains(r) {
                (Err(integer_fault(Reason::OutOfRange, span)), ledger)
            } else {
                let g = arithmetic_spec(ledger, arithmetic_of(op), x, y, s);
                (Ok(integer_value(s, g.1, narrowed(folded_arithmetic(op, p, q)))), g.0)
            }
        },
        (
            ValueModel::Scalar(Scalar::Field { wire: x, constant: p }),
            ValueModel::Scalar(Scalar::Field { wire: y, constant: q }),
        ) => {
            if folded_arithmetic(op, p, q) matches Some(r) && !(i128::MIN <= r <= i128::MAX) {
                (Err(expression_fault(Reason::Unrepresentable, span)), ledger)
            } else {
                let g = field_arithmetic_spec(ledger, arithmetic_of(op), x, y);
                (Ok(field_value(g.1, narrowed(folded_arithmetic(op, p, q)))), g.0)
            }
        },
        _ => (Err(integer_fault(Reason::NotInteger, span)), ledger),
    }
}

/// A binary operator on two values as they are: a number without a type is
/// no operand of any operator.
pub open spec fn operate_spec(
    ledger: LedgerModel,
    op: BinaryOperator,
    a: ValueModel,
    b: ValueModel,
    span: Span,
) -> Evaluated {
    match op {
        BinaryOperator::And => logical_spec(ledger, Gate::And, a, b, span),
        BinaryOperator::Or => logical_spec(ledger, Gate::Or, a, b, span),
        BinaryOperator::Eq | BinaryOperator::Ne => equality_spec(ledger, op, a, b, span),
        BinaryOperator::Ge | BinaryOperator::Gt | BinaryOperator::Le | BinaryOperator::Lt => {
            relational_spec(ledger, op, a, b, span)
        },
        _ => arithmetic_value_spec(ledger, op, a, b, span),
    }
}

/// Whether the operator is `&&` or `||`.
pub open spec fn is_logical(op: BinaryOperator) -> bool {
    op == BinaryOperator::And || op == BinaryOperator::Or
}

/// Whether the value is a number: an integer, a field element or a number
/// without a type.
pub open spec fn is_number(value: ValueModel) -> bool {
    match value {
        ValueModel::Scalar(Scalar::Integer { .. }) => true,
        ValueModel::Scalar(Scalar::Field { .. }) => true,
        ValueModel::Scalar(Scalar::Unresolved(_)) => true,
        _ => false,
    }
}

/// A binary operator. Between two numbers, a number without a type first
/// takes the type of the other operand. `&&` and `||`, and every operator
/// with an operand that is no number, take their operands as they are, so
/// that the operator refuses in its own tier what it cannot take: `&&` and
/// `||` refuse a number without a type as they refuse an integer.
pub open spec fn binary_spec(
    ledger: LedgerModel,
    op: BinaryOperator,
    a: ValueModel,
    b: ValueModel,
    span: Span,
) -> Evaluated {
    if is_logical(op) || !is_number(a) || !is_number(b) {
        operate_spec(ledger, op, a, b, span)
    } else {
        let left = resolve_like_spec(ledger, a, b, span);
        match left.0 {
            Err(_) => left,
            Ok(x) => {
                let right = resolve_like_spec(left.1, b, x, span);
                match right.0 {
                    Err(_) => right,
                    Ok(y) => operate_spec(right.1, op, x, y, span),
                }
            },
        }
    }
}

/// Whether the value is a boolean.
pub open spec fn is_boolean(value: ValueModel) -> bool {
    value matches ValueModel::Scalar(Scalar::Boolean { .. })
}

/// `!`, `&&` and `||` take booleans only: an operand of any other kind, an
/// integer, a field element or a number without a type among them, is refused
/// with the error of the booleans, whatever the other operand is, and nothing
/// is recorded in the ledger. No operand is turned into a boolean.
pub proof fn lemma_boolean_operands(
    ledger: LedgerModel,
    op: BinaryOperator,
    a: ValueModel,
    b: ValueModel,
    span: Span,
)
    requires
        is_logical(op),
    ensures
        !is_boolean(a) ==> not_value_spec(ledger, a, span) == (
            Err::<ValueModel, ExpressionError>(boolean_fault(Reason::NotBoolean, span)),
            ledger,
        ),
        !is_boolean(a) || !is_boolean(b) ==> binary_spec(ledger, op, a, b, span) == (
            Err::<ValueModel, ExpressionError>(boolean_fault(Reason::NotBoolean, span)),
            ledger,
        ),
        is_boolean(a) && is_boolean(b) ==> binary_spec(ledger, op, a, b, span).0 is Ok,
{
}

/// A number outside an integer type never takes that type: as a literal of
/// the type, as a number without a type that is given the type, and as a
/// number without a type facing an operand of the type, it is refused, and
/// nothing is recorded in the ledger. No value is reduced into the range.
pub proof fn lemma_literal_refused(
    ledger: LedgerModel,
    ty: IntegerType,
    literal: i128,
    first: usize,
    constant: Option<i128>,
    span: Span,
)
    requires
        !ty.contains(literal as int),
    ensures
        integer_literal_spec(ledger, ty, literal, span) == (
            Err::<ValueModel, ExpressionError>(integer_fault(Reason::OutOfRange, span)),
            ledger,
        ),
        resolve_spec(
            ledger,
            ValueModel::Scalar(Scalar::Unresolved(literal)),
            TypeModel::Integer(ty),
            span,
        ) == integer_literal_spec(ledger, ty, literal, span),
        resolve_like_spec(
            ledger,
            ValueModel::Scalar(Scalar::Unresolved(literal)),
            integer_value(ty, first, constant),
            span,
        ) == integer_literal_spec(ledger, ty, literal, span),
{
}

/// A sum, a difference or a product of two constants that lies outside the
/// type of its operands is refused, and nothing is recorded in the ledger.
pub proof fn lemma_constant_result_refused(
    ledger: LedgerModel,
    op: BinaryOperator,
    ty: IntegerType,
    x: usize,
    p: i128,
    y: usize,
    q: i128,
    span: Span,
)
    requires
        !ty.contains(arithmetic_result(arithmetic_of(op), p as int, q as int)),
    ensures
        arithmetic_value_spec(
            ledger,
            op,
            integer_value(ty, x, Some(p)),
            integer_value(ty, y, Some(q)),
            span,
        ) == (Err::<ValueModel, ExpressionError>(integer_fault(Reason::OutOfRange, span)), ledger),
{
}

pub fn boolean_literal(ledger: &mut ConstraintLedger, literal: bool) -> (r: Value)
    requires
        old(ledger)@.wf(),
    ensures
        (Ok::<ValueModel, ExpressionError>(r@), final(ledger)@) == boolean_literal_spec(
            old(ledger)@,
            literal,
        ),
        evaluated_ok(old(ledger)@, (Ok(r@), final(ledger)@)),
{
    let w = constant_bit(ledger, literal);
    Value::Scalar(Scalar::Boolean { wire: w, constant: Some(literal) })
}

pub fn integer_literal(ledger: &mut ConstraintLedger, ty: IntegerType, literal: i128, span: Span) -> (r:
    Result<Value, ExpressionError>)
    requires
        old(ledger)@.wf(),
    ensures
        (outcome(r), final(ledger)@) == integer_literal_spec(old(ledger)@, ty, literal, span),
        evaluated_ok(old(ledger)@, (outcome(r), final(ledger)@)),
{
    if ty.holds(literal) {
        let first = constant_integer(ledger, ty, literal);
        Ok(Value::Scalar(Scalar::Integer { ty, first, constant: Some(literal) }))
    } else {
        Err(integer_error(Reason::OutOfRange, span))
    }
}

pub fn field_literal(ledger: &mut ConstraintLedger, literal: i128) -> (r: Value)
    requires
        old(ledger)@.wf(),
    ensures
        (Ok::<ValueModel, ExpressionError>(r@), final(ledger)@) == field_literal_spec(
            old(ledger)@,
            literal,
        ),
        evaluated_ok(old(ledger)@, (Ok(r@), final(ledger)@)),
{
    let w = constant_wire(ledger, literal);
    Value::Scalar(Scalar::Field { wire: w, constant: Some(literal) })
}

/// Gives a number without a type the type `ty`; returns every other value as it is.
pub fn resolve(ledger: &mut ConstraintLedger, value: Value, ty: &Type, span: Span) -> (r: Result<
    Value,
    ExpressionError,
>)
    requires
        old(ledger)@.wf(),
        value_ok(value@, old(ledger)@),
    ensures
        (outcome(r), final(ledger)@) == resolve_spec(old(ledger)@, value@, ty@, span),
        evaluated_ok(old(ledger)@, (outcome(r), final(ledger)@)),
{
    match value {
        Value::Scalar(Scalar::Unresolved(n)) => match ty {
            Type::Integer(t) => integer_literal(ledger, *t, n, span),
            Type::Field => Ok(field_literal(ledger, n)),
            _ => Err(expression_error(Reason::UnresolvedNumber, span)),
        },
        _ => Ok(value),
    }
}

/// Gives a number without a type the type of `other`; returns every other value as it is.
pub fn resolve_like(ledger: &mut ConstraintLedger, value: Value, other: &Value, span: Span) -> (r:
    Result<Value, ExpressionError>)
    requires
        old(ledger)@.wf(),
        value_ok(value@, old(ledger)@),
    ensures
        (outcome(r), final(ledger)@) == resolve_like_spec(old(ledger)@, value@, other@, span),
        evaluated_ok(old(ledger)@, (outcome(r), final(ledger)@)),
{
    match value {
        Value::Scalar(Scalar::Unresolved(n)) => match other {
            Value::Scalar(Scalar::Integer { ty, .. }) => integer_literal(ledger, *ty, n, span),
            Value::Scalar(Scalar::Field { .. }) => Ok(field_literal(ledger, n)),
            _ => Err(expression_error(Reason::UnresolvedNumber, span)),
        },
        _ => Ok(value),
    }
}

fn negate(constant: Option<bool>) -> (r: Option<bool>)
    ensures
        r == negated(constant),
{
    match constant {
        Some(b) => Some(!b),
        None => None,
    }
}

fn fold_gate(kind: Gate, p: Option<bool>, q: Option<bool>) -> (r: Option<bool>)
    ensures
        r == folded_gate(kind, p, q),
{
    match (p, q) {
        (Some(x), Some(y)) => Some(
            match kind {
                Gate::And => x && y,
                Gate::Or => x || y,
                Gate::Same => x == y,
            },
        ),
        _ => None,
    }
}

fn fold_comparison(op: BinaryOperator, p: Option<i128>, q: Option<i128>) -> (r: Option<bool>)
    ensures
        r == folded_comparison(op, p, q),
{
    match (p, q) {
        (Some(x), Some(y)) => Some(
            match op {
                BinaryOperator::Ge => x >= y,
                BinaryOperator::Gt => x > y,
                BinaryOperator::Le => x <= y,
                BinaryOperator::Lt => x < y,
                BinaryOperator::Ne => x != y,
                _ => x == y,
            },
        ),
        _ => None,
    }
}

/// `!value`.
pub fn not_value(ledger: &mut ConstraintLedger, value: &Value, span: Span) -> (r: Result<
    Value,
    ExpressionError,
>)
    requires
        old(ledger)@.wf(),
        value_ok(value@, old(ledger)@),
    ensures
        (outcome(r), final(ledger)@) == not_value_spec(old(ledger)@, value@, span),
        evaluated_ok(old(ledger)@, (outcome(r), final(ledger)@)),
{
    match value {
        Value::Scalar(Scalar::Boolean { wire, constant }) => {
            let w = not(ledger, *wire);
            Ok(Value::Scalar(Scalar::Boolean { wire: w, constant: negate(*constant) }))
        },
        _ => Err(boolean_error(Reason::NotBoolean, span)),
    }
}

proof fn lemma_bundle_extends(
    before: LedgerModel,
    after: LedgerModel,
    first: usize,
    ty: IntegerType,
)
    requires
        before.wf(),
        is_bundle(before, first, ty.spec_width() as nat),
        after.extends(before),
    ensures
        is_bundle(after, first, ty.spec_width() as nat),
        bundle_value(after, first, ty.spec_width() as nat, ty.spec_base()) == bundle_value(
            before,
            first,
            ty.spec_width() as nat,
            ty.spec_base(),
        ),
{
    lemma_value_ok_extends(integer_value(ty, first, None), before, after);
    lemma_bundle_stable(before, after, first, ty.spec_width() as nat, ty.spec_base());
}

fn same_integer(ledger: &mut ConstraintLedger, x: usize, y: usize, ty: IntegerType) -> (w: usize)
    requires
        old(ledger)@.wf(),
        is_bundle(old(ledger)@, x, ty.spec_width() as nat),
        is_bundle(old(ledger)@, y, ty.spec_width() as nat),
    ensures
        (final(ledger)@, w) == same_integer_spec(old(ledger)@, x, y, ty),
        final(ledger)@.follows(old(ledger)@),
        final(ledger)@.wf(),
        final(ledger)@.is_bit(w),
        final(ledger)@.value(w) == bit_of(
            folded_comparison(
                BinaryOperator::Eq,
                bundle_value(old(ledger)@, x, ty.spec_width() as nat, ty.spec_base()),
                bundle_value(old(ledger)@, y, ty.spec_width() as nat, ty.spec_base()),
            ),
        ),
{
    let a = at_least(ledger, x, y, ty);
    let ghost first = ledger@;
    proof {
        lemma_bundle_extends(old(ledger)@, first, x, ty);
        lemma_bundle_extends(old(ledger)@, first, y, ty);
    }
    let b = at_least(ledger, y, x, ty);
    let ghost second = ledger@;
    let w = gate(ledger, Gate::And, a, b);
    proof {
        lemma_follows_transitive(old(ledger)@, first, second);
        lemma_follows_transitive(old(ledger)@, second, ledger@);
        assert(second.value(a) == first.value(a));
    }
    w
}

/// The wire of a comparison of two bundles of one type.
pub fn comparison(
    ledger: &mut ConstraintLedger,
    op: BinaryOperator,
    x: usize,
    y: usize,
    ty: IntegerType,
) -> (w: usize)
    requires
        old(ledger)@.wf(),
        is_bundle(old(ledger)@, x, ty.spec_width() as nat),
        is_bundle(old(ledger)@, y, ty.spec_width() as nat),
    ensures
        (final(ledger)@, w) == comparison_spec(old(ledger)@, op, x, y, ty),
        final(ledger)@.follows(old(ledger)@),
        final(ledger)@.wf(),
        final(ledger)@.is_bit(w),
        final(ledger)@.value(w) == bit_of(
            folded_comparison(
                op,
                bundle_value(old(ledger)@, x, ty.spec_width() as nat, ty.spec_base()),
                bundle_value(old(ledger)@, y, ty.spec_width() as nat, ty.spec_base()),
            ),
        ),
{
    match op {
        BinaryOperator::Ge => at_least(ledger, x, y, ty),
        BinaryOperator::Le => at_least(ledger, y, x, ty),
        BinaryOperator::Lt => {
            let g = at_least(ledger, x, y, ty);
            let ghost middle = ledger@;
            let w = not(ledger, g);
            proof {
                lemma_follows_transitive(old(ledger)@, middle, ledger@);
            }
            w
        },
        BinaryOperator::Gt => {
            let g = at_least(ledger, y, x, ty);
            let ghost middle = ledger@;
            let w = not(ledger, g);
            proof {
                lemma_follows_transitive(old(ledger)@, middle, ledger@);
            }
            w
        },
        BinaryOperator::Ne => {
            let g = same_integer(ledger, x, y, ty);
            let ghost middle = ledger@;
            let w = not(ledger, g);
            proof {
                lemma_follows_transitive(old(ledger)@, middle, ledger@);
            }
            w
        },
        _ => same_integer(ledger, x, y, ty),
    }
}

fn logical(ledger: &mut ConstraintLedger, kind: Gate, a: &Value, b: &Value, span: Span) -> (r:
    Result<Value, ExpressionError>)
    requires
        old(ledger)@.wf(),
        value_ok(a@, old(ledger)@),
        value_ok(b@, old(ledger)@),
    ensures
        (outcome(r), final(ledger)@) == logical_spec(old(ledger)@, kind, a@, b@, span),
        evaluated_ok(old(ledger)@, (outcome(r), final(ledger)@)),
{
    match (a, b) {
        (
            Value::Scalar(Scalar::Boolean { wire: x, constant: p }),
            Value::Scalar(Scalar::Boolean { wire: y, constant: q }),
        ) => {
            let w = gate(ledger, kind, *x, *y);
            Ok(Value::Scalar(Scalar::Boolean { wire: w, constant: fold_gate(kind, *p, *q) }))
        },
        _ => Err(boolean_error(Reason::NotBoolean, span)),
    }
}

fn equality(ledger: &mut ConstraintLedger, op: BinaryOperator, a: &Value, b: &Value, span: Span) -> (r:
    Result<Value, ExpressionError>)
    requires
        old(ledger)@.wf(),
        value_ok(a@, old(ledger)@),
        value_ok(b@, old(ledger)@),
    ensures
        (outcome(r), final(ledger)@) == equality_spec(old(ledger)@, op, a@, b@, span),
        evaluated_ok(old(ledger)@, (outcome(r), final(ledger)@)),
{
    match (a, b) {
        (
            Value::Scalar(Scalar::Boolean { wire: x, constant: p }),
            Value::Scalar(Scalar::Boolean { wire: y, constant: q }),
        ) => {
            let g = gate(ledger, Gate::Same, *x, *y);
            let folded = fold_gate(Gate::Same, *p, *q);
            match op {
                BinaryOperator::Ne => {
                    let ghost middle = ledger@;
                    let w = not(ledger, g);
                    proof {
                        lemma_follows_transitive(old(ledger)@, middle, ledger@);
                    }
                    Ok(Value::Scalar(Scalar::Boolean { wire: w, constant: negate(folded) }))
                },
                _ => Ok(Value::Scalar(Scalar::Boolean { wire: g, constant: folded })),
            }
        },
        (
            Value::Scalar(Scalar::Integer { ty: s, first: x, constant: p }),
            Value::Scalar(Scalar::Integer { ty: t, first: y, constant: q }),
        ) => {
            if same_integer_type(*s, *t) {
                let w = comparison(ledger, op, *x, *y, *s);
                Ok(
                    Value::Scalar(
                        Scalar::Boolean { wire: w, constant: fold_comparison(op, *p, *q) },
                    ),
                )
            } else {
                Err(integer_error(Reason::IntegerTypesDiffer, span))
            }
        },
        _ => Err(expression_error(Reason::IncompatibleTypes, span)),
    }
}

fn relational(ledger: &mut ConstraintLedger, op: BinaryOperator, a: &Value, b: &Value, span: Span) -> (r:
    Result<Value, ExpressionError>)
    requires
        old(ledger)@.wf(),
        value_ok(a@, old(ledger)@),
        value_ok(b@, old(ledger)@),
    ensures
        (outcome(r), final(ledger)@) == relational_spec(old(ledger)@, op, a@, b@, span),
        evaluated_ok(old(ledger)@, (outcome(r), final(ledger)@)),
{
    match (a, b) {
        (
            Value::Scalar(Scalar::Integer { ty: s, first: x, constant: p }),
            Value::Scalar(Scalar::Integer { ty: t, first: y, constant: q }),
        ) => {
            if same_integer_type(*s, *t) {
                let w = comparison(ledger, op, *x, *y, *s);
                Ok(
                    Value::Scalar(
                        Scalar::Boolean { wire: w, constant: fold_comparison(op, *p, *q) },
                    ),
                )
            } else {
                Err(integer_error(Reason::IntegerTypesDiffer, span))
            }
        },
        _ => Err(integer_error(Reason::NotInteger, span)),
    }
}

/// The result of an arithmetic operator on two constants, if it is a machine integer.
fn fold_arithmetic(op: BinaryOperator, x: i128, y: i128) -> (r: Option<i128>)
    ensures
        r matches Some(v) ==> v == arithmetic_result(arithmetic_of(op), x as int, y as int),
        r is None ==> !(i128::MIN <= arithmetic_result(arithmetic_of(op), x as int, y as int)
            <= i128::MAX),
{
    match op {
        BinaryOperator::Sub => x.checked_sub(y),
        BinaryOperator::Mul => x.checked_mul(y),
        _ => x.checked_add(y),
    }
}

fn arithmetic_kind(op: BinaryOperator) -> (r: Arithmetic)
    ensures
        r == arithmetic_of(op),
{
    match op {
        BinaryOperator::Sub => Arithmetic::Sub,
        BinaryOperator::Mul => Arithmetic::Mul,
        _ => Arithmetic::Add,
    }
}

fn arithmetic_value(
    ledger: &mut ConstraintLedger,
    op: BinaryOperator,
    a: &Value,
    b: &Value,
    span: Span,
) -> (r: Result<Value, ExpressionError>)
    requires
        old(ledger)@.wf(),
        value_ok(a@, old(ledger)@),
        value_ok(b@, old(ledger)@),
    ensures
        (outcome(r), final(ledger)@) == arithmetic_value_spec(old(ledger)@, op, a@, b@, span),
        evaluated_ok(old(ledger)@, (outcome(r), final(ledger)@)),
{
    match (a, b) {
        (
            Value::Scalar(Scalar::Integer { ty: s, first: x, constant: p }),
            Value::Scalar(Scalar::Integer { ty: t, first: y, constant: q }),
        ) => {
            if !same_integer_type(*s, *t) {
                return Err(integer_error(Reason::IntegerTypesDiffer, span));
            }
            let constant = match (*p, *q) {
                (Some(u), Some(v)) => match fold_arithmetic(op, u, v) {
                    Some(folded) => {
                        if !s.holds(folded) {
                            return Err(integer_error(Reason::OutOfRange, span));
                        }
                        Some(folded)
                    },
                    None => {
                        return Err(integer_error(Reason::OutOfRange, span));
                    },
                },
                _ => None,
            };
            let first = arithmetic(ledger, arithmetic_kind(op), *x, *y, *s);
            Ok(Value::Scalar(Scalar::Integer { ty: *s, first, constant }))
        },
        (
            Value::Scalar(Scalar::Field { wire: x, constant: p }),
            Value::Scalar(Scalar::Field { wire: y, constant: q }),
        ) => {
            let constant = match (*p, *q) {
                (Some(u), Some(v)) => match fold_arithmetic(op, u, v) {
                    Some(folded) => Some(folded),
                    None => {
                        return Err(expression_error(Reason::Unrepresentable, span));
                    },
                },
                _ => None,
            };
            let wire = field_arithmetic(ledger, arithmetic_kind(op), *x, *y);
            Ok(Value::Scalar(Scalar::Field { wire, constant }))
        },
        _ => Err(integer_error(Reason::NotInteger, span)),
    }
}

/// A binary operator on two values as they are.
pub fn operate(ledger: &mut ConstraintLedger, op: BinaryOperator, a: &Value, b: &Value, span: Span) -> (r:
    Result<Value, ExpressionError>)
    requires
        old(ledger)@.wf(),
        value_ok(a@, old(ledger)@),
        value_ok(b@, old(ledger)@),
    ensures
        (outcome(r), final(ledger)@) == operate_spec(old(ledger)@, op, a@, b@, span),
        evaluated_ok(old(ledger)@, (outcome(r), final(ledger)@)),
{
    match op {
        BinaryOperator::And => logical(ledger, Gate::And, a, b, span),
        BinaryOperator::Or => logical(ledger, Gate::Or, a, b, span),
        BinaryOperator::Eq | BinaryOperator::Ne => equality(ledger, op, a, b, span),
        BinaryOperator::Ge | BinaryOperator::Gt | BinaryOperator::Le | BinaryOperator::Lt => {
            relational(ledger, op, a, b, span)
        },
        _ => arithmetic_value(ledger, op, a, b, span),
    }
}

/// Whether the value is a number.
fn number(value: &Value) -> (r: bool)
    ensures
        r == is_number(value@),
{
    proof {
        lemma_view(value);
    }
    match value {
        Value::Scalar(Scalar::Integer { .. }) => true,
        Value::Scalar(Scalar::Field { .. }) => true,
        Value::Scalar(Scalar::Unresolved(_)) => true,
        _ => false,
    }
}

/// A binary operator on two values.
pub fn binary(ledger: &mut ConstraintLedger, op: BinaryOperator, a: Value, b: Value, span: Span) -> (r:
    Result<Value, ExpressionError>)
    requires
        old(ledger)@.wf(),
        value_ok(a@, old(ledger)@),
        value_ok(b@, old(ledger)@),
    ensures
        (outcome(r), final(ledger)@) == binary_spec(old(ledger)@, op, a@, b@, span),
        evaluated_ok(old(ledger)@, (outcome(r), final(ledger)@)),
{
    let logical = match op {
        BinaryOperator::And | BinaryOperator::Or => true,
        _ => false,
    };
    if logical || !number(&a) || !number(&b) {
        return operate(ledger, op, &a, &b, span);
    }
    let ghost bm = b@;
    let x = match resolve_like(ledger, a, &b, span) {
        Ok(x) => x,
        Err(e) => {
            return Err(e);
        },
    };
    let ghost first = ledger@;
    proof {
        lemma_value_ok_extends(bm, old(ledger)@, first);
    }
    let y = match resolve_like(ledger, b, &x, span) {
        Ok(y) => y,
        Err(e) => {
            proof {
                lemma_follows_transitive(old(ledger)@, first, ledger@);
            }
            return Err(e);
        },
    };
    let ghost second = ledger@;
    proof {
        lemma_value_ok_extends(x@, first, second);
        lemma_follows_transitive(old(ledger)@, first, second);
    }
    let r = operate(ledger, op, &x, &y, span);
    proof {
        lemma_follows_transitive(old(ledger)@, second, ledger@);
    }
    r
}

} // verus!
