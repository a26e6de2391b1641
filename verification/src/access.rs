//! Access into composite values: the element of an array, the component of a
//! tuple, the member of a circuit instance.
//!
//! An array can be indexed by an integer that is known when the circuit is
//! built, or by a wire. The ledger has no indexed access, so an index on a
//! wire becomes a chain of selections over all the elements of the array, each
//! guarded by the equality of the index and the element's position.

use crate::arithmetic::{at_least, at_least_spec, constant_integer, constant_integer_spec};
use crate::boolean::{enforce_true, true_constraint};
use crate::errors::{
    array_error, array_fault, circuit_error, circuit_fault, expression_error, expression_fault,
    ExpressionError, Reason,
};
use crate::integer::{is_bundle, IntegerType};
use crate::ledger::{
    combination_value, lemma_enforce, lemma_flag, lemma_follows_transitive, lemma_value_single,
    wire_known, ConstraintLedger, LedgerModel, ONE,
};
use crate::operators::{evaluated_ok, integer_value, outcome, same_integer_spec, Evaluated};
use crate::program::Span;
use crate::value::{
    compatible, lemma_value_ok_extends, lemma_values_ok_extends, lemma_view, models,
    select_value, select_value_spec, texts, value_ok, values_ok, Scalar, Value, ValueModel,
};
use vstd::prelude::*;

verus! {

/// How an index names an element.
pub enum Index {
    /// By a number known when the circuit is built.
    Constant(i128),
    /// By the bundle of an unsigned integer.
    Wire(IntegerType, usize),
    /// Not at all: the value is no index.
    Invalid,
}

pub open spec fn index_of(index: ValueModel) -> Index {
    match index {
        ValueModel::Scalar(Scalar::Unresolved(n)) => Index::Constant(n),
        ValueModel::Scalar(Scalar::Integer { constant: Some(n), .. }) => Index::Constant(n),
        ValueModel::Scalar(Scalar::Integer { ty, first, constant: None }) => if ty.spec_signed() {
            Index::Invalid
        } else {
            Index::Wire(ty, first)
        },
        _ => Index::Invalid,
    }
}

/// The position of the latest of the first `upto` names that equals `name`.
pub open spec fn position(names: Seq<Seq<char>>, name: Seq<char>, upto: nat) -> Option<nat>
    decreases upto,
{
    if upto == 0 || upto > names.len() {
        None
    } else if names[upto - 1] == name {
        Some((upto - 1) as nat)
    } else {
        position(names, name, (upto - 1) as nat)
    }
}

/// `tuple.index`.
pub open spec fn tuple_access_spec(value: ValueModel, index: usize, span: Span) -> Result<
    ValueModel,
    ExpressionError,
> {
    match value {
        ValueModel::Tuple(elements) => if index < elements.len() {
            Ok(elements[index as int])
        } else {
            Err(expression_fault(Reason::IndexOutOfBounds, span))
        },
        _ => Err(expression_fault(Reason::NotTuple, span)),
    }
}

/// `instance.member`.
pub open spec fn member_access_spec(value: ValueModel, member: Seq<char>, span: Span) -> Result<
    ValueModel,
    ExpressionError,
> {
    match value {
        ValueModel::Circuit(_, names, values) => match position(names, member, names.len()) {
            Some(k) => if k < values.len() {
                Ok(values[k as int])
            } else {
                Err(circuit_fault(Reason::UndefinedMember, span))
            },
            None => Err(circuit_fault(Reason::UndefinedMember, span)),
        },
        _ => Err(circuit_fault(Reason::NotCircuit, span)),
    }
}

/// The demand that the index on a wire lies inside the array: the wire of
/// `top >= index` is one. An index whose witness lies outside is recorded as a violation.
pub open spec fn bounded_spec(ledger: LedgerModel, ty: IntegerType, index: usize, top: i128) -> LedgerModel {
    let limit = constant_integer_spec(ledger, ty, top);
    let inside = at_least_spec(limit.0, limit.1, index, ty);
    inside.0.enforce(true_constraint(inside.1)).flag(inside.0.value(inside.1) == Some(0i128))
}

/// The chain of selections from position `k` on: `chosen` is what the
/// positions before `k` have selected.
pub open spec fn pick_spec(
    ledger: LedgerModel,
    elements: Seq<ValueModel>,
    ty: IntegerType,
    index: usize,
    k: nat,
    chosen: ValueModel,
    span: Span,
) -> Evaluated
    decreases elements.len() - k,
{
    if k >= elements.len() {
        (Ok(chosen), ledger)
    } else if !compatible(elements[k as int], chosen) {
        (Err(array_fault(Reason::IncompatibleTypes, span)), ledger)
    } else {
        let here = constant_integer_spec(ledger, ty, k as i128);
        let hit = same_integer_spec(here.0, index, here.1, ty);
        let next = select_value_spec(hit.0, hit.1, elements[k as int], chosen);
        pick_spec(next.1, elements, ty, index, k + 1, next.0, span)
    }
}

/// The element that the bundle `index` of type `ty` names.
pub open spec fn multiplex_spec(
    ledger: LedgerModel,
    elements: Seq<ValueModel>,
    ty: IntegerType,
    index: usize,
    span: Span,
) -> Evaluated {
    if elements.len() == 0 {
        (Err(array_fault(Reason::EmptyArray, span)), ledger)
    } else if !ty.contains(elements.len() - 1) {
        (Err(array_fault(Reason::IndexOutOfBounds, span)), ledger)
    } else {
        pick_spec(
            bounded_spec(ledger, ty, index, (elements.len() - 1) as i128),
            elements,
            ty,
            index,
            1,
            elements[0],
            span,
        )
    }
}

/// `array[index]`.
pub open spec fn index_spec(
    ledger: LedgerModel,
    array: ValueModel,
    index: ValueModel,
    span: Span,
) -> Evaluated {
    match array {
        ValueModel::Array(elements) => match index_of(index) {
            Index::Constant(n) => if 0 <= n < elements.len() {
                (Ok(elements[n as int]), ledger)
            } else {
                (Err(array_fault(Reason::IndexOutOfBounds, span)), ledger)
            },
            Index::Wire(ty, first) => multiplex_spec(ledger, elements, ty, first, span),
            Index::Invalid => (Err(array_fault(Reason::InvalidIndex, span)), ledger),
        },
        _ => (Err(array_fault(Reason::NotArray, span)), ledger),
    }
}

/// The position of the latest name that equals `name`.
pub fn find_text(names: &Vec<String>, name: &String) -> (r: Option<usize>)
    ensures
        r matches Some(k) ==> position(texts(names@), name@, names@.len()) == Some(k as nat) && k
            < names.len(),
        r is None ==> position(texts(names@), name@, names@.len()) is None,
{
    let mut upto = names.len();
    while upto > 0
        invariant
            upto <= names.len(),
            position(texts(names@), name@, names@.len()) == position(
                texts(names@),
                name@,
                upto as nat,
            ),
        decreases upto,
    {
        assert(texts(names@)[upto - 1] == names@[upto - 1]@);
        if names[upto - 1].eq(name) {
            return Some(upto - 1);
        }
        upto = upto - 1;
    }
    None
}

/// `tuple.index`.
pub fn tuple_access(value: &Value, index: usize, span: Span) -> (r: Result<Value, ExpressionError>)
    ensures
        outcome(r) == tuple_access_spec(value@, index, span),
{
    proof {
        lemma_view(value);
    }
    match value {
        Value::Tuple(elements) => if index < elements.len() {
            Ok(elements[index].duplicate())
        } else {
            Err(expression_error(Reason::IndexOutOfBounds, span))
        },
        _ => Err(expression_error(Reason::NotTuple, span)),
    }
}

/// `instance.member`.
pub fn member_access(value: &Value, member: &String, span: Span) -> (r: Result<
    Value,
    ExpressionError,
>)
    ensures
        outcome(r) == member_access_spec(value@, member@, span),
{
    proof {
        lemma_view(value);
    }
    match value {
        Value::Circuit(_, names, values) => match find_text(names, member) {
            Some(k) => if k < values.len() {
                Ok(values[k].duplicate())
            } else {
                Err(circuit_error(Reason::UndefinedMember, span))
            },
            None => Err(circuit_error(Reason::UndefinedMember, span)),
        },
        _ => Err(circuit_error(Reason::NotCircuit, span)),
    }
}

/// What is backed by the ledger of a composite value is backed in each of its parts.
pub proof fn lemma_parts_ok(value: ValueModel, ledger: LedgerModel)
    requires
        value_ok(value, ledger),
    ensures
        value matches ValueModel::Array(elements) ==> values_ok(elements, ledger),
        value matches ValueModel::Tuple(elements) ==> values_ok(elements, ledger),
        value matches ValueModel::Circuit(_, names, elements) ==> values_ok(elements, ledger)
            && names.len() == elements.len(),
{
}

fn bounded(ledger: &mut ConstraintLedger, ty: IntegerType, index: usize, top: i128)
    requires
        old(ledger)@.wf(),
        is_bundle(old(ledger)@, index, ty.spec_width() as nat),
        ty.contains(top as int),
    ensures
        final(ledger)@ == bounded_spec(old(ledger)@, ty, index, top),
        final(ledger)@.follows(old(ledger)@),
        final(ledger)@.wf(),
{
    let limit = constant_integer(ledger, ty, top);
    let ghost first = ledger@;
    proof {
        lemma_value_ok_extends(integer_value(ty, index, None), old(ledger)@, first);
    }
    let inside = at_least(ledger, limit, index, ty);
    let ghost second = ledger@;
    let outside = match ledger.value(inside) {
        Some(v) => v == 0,
        None => false,
    };
    enforce_true(ledger, inside);
    ledger.flag(outside);
    proof {
        let k = true_constraint(inside);
        let third = second.enforce(k);
        lemma_value_single(1, inside, second.values);
        lemma_value_single(1, ONE, second.values);
        assert(k.a[0].variable == inside);
        if !outside && k.known(second.values) {
            assert(wire_known(second.values, inside));
            assert(combination_value(k.a, second.values) == 1);
            assert(k.holds(second.values));
        }
        lemma_enforce(second, k);
        lemma_flag(third, outside);
        lemma_follows_transitive(old(ledger)@, first, second);
        assert(ledger@.follows(second));
        lemma_follows_transitive(old(ledger)@, second, ledger@);
    }
}

fn pick(
    ledger: &mut ConstraintLedger,
    elements: &Vec<Value>,
    ty: IntegerType,
    index: usize,
    k: usize,
    chosen: Value,
    span: Span,
) -> (r: Result<Value, ExpressionError>)
    requires
        old(ledger)@.wf(),
        is_bundle(old(ledger)@, index, ty.spec_width() as nat),
        values_ok(models(elements@), old(ledger)@),
        value_ok(chosen@, old(ledger)@),
        k <= elements.len(),
        elements.len() >= 1,
        !ty.spec_signed(),
        ty.contains(elements.len() - 1),
    ensures
        (outcome(r), final(ledger)@) == pick_spec(
            old(ledger)@,
            models(elements@),
            ty,
            index,
            k as nat,
            chosen@,
            span,
        ),
        evaluated_ok(old(ledger)@, (outcome(r), final(ledger)@)),
    decreases elements.len() - k,
{
    if k >= elements.len() {
        return Ok(chosen);
    }
    assert(models(elements@)[k as int] == elements@[k as int]@);
    assert(value_ok(models(elements@)[k as int], old(ledger)@));
    if !elements[k].fits(&chosen) {
        return Err(array_error(Reason::IncompatibleTypes, span));
    }
    let here = constant_integer(ledger, ty, k as i128);
    let ghost first = ledger@;
    proof {
        lemma_value_ok_extends(integer_value(ty, index, None), old(ledger)@, first);
    }
    let hit = crate::operators::comparison(
        ledger,
        crate::program::BinaryOperator::Eq,
        index,
        here,
        ty,
    );
    let ghost second = ledger@;
    proof {
        lemma_follows_transitive(old(ledger)@, first, second);
        lemma_values_ok_extends(models(elements@), old(ledger)@, second);
        lemma_value_ok_extends(chosen@, old(ledger)@, second);
        assert(value_ok(models(elements@)[k as int], second));
    }
    let next = select_value(ledger, hit, &elements[k], &chosen);
    let ghost third = ledger@;
    proof {
        lemma_follows_transitive(old(ledger)@, second, third);
        lemma_values_ok_extends(models(elements@), old(ledger)@, third);
        lemma_value_ok_extends(integer_value(ty, index, None), old(ledger)@, third);
    }
    let r = pick(ledger, elements, ty, index, k + 1, next, span);
    proof {
        lemma_follows_transitive(old(ledger)@, third, ledger@);
    }
    r
}

fn multiplex(
    ledger: &mut ConstraintLedger,
    elements: &Vec<Value>,
    ty: IntegerType,
    index: usize,
    span: Span,
) -> (r: Result<Value, ExpressionError>)
    requires
        old(ledger)@.wf(),
        is_bundle(old(ledger)@, index, ty.spec_width() as nat),
        values_ok(models(elements@), old(ledger)@),
        !ty.spec_signed(),
    ensures
        (outcome(r), final(ledger)@) == multiplex_spec(
            old(ledger)@,
            models(elements@),
            ty,
            index,
            span,
        ),
        evaluated_ok(old(ledger)@, (outcome(r), final(ledger)@)),
{
    if elements.len() == 0 {
        return Err(array_error(Reason::EmptyArray, span));
    }
    let top = elements.len() - 1;
    if top as u128 > 0xFFFF_FFFF_FFFF_FFFF || !ty.holds(top as i128) {
        return Err(array_error(Reason::IndexOutOfBounds, span));
    }
    bounded(ledger, ty, index, top as i128);
    let ghost first = ledger@;
    proof {
        lemma_values_ok_extends(models(elements@), old(ledger)@, first);
        lemma_value_ok_extends(integer_value(ty, index, None), old(ledger)@, first);
        assert(models(elements@)[0] == elements@[0]@);
        assert(value_ok(models(elements@)[0], first));
    }
    let r = pick(ledger, elements, ty, index, 1, elements[0].duplicate(), span);
    proof {
        lemma_follows_transitive(old(ledger)@, first, ledger@);
    }
    r
}

/// `array[index]`.
pub fn index(ledger: &mut ConstraintLedger, array: &Value, position: &Value, span: Span) -> (r:
    Result<Value, ExpressionError>)
    requires
        old(ledger)@.wf(),
        value_ok(array@, old(ledger)@),
        value_ok(position@, old(ledger)@),
    ensures
        (outcome(r), final(ledger)@) == index_spec(old(ledger)@, array@, position@, span),
        evaluated_ok(old(ledger)@, (outcome(r), final(ledger)@)),
{
    proof {
        lemma_view(array);
        lemma_parts_ok(array@, old(ledger)@);
    }
    match array {
        Value::Array(elements) => {
            match position {
                Value::Scalar(Scalar::Unresolved(n)) => constant_index(elements, *n, span),
                Value::Scalar(Scalar::Integer { constant: Some(n), .. }) => constant_index(
                    elements,
                    *n,
                    span,
                ),
                Value::Scalar(Scalar::Integer { ty, first, constant: None }) => {
                    if ty.signed() {
                        Err(array_error(Reason::InvalidIndex, span))
                    } else {
                        multiplex(ledger, elements, *ty, *first, span)
                    }
                },
                _ => Err(array_error(Reason::InvalidIndex, span)),
            }
        },
        _ => Err(array_error(Reason::NotArray, span)),
    }
}

fn constant_index(elements: &Vec<Value>, n: i128, span: Span) -> (r: Result<Value, ExpressionError>)
    ensures
        outcome(r) == (if 0 <= n < elements@.len() {
            Ok::<ValueModel, ExpressionError>(models(elements@)[n as int])
        } else {
            Err(array_fault(Reason::IndexOutOfBounds, span))
        }),
{
    if 0 <= n && (n as u128) < (elements.len() as u128) {
        Ok(elements[n as usize].duplicate())
    } else {
        Err(array_error(Reason::IndexOutOfBounds, span))
    }
}

/// The member that a name finds in a circuit instance that the ledger backs
/// is one of its members.
pub proof fn lemma_position(value: ValueModel, member: Seq<char>)
    ensures
        value matches ValueModel::Circuit(_, names, _) ==> (position(names, member, names.len())
            matches Some(k) ==> k < names.len()),
{
    match value {
        ValueModel::Circuit(_, names, _) => {
            lemma_position_bound(names, member, names.len());
        },
        _ => {},
    }
}

proof fn lemma_position_bound(names: Seq<Seq<char>>, name: Seq<char>, upto: nat)
    ensures
        position(names, name, upto) matches Some(k) ==> k < upto && k < names.len(),
    decreases upto,
{
    if upto == 0 || upto > names.len() {
    } else if names[upto - 1] == name {
    } else {
        lemma_position_bound(names, name, (upto - 1) as nat);
    }
}

} // verus!
