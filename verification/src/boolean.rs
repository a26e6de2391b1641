//! Constraint patterns over boolean wires.
//!
//! Every pattern allocates one wire for its result and records the one
//! constraint that ties the result to the operands.

use crate::ledger::{
    combination_value, lemma_allocate, lemma_enforce, lemma_value_pair, lemma_value_single, pair,
    single, wire_known, wire_value, ConstraintLedger, ConstraintModel, LedgerModel,
    LinearCombination, Term, ONE,
};
use vstd::prelude::*;

verus! {

/// The gates with two boolean operands.
#[derive(Clone, Copy, Debug, PartialEq, Eq, Structural)]
pub enum Gate {
    /// Both operands are one.
    And,
    /// At least one operand is one.
    Or,
    /// The operands are equal.
    Same,
}

/// The witness value of a boolean.
pub open spec fn bit_of(value: Option<bool>) -> Option<i128> {
    match value {
        Some(b) => Some(if b { 1i128 } else { 0i128 }),
        None => None,
    }
}

pub open spec fn negation(a: Option<i128>) -> Option<i128> {
    match a {
        Some(x) => Some(if x == 0 { 1i128 } else { 0i128 }),
        None => None,
    }
}

pub open spec fn gate_output(gate: Gate, a: Option<i128>, b: Option<i128>) -> Option<i128> {
    match (a, b) {
        (Some(x), Some(y)) => Some(
            match gate {
                Gate::And => if x == 1 && y == 1 { 1i128 } else { 0i128 },
                Gate::Or => if x == 0 && y == 0 { 0i128 } else { 1i128 },
                Gate::Same => if x == y { 1i128 } else { 0i128 },
            },
        ),
        _ => None,
    }
}

pub open spec fn selection(c: Option<i128>, x: Option<i128>, y: Option<i128>) -> Option<i128> {
    match (c, x, y) {
        (Some(cv), Some(xv), Some(yv)) => Some(if cv == 1 { xv } else { yv }),
        _ => None,
    }
}

/// `1 - wire`.
pub open spec fn complement(wire: usize) -> Seq<Term> {
    pair(1, ONE, -1i128, wire)
}

/// `left - right`.
pub open spec fn difference(left: usize, right: usize) -> Seq<Term> {
    pair(1, left, -1i128, right)
}

/// The constraint of a gate with result `out`.
pub open spec fn gate_constraint(gate: Gate, a: usize, b: usize, out: usize) -> ConstraintModel {
    match gate {
        Gate::And => ConstraintModel { a: single(1, a), b: single(1, b), c: single(1, out) },
        Gate::Or => ConstraintModel { a: complement(a), b: complement(b), c: complement(out) },
        Gate::Same => ConstraintModel {
            a: difference(a, b),
            b: difference(a, b),
            c: complement(out),
        },
    }
}

/// A fresh boolean wire: `(1 - w) * w = 0`.
pub open spec fn allocate_bit_spec(ledger: LedgerModel, value: Option<bool>) -> (LedgerModel, usize) {
    let w = ledger.next_wire();
    (
        ledger.allocate(bit_of(value)).enforce(
            ConstraintModel { a: complement(w), b: single(1, w), c: Seq::empty() },
        ),
        w,
    )
}

/// A wire pinned to a literal: `w * 1 = literal`.
pub open spec fn constant_bit_spec(ledger: LedgerModel, literal: bool) -> (LedgerModel, usize) {
    let w = ledger.next_wire();
    (
        ledger.allocate(bit_of(Some(literal))).enforce(
            ConstraintModel {
                a: single(1, w),
                b: single(1, ONE),
                c: single(if literal { 1i128 } else { 0i128 }, ONE),
            },
        ),
        w,
    )
}

/// Negation: `(1 - a) * 1 = w`.
pub open spec fn not_spec(ledger: LedgerModel, a: usize) -> (LedgerModel, usize) {
    let w = ledger.next_wire();
    (
        ledger.allocate(negation(ledger.value(a))).enforce(
            ConstraintModel { a: complement(a), b: single(1, ONE), c: single(1, w) },
        ),
        w,
    )
}

pub open spec fn gate_spec(ledger: LedgerModel, gate: Gate, a: usize, b: usize) -> (
    LedgerModel,
    usize,
) {
    let w = ledger.next_wire();
    (
        ledger.allocate(gate_output(gate, ledger.value(a), ledger.value(b))).enforce(
            gate_constraint(gate, a, b, w),
        ),
        w,
    )
}

/// Selection between two wires: `c * (x - y) = w - y`.
pub open spec fn select_spec(ledger: LedgerModel, c: usize, x: usize, y: usize) -> (
    LedgerModel,
    usize,
) {
    let w = ledger.next_wire();
    (
        ledger.allocate(selection(ledger.value(c), ledger.value(x), ledger.value(y))).enforce(
            ConstraintModel { a: single(1, c), b: difference(x, y), c: difference(w, y) },
        ),
        w,
    )
}

/// The demand that two wires agree: `(x - y) * 1 = 0`.
pub open spec fn equal_constraint(x: usize, y: usize) -> ConstraintModel {
    ConstraintModel { a: difference(x, y), b: single(1, ONE), c: Seq::empty() }
}

/// The demand that a wire is one: `w * 1 = 1`.
pub open spec fn true_constraint(w: usize) -> ConstraintModel {
    ConstraintModel { a: single(1, w), b: single(1, ONE), c: single(1, ONE) }
}

/// What every pattern of this module guarantees of the ledger it leaves and
/// of the wire it returns.
pub open spec fn gate_result(before: LedgerModel, after: LedgerModel, out: usize) -> bool {
    &&& after.follows(before)
    &&& after.wf()
    &&& after.values.len() == before.values.len() + 1
    &&& out == before.values.len()
    &&& after.constraints.len() == before.constraints.len() + 1
}

proof fn lemma_terms(values: Seq<Option<i128>>, a: usize, b: usize)
    ensures
        combination_value(single(1, a), values) == wire_value(values, a),
        combination_value(single(1, ONE), values) == wire_value(values, ONE),
        combination_value(single(0, ONE), values) == 0,
        combination_value(complement(a), values) == wire_value(values, ONE) - wire_value(values, a),
        combination_value(difference(a, b), values) == wire_value(values, a) - wire_value(
            values,
            b,
        ),
        combination_value(Seq::<Term>::empty(), values) == 0,
{
    lemma_value_single(1, a, values);
    lemma_value_single(1, ONE, values);
    lemma_value_single(0, ONE, values);
    lemma_value_pair(1, ONE, -1i128, a, values);
    lemma_value_pair(1, a, -1i128, b, values);
}

proof fn lemma_bit_products(x: int, y: int)
    requires
        x == 0 || x == 1,
        y == 0 || y == 1,
    ensures
        x * y == (if x == 1 && y == 1 { 1int } else { 0int }),
        (1 - x) * (1 - y) == (if x == 0 && y == 0 { 1int } else { 0int }),
        (x - y) * (x - y) == (if x == y { 0int } else { 1int }),
        (1 - x) * x == 0,
{
    assert(x * y == (if x == 1 && y == 1 { 1int } else { 0int })) by (nonlinear_arith)
        requires
            x == 0 || x == 1,
            y == 0 || y == 1,
    ;
    assert((1 - x) * (1 - y) == (if x == 0 && y == 0 { 1int } else { 0int })) by (nonlinear_arith)
        requires
            x == 0 || x == 1,
            y == 0 || y == 1,
    ;
    assert((x - y) * (x - y) == (if x == y { 0int } else { 1int })) by (nonlinear_arith)
        requires
            x == 0 || x == 1,
            y == 0 || y == 1,
    ;
    assert((1 - x) * x == 0) by (nonlinear_arith)
        requires
            x == 0 || x == 1,
    ;
}

/// Allocating one wire and tying it down by a constraint that its value
/// fulfils leaves a ledger that follows the one before.
proof fn lemma_step(ledger: LedgerModel, value: Option<i128>, constraint: ConstraintModel)
    requires
        ledger.wf(),
        ledger.values.len() < usize::MAX,
        constraint.within(ledger.values.len() + 1),
        ledger.complete() ==> value is Some,
        constraint.known(ledger.allocate(value).values) ==> constraint.holds(
            ledger.allocate(value).values,
        ),
    ensures
        gate_result(ledger, ledger.allocate(value).enforce(constraint), ledger.next_wire()),
{
    lemma_allocate(ledger, value);
    lemma_enforce(ledger.allocate(value), constraint);
}

pub proof fn lemma_allocate_bit(ledger: LedgerModel, value: Option<bool>)
    requires
        ledger.wf(),
        ledger.values.len() < usize::MAX,
    ensures
        allocate_bit_spec(ledger, value).0.wf(),
        allocate_bit_spec(ledger, value).0.extends(ledger),
        ledger.sound() ==> allocate_bit_spec(ledger, value).0.sound(),
        allocate_bit_spec(ledger, value).0.is_bit(allocate_bit_spec(ledger, value).1),
        allocate_bit_spec(ledger, value).0.values.len() == ledger.values.len() + 1,
        allocate_bit_spec(ledger, value).1 == ledger.values.len(),
        ledger.complete() && value is Some ==> allocate_bit_spec(ledger, value).0.complete(),
        allocate_bit_spec(ledger, value).0.constraints.len() == ledger.constraints.len() + 1,
        allocate_bit_spec(ledger, value).0.violated == ledger.violated,
        allocate_bit_spec(ledger, value).0.values[ledger.values.len() as int] == bit_of(value),
{
    let w = ledger.next_wire();
    let l1 = ledger.allocate(bit_of(value));
    let c = ConstraintModel { a: complement(w), b: single(1, w), c: Seq::empty() };
    lemma_allocate(ledger, bit_of(value));
    lemma_terms(l1.values, w, w);
    lemma_bit_products(wire_value(l1.values, w), wire_value(l1.values, w));
    lemma_enforce(l1, c);
}

pub proof fn lemma_constant_bit(ledger: LedgerModel, literal: bool)
    requires
        ledger.wf(),
        ledger.values.len() < usize::MAX,
    ensures
        gate_result(
            ledger,
            constant_bit_spec(ledger, literal).0,
            constant_bit_spec(ledger, literal).1,
        ),
        constant_bit_spec(ledger, literal).0.is_bit(constant_bit_spec(ledger, literal).1),
{
    let w = ledger.next_wire();
    let value = bit_of(Some(literal));
    let l1 = ledger.allocate(value);
    let coefficient = if literal { 1i128 } else { 0i128 };
    let c = ConstraintModel { a: single(1, w), b: single(1, ONE), c: single(coefficient, ONE) };
    lemma_allocate(ledger, value);
    lemma_terms(l1.values, w, w);
    lemma_value_single(coefficient, ONE, l1.values);
    lemma_step(ledger, value, c);
}

pub proof fn lemma_not(ledger: LedgerModel, a: usize)
    requires
        ledger.wf(),
        ledger.values.len() < usize::MAX,
        ledger.is_bit(a),
    ensures
        gate_result(ledger, not_spec(ledger, a).0, not_spec(ledger, a).1),
        not_spec(ledger, a).0.is_bit(not_spec(ledger, a).1),
{
    let w = ledger.next_wire();
    let value = negation(ledger.value(a));
    let l1 = ledger.allocate(value);
    let c = ConstraintModel { a: complement(a), b: single(1, ONE), c: single(1, w) };
    lemma_allocate(ledger, value);
    lemma_terms(l1.values, a, w);
    lemma_terms(l1.values, w, w);
    if c.known(l1.values) {
        assert(c.a[1].variable == a);
        assert(wire_known(l1.values, a));
    }
    lemma_step(ledger, value, c);
}

pub proof fn lemma_gate(ledger: LedgerModel, gate: Gate, a: usize, b: usize)
    requires
        ledger.wf(),
        ledger.values.len() < usize::MAX,
        ledger.is_bit(a),
        ledger.is_bit(b),
    ensures
        gate_result(ledger, gate_spec(ledger, gate, a, b).0, gate_spec(ledger, gate, a, b).1),
        gate_spec(ledger, gate, a, b).0.is_bit(gate_spec(ledger, gate, a, b).1),
{
    let w = ledger.next_wire();
    let value = gate_output(gate, ledger.value(a), ledger.value(b));
    let l1 = ledger.allocate(value);
    let c = gate_constraint(gate, a, b, w);
    lemma_allocate(ledger, value);
    lemma_terms(l1.values, a, b);
    lemma_terms(l1.values, b, w);
    lemma_terms(l1.values, w, w);
    if c.known(l1.values) {
        match gate {
            Gate::And => {
                assert(c.a[0].variable == a);
                assert(c.b[0].variable == b);
            },
            Gate::Or => {
                assert(c.a[1].variable == a);
                assert(c.b[1].variable == b);
            },
            Gate::Same => {
                assert(c.a[0].variable == a);
                assert(c.a[1].variable == b);
            },
        }
        assert(wire_known(l1.values, a));
        assert(wire_known(l1.values, b));
        lemma_bit_products(wire_value(l1.values, a), wire_value(l1.values, b));
        assert(c.holds(l1.values));
    }
    lemma_step(ledger, value, c);
}

pub proof fn lemma_select(ledger: LedgerModel, c: usize, x: usize, y: usize)
    requires
        ledger.wf(),
        ledger.values.len() < usize::MAX,
        ledger.is_bit(c),
        x < ledger.values.len(),
        y < ledger.values.len(),
    ensures
        gate_result(ledger, select_spec(ledger, c, x, y).0, select_spec(ledger, c, x, y).1),
        ledger.is_bit(x) && ledger.is_bit(y) ==> select_spec(ledger, c, x, y).0.is_bit(
            select_spec(ledger, c, x, y).1,
        ),
{
    let w = ledger.next_wire();
    let value = selection(ledger.value(c), ledger.value(x), ledger.value(y));
    let l1 = ledger.allocate(value);
    let k = ConstraintModel { a: single(1, c), b: difference(x, y), c: difference(w, y) };
    lemma_allocate(ledger, value);
    lemma_terms(l1.values, c, c);
    lemma_terms(l1.values, x, y);
    lemma_terms(l1.values, w, y);
    if k.known(l1.values) {
        assert(k.a[0].variable == c);
        assert(k.b[0].variable == x);
        assert(k.b[1].variable == y);
        assert(wire_known(l1.values, c));
        assert(wire_known(l1.values, x));
        assert(wire_known(l1.values, y));
        assert(k.holds(l1.values)) by (nonlinear_arith)
            requires
                combination_value(k.a, l1.values) == wire_value(l1.values, c),
                combination_value(k.b, l1.values) == wire_value(l1.values, x) - wire_value(
                    l1.values,
                    y,
                ),
                combination_value(k.c, l1.values) == wire_value(l1.values, w) - wire_value(
                    l1.values,
                    y,
                ),
                wire_value(l1.values, c) == 0 || wire_value(l1.values, c) == 1,
                wire_value(l1.values, c) == 1 ==> wire_value(l1.values, w) == wire_value(
                    l1.values,
                    x,
                ),
                wire_value(l1.values, c) == 0 ==> wire_value(l1.values, w) == wire_value(
                    l1.values,
                    y,
                ),
        {
        }
    }
    lemma_step(ledger, value, k);
}

/// Whatever the witness is: where the constraint of a boolean wire holds,
/// the wire carries zero or one.
pub proof fn lemma_bit_forced(values: Seq<Option<i128>>, w: usize)
    requires
        values.len() > 0,
        values[0] == Some(1i128),
        (ConstraintModel { a: complement(w), b: single(1, w), c: Seq::empty() }).holds(values),
    ensures
        wire_value(values, w) == 0 || wire_value(values, w) == 1,
{
    lemma_terms(values, w, w);
    let x = wire_value(values, w);
    assert(x == 0 || x == 1) by (nonlinear_arith)
        requires
            (1 - x) * x == 0,
    ;
}

/// Whatever the witness is: where the constraint of a gate holds and the
/// operands carry bits, the result carries the bit that this kind of gate computes.
pub proof fn lemma_gate_forced(values: Seq<Option<i128>>, gate: Gate, a: usize, b: usize, out: usize)
    requires
        values.len() > 0,
        values[0] == Some(1i128),
        wire_value(values, a) == 0 || wire_value(values, a) == 1,
        wire_value(values, b) == 0 || wire_value(values, b) == 1,
        gate_constraint(gate, a, b, out).holds(values),
    ensures
        Some(wire_value(values, out)) == lift_bit(
            gate_output(gate, Some(wire_value(values, a) as i128), Some(wire_value(values, b) as i128)),
        ),
{
    lemma_terms(values, a, b);
    lemma_terms(values, b, out);
    lemma_terms(values, out, out);
    lemma_bit_products(wire_value(values, a), wire_value(values, b));
}

/// Whatever the witness is: where the constraint of a negation holds, the
/// result carries one minus the operand.
pub proof fn lemma_not_forced(values: Seq<Option<i128>>, a: usize, out: usize)
    requires
        values.len() > 0,
        values[0] == Some(1i128),
        (ConstraintModel { a: complement(a), b: single(1, ONE), c: single(1, out) }).holds(values),
    ensures
        wire_value(values, out) == 1 - wire_value(values, a),
{
    lemma_terms(values, a, out);
    lemma_terms(values, out, out);
    let x = 1 - wire_value(values, a);
    assert(x * 1 == x) by (nonlinear_arith);
}

/// Whatever the witness is: where the constraint of a selection holds and
/// the condition carries a bit, the result carries the first operand where
/// the condition is one and the second where it is zero.
pub proof fn lemma_select_forced(values: Seq<Option<i128>>, c: usize, x: usize, y: usize, out: usize)
    requires
        wire_value(values, c) == 0 || wire_value(values, c) == 1,
        (ConstraintModel { a: single(1, c), b: difference(x, y), c: difference(out, y) }).holds(
            values,
        ),
    ensures
        wire_value(values, out) == (if wire_value(values, c) == 1 {
            wire_value(values, x)
        } else {
            wire_value(values, y)
        }),
{
    lemma_terms(values, c, c);
    lemma_terms(values, x, y);
    lemma_terms(values, out, y);
    let k = wire_value(values, c);
    let d = wire_value(values, x) - wire_value(values, y);
    assert(k * d == (if k == 1 { d } else { 0int })) by (nonlinear_arith)
        requires
            k == 0 || k == 1,
    ;
}

/// Whatever the witness is: where the demand that two wires agree holds,
/// they carry the same value; where the demand that a wire is one holds, it
/// carries one.
pub proof fn lemma_demands_forced(values: Seq<Option<i128>>, x: usize, y: usize)
    requires
        values.len() > 0,
        values[0] == Some(1i128),
    ensures
        equal_constraint(x, y).holds(values) ==> wire_value(values, x) == wire_value(values, y),
        true_constraint(x).holds(values) ==> wire_value(values, x) == 1,
{
    lemma_terms(values, x, y);
    let d = wire_value(values, x) - wire_value(values, y);
    let v = wire_value(values, x);
    assert(d * 1 == d) by (nonlinear_arith);
    assert(v * 1 == v) by (nonlinear_arith);
    lemma_value_single(1, ONE, values);
}

pub open spec fn lift_bit(value: Option<i128>) -> Option<int> {
    match value {
        Some(v) => Some(v as int),
        None => None,
    }
}

fn not_witness(a: Option<i128>) -> (r: Option<i128>)
    ensures
        r == negation(a),
{
    match a {
        Some(x) => Some(if x == 0 { 1i128 } else { 0i128 }),
        None => None,
    }
}

fn gate_witness(gate: Gate, a: Option<i128>, b: Option<i128>) -> (r: Option<i128>)
    ensures
        r == gate_output(gate, a, b),
{
    match (a, b) {
        (Some(x), Some(y)) => Some(
            match gate {
                Gate::And => if x == 1 && y == 1 { 1i128 } else { 0i128 },
                Gate::Or => if x == 0 && y == 0 { 0i128 } else { 1i128 },
                Gate::Same => if x == y { 1i128 } else { 0i128 },
            },
        ),
        _ => None,
    }
}

fn select_witness(c: Option<i128>, x: Option<i128>, y: Option<i128>) -> (r: Option<i128>)
    ensures
        r == selection(c, x, y),
{
    match (c, x, y) {
        (Some(cv), Some(xv), Some(yv)) => Some(if cv == 1 { xv } else { yv }),
        _ => None,
    }
}

fn gate_combinations(gate: Gate, a: usize, b: usize, out: usize) -> (r: (
    LinearCombination,
    LinearCombination,
    LinearCombination,
))
    ensures
        (ConstraintModel { a: r.0@, b: r.1@, c: r.2@ }) == gate_constraint(gate, a, b, out),
{
    match gate {
        Gate::And => (
            LinearCombination::of(1, a),
            LinearCombination::of(1, b),
            LinearCombination::of(1, out),
        ),
        Gate::Or => (
            LinearCombination::of_two(1, ONE, -1, a),
            LinearCombination::of_two(1, ONE, -1, b),
            LinearCombination::of_two(1, ONE, -1, out),
        ),
        Gate::Same => (
            LinearCombination::of_two(1, a, -1, b),
            LinearCombination::of_two(1, a, -1, b),
            LinearCombination::of_two(1, ONE, -1, out),
        ),
    }
}

/// Allocates a boolean wire with the given witness, or without one.
pub fn allocate_bit(ledger: &mut ConstraintLedger, value: Option<bool>) -> (w: usize)
    requires
        old(ledger)@.wf(),
    ensures
        (final(ledger)@, w) == allocate_bit_spec(old(ledger)@, value),
        final(ledger)@.wf(),
        final(ledger)@.extends(old(ledger)@),
        final(ledger)@.asserted == old(ledger)@.asserted,
        old(ledger)@.sound() ==> final(ledger)@.sound(),
        old(ledger)@.complete() && value is Some ==> final(ledger)@.complete(),
        final(ledger)@.is_bit(w),
        w == old(ledger)@.values.len(),
        final(ledger)@.values.len() == old(ledger)@.values.len() + 1,
{
    let witness = match value {
        Some(b) => Some(if b { 1i128 } else { 0i128 }),
        None => None,
    };
    let w = ledger.allocate(witness);
    ledger.enforce(
        LinearCombination::of_two(1, ONE, -1, w),
        LinearCombination::of(1, w),
        LinearCombination::zero(),
    );
    proof {
        lemma_allocate_bit(old(ledger)@, value);
        lemma_allocate(old(ledger)@, bit_of(value));
        lemma_enforce(
            old(ledger)@.allocate(bit_of(value)),
            ConstraintModel { a: complement(w), b: single(1, w), c: Seq::empty() },
        );
    }
    w
}

/// Allocates a wire that the ledger pins to `literal`.
pub fn constant_bit(ledger: &mut ConstraintLedger, literal: bool) -> (w: usize)
    requires
        old(ledger)@.wf(),
    ensures
        (final(ledger)@, w) == constant_bit_spec(old(ledger)@, literal),
        gate_result(old(ledger)@, final(ledger)@, w),
        final(ledger)@.is_bit(w),
{
    let coefficient = if literal { 1i128 } else { 0i128 };
    let w = ledger.allocate(Some(coefficient));
    ledger.enforce(
        LinearCombination::of(1, w),
        LinearCombination::of(1, ONE),
        LinearCombination::of(coefficient, ONE),
    );
    proof {
        lemma_constant_bit(old(ledger)@, literal);
    }
    w
}

/// The negation of a boolean wire.
pub fn not(ledger: &mut ConstraintLedger, a: usize) -> (w: usize)
    requires
        old(ledger)@.wf(),
        old(ledger)@.is_bit(a),
    ensures
        (final(ledger)@, w) == not_spec(old(ledger)@, a),
        gate_result(old(ledger)@, final(ledger)@, w),
        final(ledger)@.is_bit(w),
{
    let witness = not_witness(ledger.value(a));
    let w = ledger.allocate(witness);
    ledger.enforce(
        LinearCombination::of_two(1, ONE, -1, a),
        LinearCombination::of(1, ONE),
        LinearCombination::of(1, w),
    );
    proof {
        lemma_not(old(ledger)@, a);
    }
    w
}

/// A gate over two boolean wires.
pub fn gate(ledger: &mut ConstraintLedger, kind: Gate, a: usize, b: usize) -> (w: usize)
    requires
        old(ledger)@.wf(),
        old(ledger)@.is_bit(a),
        old(ledger)@.is_bit(b),
    ensures
        (final(ledger)@, w) == gate_spec(old(ledger)@, kind, a, b),
        gate_result(old(ledger)@, final(ledger)@, w),
        final(ledger)@.is_bit(w),
{
    let witness = gate_witness(kind, ledger.value(a), ledger.value(b));
    let w = ledger.allocate(witness);
    let (left, right, out) = gate_combinations(kind, a, b, w);
    ledger.enforce(left, right, out);
    proof {
        lemma_gate(old(ledger)@, kind, a, b);
    }
    w
}

/// A wire that equals `x` where the boolean wire `c` is one, and `y` where it is zero.
pub fn select(ledger: &mut ConstraintLedger, c: usize, x: usize, y: usize) -> (w: usize)
    requires
        old(ledger)@.wf(),
        old(ledger)@.is_bit(c),
        x < old(ledger)@.values.len(),
        y < old(ledger)@.values.len(),
    ensures
        (final(ledger)@, w) == select_spec(old(ledger)@, c, x, y),
        gate_result(old(ledger)@, final(ledger)@, w),
        old(ledger)@.is_bit(x) && old(ledger)@.is_bit(y) ==> final(ledger)@.is_bit(w),
{
    let witness = select_witness(ledger.value(c), ledger.value(x), ledger.value(y));
    let w = ledger.allocate(witness);
    ledger.enforce(
        LinearCombination::of(1, c),
        LinearCombination::of_two(1, x, -1, y),
        LinearCombination::of_two(1, w, -1, y),
    );
    proof {
        lemma_select(old(ledger)@, c, x, y);
    }
    w
}

/// Records the demand that the wires `x` and `y` carry the same value.
pub fn enforce_equal(ledger: &mut ConstraintLedger, x: usize, y: usize)
    requires
        old(ledger)@.wf(),
        x < old(ledger)@.values.len(),
        y < old(ledger)@.values.len(),
    ensures
        final(ledger)@ == old(ledger)@.enforce(equal_constraint(x, y)),
        final(ledger)@.wf(),
        final(ledger)@.extends(old(ledger)@),
        old(ledger)@.complete() ==> final(ledger)@.complete(),
{
    ledger.enforce(
        LinearCombination::of_two(1, x, -1, y),
        LinearCombination::of(1, ONE),
        LinearCombination::zero(),
    );
    proof {
        lemma_enforce(old(ledger)@, equal_constraint(x, y));
    }
}

/// Records the demand that the wire `w` carries the value one.
pub fn enforce_true(ledger: &mut ConstraintLedger, w: usize)
    requires
        old(ledger)@.wf(),
        w < old(ledger)@.values.len(),
    ensures
        final(ledger)@ == old(ledger)@.enforce(true_constraint(w)),
        final(ledger)@.wf(),
        final(ledger)@.extends(old(ledger)@),
        old(ledger)@.complete() ==> final(ledger)@.complete(),
{
    ledger.enforce(
        LinearCombination::of(1, w),
        LinearCombination::of(1, ONE),
        LinearCombination::of(1, ONE),
    );
    proof {
        lemma_enforce(old(ledger)@, true_constraint(w));
    }
}

} // verus!
