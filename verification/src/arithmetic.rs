//! Arithmetic and comparison of integer bundles, and selection and equality
//! of runs of wires.

use crate::boolean::{equal_constraint, select, select_spec, enforce_equal};
use crate::integer::{
    allocate_bits, allocate_bits_spec, append_bundle, bundle_known, bundle_terms, bundle_value,
    decompose, decompose_spec, is_bundle, lemma_allocate_bits, lemma_bundle_bounds,
    lemma_decompose_value, lemma_bundle_terms, lemma_size, lift, read_bundle, witness_matches,
    IntegerType, Witness,
};
use crate::ledger::{
    combination_value, lemma_enforce, lemma_value_concat, lemma_value_single, pair, single,
    terms_known, terms_within, wire_known, ConstraintLedger, LedgerModel, LinearCombination,
    ConstraintModel, Term, ONE,
};
use vstd::arithmetic::power2::lemma2_to64;
use vstd::prelude::*;

verus! {

/// The arithmetic operations on two integers of one type.
#[derive(Clone, Copy, Debug, PartialEq, Eq, Structural)]
pub enum Arithmetic {
    Add,
    Sub,
    Mul,
}

/// The result of an operation on two mathematical integers.
pub open spec fn arithmetic_result(op: Arithmetic, x: int, y: int) -> int {
    match op {
        Arithmetic::Add => x + y,
        Arithmetic::Sub => x - y,
        Arithmetic::Mul => x * y,
    }
}

pub open spec fn arithmetic_witness(op: Arithmetic, x: Option<i128>, y: Option<i128>) -> Witness {
    match (x, y) {
        (Some(a), Some(b)) => {
            let r = arithmetic_result(op, a as int, b as int);
            if i128::MIN <= r <= i128::MAX {
                Witness::Known(r as i128)
            } else {
                Witness::Excess
            }
        },
        _ => Witness::Unknown,
    }
}

pub open spec fn arithmetic_left(op: Arithmetic, x: usize, y: usize, ty: IntegerType) -> Seq<Term> {
    let n = ty.spec_width() as nat;
    match op {
        Arithmetic::Add => bundle_terms(x, n, ty.spec_base(), false) + bundle_terms(
            y,
            n,
            ty.spec_base(),
            false,
        ),
        Arithmetic::Sub => bundle_terms(x, n, ty.spec_base(), false) + bundle_terms(
            y,
            n,
            ty.spec_base(),
            true,
        ),
        Arithmetic::Mul => bundle_terms(x, n, ty.spec_base(), false),
    }
}

pub open spec fn arithmetic_right(op: Arithmetic, y: usize, ty: IntegerType) -> Seq<Term> {
    match op {
        Arithmetic::Mul => bundle_terms(y, ty.spec_width() as nat, ty.spec_base(), false),
        _ => single(1, ONE),
    }
}

/// The integer of `x op y` for two integers with witness values, where the
/// result is a value of the type.
pub open spec fn arithmetic_outcome(op: Arithmetic, x: Option<i128>, y: Option<i128>) -> Option<
    i128,
> {
    match (x, y) {
        (Some(a), Some(b)) => Some(arithmetic_result(op, a as int, b as int) as i128),
        _ => None,
    }
}

/// Whether the integer of `x op y` is a value of the type, where both operands
/// have witness values.
pub open spec fn stays_in_range(op: Arithmetic, x: Option<i128>, y: Option<i128>, ty: IntegerType) -> bool {
    match (x, y) {
        (Some(a), Some(b)) => ty.contains(arithmetic_result(op, a as int, b as int)),
        _ => true,
    }
}

/// The witness of `x >= y` for two integers with witness values.
pub open spec fn at_least_outcome(x: Option<i128>, y: Option<i128>) -> Option<i128> {
    match (x, y) {
        (Some(a), Some(b)) => Some(if a >= b { 1i128 } else { 0i128 }),
        _ => None,
    }
}

/// The bundle of `x op y`, where `x` and `y` are the first wires of two bundles of type `ty`.
pub open spec fn arithmetic_spec(
    ledger: LedgerModel,
    op: Arithmetic,
    x: usize,
    y: usize,
    ty: IntegerType,
) -> (LedgerModel, usize) {
    let n = ty.spec_width() as nat;
    decompose_spec(
        ledger,
        arithmetic_left(op, x, y, ty),
        arithmetic_right(op, y, ty),
        arithmetic_witness(
            op,
            bundle_value(ledger, x, n, ty.spec_base()),
            bundle_value(ledger, y, n, ty.spec_base()),
        ),
        n,
        ty.spec_base(),
    )
}

/// A bundle pinned to the literal `value`: `value * 1 = bundle`.
pub open spec fn constant_integer_spec(ledger: LedgerModel, ty: IntegerType, value: i128) -> (
    LedgerModel,
    usize,
) {
    decompose_spec(
        ledger,
        single(value, ONE),
        single(1, ONE),
        Witness::Known(value),
        ty.spec_width() as nat,
        ty.spec_base(),
    )
}

/// The offset of a value of `ty` from the base of the type.
pub open spec fn offset_in(ty: IntegerType, value: Option<i128>) -> Option<int> {
    match value {
        Some(v) => Some(v - ty.spec_base()),
        None => None,
    }
}

/// A fresh bundle of type `ty` with the given witness, or without one.
pub open spec fn input_integer_spec(ledger: LedgerModel, ty: IntegerType, value: Option<i128>) -> (
    LedgerModel,
    usize,
) {
    (
        allocate_bits_spec(ledger, offset_in(ty, value), ty.spec_width() as nat),
        ledger.next_wire(),
    )
}

pub open spec fn comparison_left(x: usize, y: usize, ty: IntegerType) -> Seq<Term> {
    let n = ty.spec_width() as nat;
    (bundle_terms(x, n, ty.spec_base(), false) + bundle_terms(y, n, ty.spec_base(), true)).push(
        Term { coefficient: ty.spec_size(), variable: ONE },
    )
}

pub open spec fn comparison_witness(x: Option<i128>, y: Option<i128>, ty: IntegerType) -> Witness {
    match (x, y) {
        (Some(a), Some(b)) => Witness::Known((a - b + ty.spec_size()) as i128),
        _ => Witness::Unknown,
    }
}

/// The boolean wire of `x >= y`: the top bit of `x - y + 2^width`, split into `width + 1` bits.
pub open spec fn at_least_spec(ledger: LedgerModel, x: usize, y: usize, ty: IntegerType) -> (
    LedgerModel,
    usize,
) {
    let n = ty.spec_width() as nat;
    let split = decompose_spec(
        ledger,
        comparison_left(x, y, ty),
        single(1, ONE),
        comparison_witness(
            bundle_value(ledger, x, n, ty.spec_base()),
            bundle_value(ledger, y, n, ty.spec_base()),
            ty,
        ),
        n + 1,
        0,
    );
    (split.0, (split.1 + n) as usize)
}

/// Selects between two runs of `n` wires, wire by wire, into a fresh run.
pub open spec fn select_run_spec(ledger: LedgerModel, c: usize, x: usize, y: usize, n: nat) -> (
    LedgerModel,
)
    decreases n,
{
    if n == 0 {
        (ledger,)
    } else {
        (
            select_spec(
                select_run_spec(ledger, c, x, y, (n - 1) as nat).0,
                c,
                (x + n - 1) as usize,
                (y + n - 1) as usize,
            ).0,
        )
    }
}

/// Demands that two runs of `n` wires agree, wire by wire.
pub open spec fn equal_run_spec(ledger: LedgerModel, x: usize, y: usize, n: nat) -> LedgerModel
    decreases n,
{
    if n == 0 {
        ledger
    } else {
        equal_run_spec(ledger, x, y, (n - 1) as nat).enforce(
            equal_constraint((x + n - 1) as usize, (y + n - 1) as usize),
        )
    }
}

proof fn lemma_known_concat(left: Seq<Term>, right: Seq<Term>, values: Seq<Option<i128>>, bound: nat)
    ensures
        terms_known(left + right, values) == (terms_known(left, values) && terms_known(
            right,
            values,
        )),
        terms_within(left + right, bound) == (terms_within(left, bound) && terms_within(
            right,
            bound,
        )),
{
    let both = left + right;
    if terms_known(both, values) {
        assert forall|i: int| 0 <= i < left.len() implies wire_known(
            values,
            (#[trigger] left[i]).variable,
        ) by {
            assert(both[i] == left[i]);
        }
        assert forall|i: int| 0 <= i < right.len() implies wire_known(
            values,
            (#[trigger] right[i]).variable,
        ) by {
            assert(both[left.len() + i] == right[i]);
        }
    }
    if terms_within(both, bound) {
        assert forall|i: int| 0 <= i < left.len() implies (#[trigger] left[i]).variable < bound by {
            assert(both[i] == left[i]);
        }
        assert forall|i: int| 0 <= i < right.len() implies (#[trigger] right[i]).variable
            < bound by {
            assert(both[left.len() + i] == right[i]);
        }
    }
}

/// What the ledger knows of a bundle: its combination, its bounds and its value.
proof fn lemma_bundle(ledger: LedgerModel, first: usize, ty: IntegerType, negative: bool)
    requires
        ledger.wf(),
        is_bundle(ledger, first, ty.spec_width() as nat),
    ensures
        terms_within(
            bundle_terms(first, ty.spec_width() as nat, ty.spec_base(), negative),
            ledger.values.len(),
        ),
        terms_known(
            bundle_terms(first, ty.spec_width() as nat, ty.spec_base(), negative),
            ledger.values,
        ) == bundle_known(ledger, first, ty.spec_width() as nat),
        ty.contains(
            combination_value(
                bundle_terms(first, ty.spec_width() as nat, ty.spec_base(), false),
                ledger.values,
            ),
        ),
        combination_value(
            bundle_terms(first, ty.spec_width() as nat, ty.spec_base(), negative),
            ledger.values,
        ) == (if negative {
            -combination_value(
                bundle_terms(first, ty.spec_width() as nat, ty.spec_base(), false),
                ledger.values,
            )
        } else {
            combination_value(
                bundle_terms(first, ty.spec_width() as nat, ty.spec_base(), false),
                ledger.values,
            )
        }),
        ledger.complete() ==> bundle_known(ledger, first, ty.spec_width() as nat),
        bundle_value(ledger, first, ty.spec_width() as nat, ty.spec_base()) matches Some(v)
            ==> v == combination_value(
            bundle_terms(first, ty.spec_width() as nat, ty.spec_base(), false),
            ledger.values,
        ),
{
    let n = ty.spec_width() as nat;
    lemma_size(ty);
    lemma_bundle_terms(ledger.values, first, n, ty.spec_base(), negative);
    lemma_bundle_bounds(ledger, first, n, ty.spec_base(), negative);
    assert(wire_known(ledger.values, ONE));
    if ledger.complete() {
        assert forall|i: int| 0 <= i < n implies #[trigger] wire_known(
            ledger.values,
            (first + i) as usize,
        ) by {
            assert(ledger.is_bit((first + i) as usize));
        }
    }
}

pub proof fn lemma_arithmetic(
    ledger: LedgerModel,
    op: Arithmetic,
    x: usize,
    y: usize,
    ty: IntegerType,
)
    requires
        ledger.wf(),
        is_bundle(ledger, x, ty.spec_width() as nat),
        is_bundle(ledger, y, ty.spec_width() as nat),
    ensures
        terms_within(arithmetic_left(op, x, y, ty), ledger.values.len()),
        terms_within(arithmetic_right(op, y, ty), ledger.values.len()),
        witness_matches(
            ledger,
            arithmetic_left(op, x, y, ty),
            arithmetic_right(op, y, ty),
            arithmetic_witness(
                op,
                bundle_value(ledger, x, ty.spec_width() as nat, ty.spec_base()),
                bundle_value(ledger, y, ty.spec_width() as nat, ty.spec_base()),
            ),
        ),
{
    let n = ty.spec_width() as nat;
    let base = ty.spec_base();
    let values = ledger.values;
    let bx = bundle_terms(x, n, base, false);
    let by = bundle_terms(y, n, base, false);
    let ny = bundle_terms(y, n, base, true);
    lemma_bundle(ledger, x, ty, false);
    lemma_bundle(ledger, y, ty, false);
    lemma_bundle(ledger, y, ty, true);
    lemma_known_concat(bx, by, values, values.len());
    lemma_known_concat(bx, ny, values, values.len());
    lemma_value_concat(bx, by, values);
    lemma_value_concat(bx, ny, values);
    lemma_value_single(1, ONE, values);
    assert(single(1, ONE)[0].variable == ONE);
    assert(terms_within(single(1, ONE), values.len()));
}

pub proof fn lemma_comparison(ledger: LedgerModel, x: usize, y: usize, ty: IntegerType)
    requires
        ledger.wf(),
        is_bundle(ledger, x, ty.spec_width() as nat),
        is_bundle(ledger, y, ty.spec_width() as nat),
    ensures
        terms_within(comparison_left(x, y, ty), ledger.values.len()),
        terms_within(single(1, ONE), ledger.values.len()),
        witness_matches(
            ledger,
            comparison_left(x, y, ty),
            single(1, ONE),
            comparison_witness(
                bundle_value(ledger, x, ty.spec_width() as nat, ty.spec_base()),
                bundle_value(ledger, y, ty.spec_width() as nat, ty.spec_base()),
                ty,
            ),
        ),
{
    let n = ty.spec_width() as nat;
    let base = ty.spec_base();
    let values = ledger.values;
    let bx = bundle_terms(x, n, base, false);
    let ny = bundle_terms(y, n, base, true);
    let shift = Term { coefficient: ty.spec_size(), variable: ONE };
    lemma_bundle(ledger, x, ty, false);
    lemma_bundle(ledger, y, ty, false);
    lemma_bundle(ledger, y, ty, true);
    lemma_known_concat(bx, ny, values, values.len());
    lemma_value_concat(bx, ny, values);
    lemma_value_single(1, ONE, values);
    crate::ledger::lemma_value_push(bx + ny, shift, values);
    assert(single(1, ONE)[0].variable == ONE);
    let left = comparison_left(x, y, ty);
    assert forall|i: int| 0 <= i < left.len() implies (#[trigger] left[i]).variable
        < values.len() by {
        if i < (bx + ny).len() {
            assert(left[i] == (bx + ny)[i]);
        }
    }
    let one = combination_value(single(1, ONE), values);
    let sum = combination_value(left, values);
    assert(one == 1);
    let unit = crate::ledger::wire_value(values, ONE);
    assert(unit == 1);
    assert(crate::ledger::term_value(shift, values) == ty.spec_size()) by (nonlinear_arith)
        requires
            crate::ledger::term_value(shift, values) == shift.coefficient * unit,
            shift.coefficient == ty.spec_size(),
            unit == 1,
    ;
    assert(sum == combination_value(bx, values) + combination_value(ny, values)
        + ty.spec_size());
    assert(sum * one == sum) by (nonlinear_arith)
        requires
            one == 1,
    ;
    if terms_known(left, values) {
        assert forall|i: int| 0 <= i < (bx + ny).len() implies wire_known(
            values,
            (#[trigger] (bx + ny)[i]).variable,
        ) by {
            assert(left[i] == (bx + ny)[i]);
        }
        assert(terms_known(bx + ny, values));
        assert(bundle_known(ledger, x, n));
        assert(bundle_known(ledger, y, n));
        let a = bundle_value(ledger, x, n, base)->Some_0;
        let b = bundle_value(ledger, y, n, base)->Some_0;
        assert(sum == a - b + ty.spec_size());
    }
}

/// The integer that a bundle stands for is a value of its type: nothing that
/// an integer wire bundle can carry lies outside the range of the type.
pub proof fn lemma_integer_in_range(ledger: LedgerModel, first: usize, ty: IntegerType)
    requires
        ledger.wf(),
        is_bundle(ledger, first, ty.spec_width() as nat),
    ensures
        bundle_value(ledger, first, ty.spec_width() as nat, ty.spec_base()) matches Some(v)
            ==> ty.contains(v as int),
{
    lemma_bundle(ledger, first, ty, false);
}

/// An operation on two integers with known witness values gives the bundle
/// of the exact result where the result is a value of the type, and records a
/// violation where it is not. The result never wraps around.
pub proof fn lemma_arithmetic_exact(
    ledger: LedgerModel,
    op: Arithmetic,
    x: usize,
    y: usize,
    ty: IntegerType,
)
    requires
        ledger.wf(),
        ledger.values.len() + ty.spec_width() <= usize::MAX,
        is_bundle(ledger, x, ty.spec_width() as nat),
        is_bundle(ledger, y, ty.spec_width() as nat),
        bundle_value(ledger, x, ty.spec_width() as nat, ty.spec_base()) is Some,
        bundle_value(ledger, y, ty.spec_width() as nat, ty.spec_base()) is Some,
    ensures
        ({
            let a = bundle_value(ledger, x, ty.spec_width() as nat, ty.spec_base())->Some_0;
            let b = bundle_value(ledger, y, ty.spec_width() as nat, ty.spec_base())->Some_0;
            let exact = arithmetic_result(op, a as int, b as int);
            let after = arithmetic_spec(ledger, op, x, y, ty);
            &&& ty.contains(exact) ==> after.0.violated == ledger.violated && bundle_value(
                after.0,
                after.1,
                ty.spec_width() as nat,
                ty.spec_base(),
            ) == Some(exact as i128)
            &&& !ty.contains(exact) ==> after.0.violated
        }),
{
    let n = ty.spec_width() as nat;
    let a = bundle_value(ledger, x, n, ty.spec_base())->Some_0;
    let b = bundle_value(ledger, y, n, ty.spec_base())->Some_0;
    lemma_size(ty);
    lemma_decompose_value(
        ledger,
        arithmetic_left(op, x, y, ty),
        arithmetic_right(op, y, ty),
        arithmetic_witness(op, Some(a), Some(b)),
        n,
        ty.spec_base(),
    );
}

/// The wire of `x >= y` carries one exactly if the integer of `x` is at
/// least the integer of `y`, where both have witness values.
pub proof fn lemma_at_least_exact(ledger: LedgerModel, x: usize, y: usize, ty: IntegerType)
    requires
        ledger.wf(),
        ledger.values.len() + ty.spec_width() + 1 <= usize::MAX,
        is_bundle(ledger, x, ty.spec_width() as nat),
        is_bundle(ledger, y, ty.spec_width() as nat),
        bundle_value(ledger, x, ty.spec_width() as nat, ty.spec_base()) is Some,
        bundle_value(ledger, y, ty.spec_width() as nat, ty.spec_base()) is Some,
    ensures
        ({
            let a = bundle_value(ledger, x, ty.spec_width() as nat, ty.spec_base())->Some_0;
            let b = bundle_value(ledger, y, ty.spec_width() as nat, ty.spec_base())->Some_0;
            let after = at_least_spec(ledger, x, y, ty);
            after.0.value(after.1) == Some(if a >= b { 1i128 } else { 0i128 })
        }),
{
    let n = ty.spec_width() as nat;
    let a = bundle_value(ledger, x, n, ty.spec_base())->Some_0;
    let b = bundle_value(ledger, y, n, ty.spec_base())->Some_0;
    let shifted = (a - b + ty.spec_size()) as int;
    let size = ty.spec_size() as int;
    lemma_size(ty);
    lemma_integer_in_range(ledger, x, ty);
    lemma_integer_in_range(ledger, y, ty);
    lemma2_to64();
    let split = allocate_bits_spec(ledger, Some(shifted), n + 1);
    lemma_allocate_bits(ledger, Some(shifted), n + 1);
    assert(split.values[ledger.values.len() + n as int] == crate::boolean::bit_of(
        crate::integer::digit_of(Some(shifted), n),
    ));
    assert(0 <= shifted < 2 * size);
    if shifted >= size {
        vstd::arithmetic::div_mod::lemma_basic_div(shifted - size, size);
        vstd::arithmetic::div_mod::lemma_div_plus_one(shifted - size, size);
        assert(size + (shifted - size) == shifted);
        assert(shifted / size == 1);
    } else {
        vstd::arithmetic::div_mod::lemma_basic_div(shifted, size);
    }
    assert(crate::integer::digit(shifted, n) == (a >= b));
}

/// The bundle of `x op y`. A result outside the type is recorded as a violation.
pub fn arithmetic(
    ledger: &mut ConstraintLedger,
    op: Arithmetic,
    x: usize,
    y: usize,
    ty: IntegerType,
) -> (first: usize)
    requires
        old(ledger)@.wf(),
        is_bundle(old(ledger)@, x, ty.spec_width() as nat),
        is_bundle(old(ledger)@, y, ty.spec_width() as nat),
    ensures
        (final(ledger)@, first) == arithmetic_spec(old(ledger)@, op, x, y, ty),
        final(ledger)@.follows(old(ledger)@),
        final(ledger)@.wf(),
        is_bundle(final(ledger)@, first, ty.spec_width() as nat),
        first == old(ledger)@.values.len(),
        stays_in_range(
            op,
            bundle_value(old(ledger)@, x, ty.spec_width() as nat, ty.spec_base()),
            bundle_value(old(ledger)@, y, ty.spec_width() as nat, ty.spec_base()),
            ty,
        ) ==> bundle_value(final(ledger)@, first, ty.spec_width() as nat, ty.spec_base())
            == arithmetic_outcome(
            op,
            bundle_value(old(ledger)@, x, ty.spec_width() as nat, ty.spec_base()),
            bundle_value(old(ledger)@, y, ty.spec_width() as nat, ty.spec_base()),
        ),
{
    let n = ty.width();
    let base = ty.base();
    let vx = read_bundle(ledger, x, n, base);
    let vy = read_bundle(ledger, y, n, base);
    proof {
        lemma2_to64();
        lemma_size(ty);
    }
    let witness = match (vx, vy) {
        (Some(a), Some(b)) => match op {
            Arithmetic::Add => Witness::Known(a + b),
            Arithmetic::Sub => Witness::Known(a - b),
            Arithmetic::Mul => match a.checked_mul(b) {
                Some(p) => Witness::Known(p),
                None => Witness::Excess,
            },
        },
        _ => Witness::Unknown,
    };
    let mut left = LinearCombination::zero();
    append_bundle(&mut left, x, n, base, false);
    let mut right = LinearCombination::zero();
    match op {
        Arithmetic::Add => {
            append_bundle(&mut left, y, n, base, false);
            right.add_term(1, ONE);
        },
        Arithmetic::Sub => {
            append_bundle(&mut left, y, n, base, true);
            right.add_term(1, ONE);
        },
        Arithmetic::Mul => {
            append_bundle(&mut right, y, n, base, false);
        },
    }
    assert(left@ =~= arithmetic_left(op, x, y, ty));
    assert(right@ =~= arithmetic_right(op, y, ty));
    proof {
        lemma_arithmetic(old(ledger)@, op, x, y, ty);
    }
    let first = decompose(ledger, left, right, witness, n, base);
    proof {
        if vx is Some && vy is Some {
            lemma_arithmetic_exact(old(ledger)@, op, x, y, ty);
        } else {
            crate::integer::lemma_decompose_unknown(
                old(ledger)@,
                arithmetic_left(op, x, y, ty),
                arithmetic_right(op, y, ty),
                n as nat,
                base,
            );
        }
    }
    first
}

/// A bundle of type `ty` that the ledger pins to `value`.
pub fn constant_integer(ledger: &mut ConstraintLedger, ty: IntegerType, value: i128) -> (first:
    usize)
    requires
        old(ledger)@.wf(),
        ty.contains(value as int),
    ensures
        (final(ledger)@, first) == constant_integer_spec(old(ledger)@, ty, value),
        final(ledger)@.follows(old(ledger)@),
        final(ledger)@.wf(),
        is_bundle(final(ledger)@, first, ty.spec_width() as nat),
        first == old(ledger)@.values.len(),
        bundle_value(final(ledger)@, first, ty.spec_width() as nat, ty.spec_base()) == Some(value),
{
    proof {
        lemma_value_single(value, ONE, old(ledger)@.values);
        lemma_value_single(1, ONE, old(ledger)@.values);
        assert(single(value, ONE)[0].variable == ONE);
        assert(single(1, ONE)[0].variable == ONE);
    }
    let first = decompose(
        ledger,
        LinearCombination::of(value, ONE),
        LinearCombination::of(1, ONE),
        Witness::Known(value),
        ty.width(),
        ty.base(),
    );
    proof {
        lemma_size(ty);
        lemma_decompose_value(
            old(ledger)@,
            single(value, ONE),
            single(1, ONE),
            Witness::Known(value),
            ty.spec_width() as nat,
            ty.spec_base(),
        );
    }
    first
}

/// A fresh bundle of type `ty`, with the witness `value` where one is given.
pub fn input_integer(ledger: &mut ConstraintLedger, ty: IntegerType, value: Option<i128>) -> (first:
    usize)
    requires
        old(ledger)@.wf(),
        value matches Some(v) ==> ty.contains(v as int),
    ensures
        (final(ledger)@, first) == input_integer_spec(old(ledger)@, ty, value),
        final(ledger)@.wf(),
        final(ledger)@.extends(old(ledger)@),
        final(ledger)@.asserted == old(ledger)@.asserted,
        old(ledger)@.sound() ==> final(ledger)@.sound(),
        old(ledger)@.complete() && value is Some ==> final(ledger)@.complete(),
        is_bundle(final(ledger)@, first, ty.spec_width() as nat),
        first == old(ledger)@.values.len(),
        final(ledger)@.values.len() == old(ledger)@.values.len() + ty.spec_width(),
{
    let first = ledger.num_variables();
    let base = ty.base();
    let offset = match value {
        Some(v) => Some(v - base),
        None => None,
    };
    allocate_bits(ledger, offset, ty.width());
    proof {
        let n = ty.spec_width() as nat;
        assert(lift(offset) == offset_in(ty, value));
        lemma_allocate_bits(old(ledger)@, offset_in(ty, value), n);
        assert forall|i: int| 0 <= i < n implies #[trigger] ledger@.is_bit(
            (first + i) as usize,
        ) by {
            assert(ledger@.values[old(ledger)@.values.len() + i] == crate::boolean::bit_of(
                crate::integer::digit_of(offset_in(ty, value), i as nat),
            ));
        }
    }
    first
}

/// The boolean wire of `x >= y` for two bundles of type `ty`.
pub fn at_least(ledger: &mut ConstraintLedger, x: usize, y: usize, ty: IntegerType) -> (w: usize)
    requires
        old(ledger)@.wf(),
        is_bundle(old(ledger)@, x, ty.spec_width() as nat),
        is_bundle(old(ledger)@, y, ty.spec_width() as nat),
    ensures
        (final(ledger)@, w) == at_least_spec(old(ledger)@, x, y, ty),
        final(ledger)@.follows(old(ledger)@),
        final(ledger)@.wf(),
        final(ledger)@.is_bit(w),
        final(ledger)@.value(w) == at_least_outcome(
            bundle_value(old(ledger)@, x, ty.spec_width() as nat, ty.spec_base()),
            bundle_value(old(ledger)@, y, ty.spec_width() as nat, ty.spec_base()),
        ),
{
    let n = ty.width();
    let base = ty.base();
    let size = ty.size();
    let vx = read_bundle(ledger, x, n, base);
    let vy = read_bundle(ledger, y, n, base);
    proof {
        lemma2_to64();
        lemma_size(ty);
    }
    let witness = match (vx, vy) {
        (Some(a), Some(b)) => Witness::Known(a - b + size),
        _ => Witness::Unknown,
    };
    let mut left = LinearCombination::zero();
    append_bundle(&mut left, x, n, base, false);
    append_bundle(&mut left, y, n, base, true);
    left.add_term(size, ONE);
    assert(left@ =~= comparison_left(x, y, ty));
    proof {
        lemma_comparison(old(ledger)@, x, y, ty);
    }
    let first = decompose(ledger, left, LinearCombination::of(1, ONE), witness, n + 1, 0);
    assert(ledger@.is_bit((first + n) as usize));
    proof {
        if vx is Some && vy is Some {
            lemma_at_least_exact(old(ledger)@, x, y, ty);
        } else {
            lemma_allocate_bits(old(ledger)@, None, (n + 1) as nat);
            assert(ledger@.values[old(ledger)@.values.len() + n as int]
                == crate::boolean::bit_of(crate::integer::digit_of(None, n as nat)));
        }
    }
    first + n as usize
}

/// What a selection between two runs gives, where each wire of the result
/// carries the selection between the wires of the same place: where the result
/// stands for an integer, the condition has a witness, and the integer is that
/// of the first run where the condition is one and that of the second where
/// it is not.
pub proof fn lemma_selected_bundle(
    before: LedgerModel,
    after: LedgerModel,
    c: usize,
    x: usize,
    y: usize,
    first: usize,
    n: nat,
    base: i128,
)
    requires
        1 <= before.values.len(),
        after.extends(before),
        1 <= n,
        x + n <= before.values.len(),
        y + n <= before.values.len(),
        first + n <= after.values.len(),
        after.values.len() <= usize::MAX,
        forall|i: int|
            0 <= i < n ==> #[trigger] after.values[first + i] == crate::boolean::selection(
                before.value(c),
                before.value((x + i) as usize),
                before.value((y + i) as usize),
            ),
    ensures
        bundle_value(after, first, n, base) matches Some(v) ==> (before.value(c) matches Some(k)
            && (if k == 1 {
            bundle_value(before, x, n, base)
        } else {
            bundle_value(before, y, n, base)
        }) == Some(v)),
{
    if bundle_known(after, first, n) {
        assert(wire_known(after.values, (first + 0) as usize));
        assert(after.values[first + 0] == crate::boolean::selection(
            before.value(c),
            before.value((x + 0) as usize),
            before.value((y + 0) as usize),
        ));
        let k = before.value(c)->Some_0;
        let chosen = if k == 1 {
            x
        } else {
            y
        };
        assert forall|i: int| 0 <= i < n implies #[trigger] after.values[first + i]
            == before.values[chosen + i] by {
            assert(wire_known(after.values, (first + i) as usize));
            assert(after.values[first + i] == crate::boolean::selection(
                before.value(c),
                before.value((x + i) as usize),
                before.value((y + i) as usize),
            ));
        }
        crate::integer::lemma_bundle_same(after, first, before, chosen, n, base);
    }
}

/// Selects between two runs of `n` wires by the boolean wire `c` and returns
/// the first wire of the fresh run.
pub fn select_run(ledger: &mut ConstraintLedger, c: usize, x: usize, y: usize, n: u32) -> (first:
    usize)
    requires
        old(ledger)@.wf(),
        old(ledger)@.is_bit(c),
        x + n <= old(ledger)@.values.len(),
        y + n <= old(ledger)@.values.len(),
    ensures
        final(ledger)@ == select_run_spec(old(ledger)@, c, x, y, n as nat).0,
        first == old(ledger)@.values.len(),
        final(ledger)@.follows(old(ledger)@),
        final(ledger)@.wf(),
        final(ledger)@.values.len() == old(ledger)@.values.len() + n,
        is_bundle(old(ledger)@, x, n as nat) && is_bundle(old(ledger)@, y, n as nat) ==> is_bundle(
            final(ledger)@,
            first,
            n as nat,
        ),
        forall|i: int|
            0 <= i < n ==> #[trigger] final(ledger)@.values[first + i] == crate::boolean::selection(
                old(ledger)@.value(c),
                old(ledger)@.value((x + i) as usize),
                old(ledger)@.value((y + i) as usize),
            ),
{
    let first = ledger.num_variables();
    let mut k: u32 = 0;
    while k < n
        invariant
            k <= n,
            old(ledger)@.wf(),
            old(ledger)@.is_bit(c),
            x + n <= old(ledger)@.values.len(),
            y + n <= old(ledger)@.values.len(),
            first == old(ledger)@.values.len(),
            ledger@ == select_run_spec(old(ledger)@, c, x, y, k as nat).0,
            ledger@.follows(old(ledger)@),
            ledger@.wf(),
            ledger@.values.len() == old(ledger)@.values.len() + k,
            is_bundle(old(ledger)@, x, n as nat) && is_bundle(old(ledger)@, y, n as nat)
                ==> is_bundle(ledger@, first, k as nat),
            forall|i: int|
                0 <= i < k ==> #[trigger] ledger@.values[first + i] == crate::boolean::selection(
                    old(ledger)@.value(c),
                    old(ledger)@.value((x + i) as usize),
                    old(ledger)@.value((y + i) as usize),
                ),
        decreases n - k,
    {
        let ghost before = ledger@;
        proof {
            if is_bundle(old(ledger)@, x, n as nat) && is_bundle(old(ledger)@, y, n as nat) {
                assert(old(ledger)@.is_bit((x + k) as usize));
                assert(old(ledger)@.is_bit((y + k) as usize));
            }
        }
        let w = select(ledger, c, x + k as usize, y + k as usize);
        proof {
            assert forall|i: int| 0 <= i < k + 1 implies #[trigger] ledger@.values[first + i]
                == crate::boolean::selection(
                old(ledger)@.value(c),
                old(ledger)@.value((x + i) as usize),
                old(ledger)@.value((y + i) as usize),
            ) by {
                if i < k {
                    assert(ledger@.values[first + i] == before.values[first + i]);
                } else {
                    assert(before.value(c) == old(ledger)@.value(c));
                    assert(before.value((x + k) as usize) == old(ledger)@.value((x + k) as usize));
                    assert(before.value((y + k) as usize) == old(ledger)@.value((y + k) as usize));
                }
            }
            if is_bundle(old(ledger)@, x, n as nat) && is_bundle(old(ledger)@, y, n as nat) {
                assert forall|i: int| 0 <= i < k + 1 implies #[trigger] ledger@.is_bit(
                    (first + i) as usize,
                ) by {
                    if i < k {
                        assert(before.is_bit((first + i) as usize));
                    }
                }
            }
        }
        k = k + 1;
    }
    first
}

/// Records the demand that two runs of `n` wires agree, wire by wire.
pub fn equal_run(ledger: &mut ConstraintLedger, x: usize, y: usize, n: u32)
    requires
        old(ledger)@.wf(),
        x + n <= old(ledger)@.values.len(),
        y + n <= old(ledger)@.values.len(),
    ensures
        final(ledger)@ == equal_run_spec(old(ledger)@, x, y, n as nat),
        final(ledger)@.wf(),
        final(ledger)@.extends(old(ledger)@),
        final(ledger)@.values.len() == old(ledger)@.values.len(),
        old(ledger)@.complete() ==> final(ledger)@.complete(),
{
    let mut k: u32 = 0;
    while k < n
        invariant
            k <= n,
            x + n <= old(ledger)@.values.len(),
            y + n <= old(ledger)@.values.len(),
            ledger@ == equal_run_spec(old(ledger)@, x, y, k as nat),
            ledger@.wf(),
            ledger@.extends(old(ledger)@),
            ledger@.values.len() == old(ledger)@.values.len(),
            old(ledger)@.complete() ==> ledger@.complete(),
        decreases n - k,
    {
        enforce_equal(ledger, x + k as usize, y + k as usize);
        k = k + 1;
    }
}

/// The witness value that a wire of a field operation is given: the exact
/// result where both operands have a value and the result is a machine
/// integer, zero where it is none, and nothing where an operand has no value.
pub open spec fn field_witness(op: Arithmetic, x: Option<i128>, y: Option<i128>) -> Option<i128> {
    match arithmetic_witness(op, x, y) {
        Witness::Known(r) => Some(r),
        Witness::Excess => Some(0i128),
        Witness::Unknown => None,
    }
}

/// The constraint of a field operation with the operands `x` and `y` and the
/// result `w`: `(x + y) * 1 = w`, `(x - y) * 1 = w` or `x * y = w`.
pub open spec fn field_constraint(op: Arithmetic, x: usize, y: usize, w: usize) -> ConstraintModel {
    match op {
        Arithmetic::Add => ConstraintModel {
            a: pair(1, x, 1, y),
            b: single(1, ONE),
            c: single(1, w),
        },
        Arithmetic::Sub => ConstraintModel {
            a: pair(1, x, -1i128, y),
            b: single(1, ONE),
            c: single(1, w),
        },
        Arithmetic::Mul => ConstraintModel { a: single(1, x), b: single(1, y), c: single(1, w) },
    }
}

/// The sum, the difference or the product of two field elements: one new
/// wire and one constraint. The ledger fixes no modulus, so the witness of the
/// result is the exact integer, which stands for the same field element in
/// every field. A result that is no machine integer is recorded as a
/// violation.
pub open spec fn field_arithmetic_spec(ledger: LedgerModel, op: Arithmetic, x: usize, y: usize) -> (
    LedgerModel,
    usize,
) {
    let w = ledger.next_wire();
    let witness = arithmetic_witness(op, ledger.value(x), ledger.value(y));
    (
        ledger.allocate(field_witness(op, ledger.value(x), ledger.value(y))).enforce(
            field_constraint(op, x, y, w),
        ).flag(witness is Excess),
        w,
    )
}

/// The wire that a field operation leaves carries the exact result, where
/// both operands have a value and the result is a machine integer; else a
/// violation is recorded, or an operand has no value.
pub proof fn lemma_field_exact(ledger: LedgerModel, op: Arithmetic, x: usize, y: usize)
    requires
        ledger.wf(),
        ledger.value(x) is Some,
        ledger.value(y) is Some,
    ensures
        ({
            let exact = arithmetic_result(
                op,
                ledger.value(x)->Some_0 as int,
                ledger.value(y)->Some_0 as int,
            );
            let after = field_arithmetic_spec(ledger, op, x, y);
            &&& i128::MIN <= exact <= i128::MAX ==> after.0.value(after.1) == Some(exact as i128)
                && after.0.violated == ledger.violated
            &&& !(i128::MIN <= exact <= i128::MAX) ==> after.0.violated
        }),
{
}

/// Adds, subtracts or multiplies two field elements.
pub fn field_arithmetic(ledger: &mut ConstraintLedger, op: Arithmetic, x: usize, y: usize) -> (w:
    usize)
    requires
        old(ledger)@.wf(),
        x < old(ledger)@.values.len(),
        y < old(ledger)@.values.len(),
    ensures
        (final(ledger)@, w) == field_arithmetic_spec(old(ledger)@, op, x, y),
        final(ledger)@.follows(old(ledger)@),
        final(ledger)@.wf(),
        w < final(ledger)@.values.len(),
        w == old(ledger)@.values.len(),
{
    let u = ledger.value(x);
    let v = ledger.value(y);
    let exact: Option<Option<i128>> = match (u, v) {
        (Some(a), Some(b)) => Some(
            match op {
                Arithmetic::Add => a.checked_add(b),
                Arithmetic::Sub => a.checked_sub(b),
                Arithmetic::Mul => a.checked_mul(b),
            },
        ),
        _ => None,
    };
    let (witness, excess): (Option<i128>, bool) = match exact {
        Some(Some(r)) => (Some(r), false),
        Some(None) => (Some(0i128), true),
        None => (None, false),
    };
    let w = ledger.allocate(witness);
    let ghost before = old(ledger)@;
    let ghost middle = ledger@;
    let ghost k = field_constraint(op, x, y, w);
    match op {
        Arithmetic::Add => {
            ledger.enforce(
                LinearCombination::of_two(1, x, 1, y),
                LinearCombination::of(1, ONE),
                LinearCombination::of(1, w),
            );
        },
        Arithmetic::Sub => {
            ledger.enforce(
                LinearCombination::of_two(1, x, -1, y),
                LinearCombination::of(1, ONE),
                LinearCombination::of(1, w),
            );
        },
        Arithmetic::Mul => {
            ledger.enforce(
                LinearCombination::of(1, x),
                LinearCombination::of(1, y),
                LinearCombination::of(1, w),
            );
        },
    }
    let ghost enforced = ledger@;
    ledger.flag(excess);
    proof {
        crate::ledger::lemma_allocate(before, witness);
        lemma_value_single(1, ONE, middle.values);
        lemma_value_single(1, w, middle.values);
        lemma_value_single(1, x, middle.values);
        lemma_value_single(1, y, middle.values);
        crate::ledger::lemma_value_pair(1, x, 1, y, middle.values);
        crate::ledger::lemma_value_pair(1, x, -1i128, y, middle.values);
        assert(pair(1, x, 1, y)[0].variable == x && pair(1, x, 1, y)[1].variable == y);
        assert(pair(1, x, -1i128, y)[0].variable == x && pair(1, x, -1i128, y)[1].variable == y);
        assert(single(1, ONE)[0].variable == ONE);
        assert(single(1, w)[0].variable == w);
        assert(single(1, x)[0].variable == x);
        assert(single(1, y)[0].variable == y);
        assert(k.within(middle.values.len()));
        assert(enforced == middle.enforce(k));
        if !excess && k.known(middle.values) {
            assert(wire_known(middle.values, k.c[0].variable));
            let a = u->Some_0 as int;
            let b = v->Some_0 as int;
            let r = witness->Some_0 as int;
            assert(r == arithmetic_result(op, a, b));
            assert(k.holds(middle.values)) by (nonlinear_arith)
                requires
                    r == arithmetic_result(op, a, b),
                    op == Arithmetic::Add ==> combination_value(k.a, middle.values) == 1 * a + 1
                        * b && combination_value(k.b, middle.values) == 1 * 1,
                    op == Arithmetic::Sub ==> combination_value(k.a, middle.values) == 1 * a + (
                    -1) * b && combination_value(k.b, middle.values) == 1 * 1,
                    op == Arithmetic::Mul ==> combination_value(k.a, middle.values) == 1 * a
                        && combination_value(k.b, middle.values) == 1 * b,
                    combination_value(k.c, middle.values) == 1 * r,
            ;
        }
        if excess {
            // The ledger is sound because the violation is recorded.
            assert(ledger@.violated);
            assert forall|i: int| 0 <= i < enforced.constraints.len() implies (
            #[trigger] enforced.constraints[i]).within(enforced.values.len()) by {
                if i < middle.constraints.len() {
                    assert(enforced.constraints[i] == middle.constraints[i]);
                    assert(middle.constraints[i].within(middle.values.len()));
                }
            }
        } else {
            lemma_enforce(middle, k);
        }
        crate::ledger::lemma_flag(enforced, excess);
    }
    w
}

/// A wire pinned to a literal field element: `w * 1 = literal`.
pub open spec fn constant_wire_spec(ledger: LedgerModel, literal: i128) -> (LedgerModel, usize) {
    let w = ledger.next_wire();
    (
        ledger.allocate(Some(literal)).enforce(
            crate::ledger::ConstraintModel {
                a: single(1, w),
                b: single(1, ONE),
                c: single(literal, ONE),
            },
        ),
        w,
    )
}

/// Allocates a wire that the ledger pins to `literal`.
pub fn constant_wire(ledger: &mut ConstraintLedger, literal: i128) -> (w: usize)
    requires
        old(ledger)@.wf(),
    ensures
        (final(ledger)@, w) == constant_wire_spec(old(ledger)@, literal),
        final(ledger)@.follows(old(ledger)@),
        final(ledger)@.wf(),
        w < final(ledger)@.values.len(),
        w == old(ledger)@.values.len(),
{
    let w = ledger.allocate(Some(literal));
    ledger.enforce(
        LinearCombination::of(1, w),
        LinearCombination::of(1, ONE),
        LinearCombination::of(literal, ONE),
    );
    proof {
        let before = old(ledger)@;
        let middle = before.allocate(Some(literal));
        let k = crate::ledger::ConstraintModel {
            a: single(1, w),
            b: single(1, ONE),
            c: single(literal, ONE),
        };
        crate::ledger::lemma_allocate(before, Some(literal));
        lemma_value_single(1, w, middle.values);
        lemma_value_single(1, ONE, middle.values);
        lemma_value_single(literal, ONE, middle.values);
        assert(k.a[0].variable == w);
        assert(k.b[0].variable == ONE);
        assert(k.c[0].variable == ONE);
        assert(k.holds(middle.values)) by (nonlinear_arith)
            requires
                combination_value(k.a, middle.values) == 1 * (literal as int),
                combination_value(k.b, middle.values) == 1 * 1,
                combination_value(k.c, middle.values) == literal * 1,
        ;
        lemma_enforce(middle, k);
    }
    w
}

/// Allocates one wire that no constraint ties down.
pub fn input_wire(ledger: &mut ConstraintLedger, value: Option<i128>) -> (w: usize)
    requires
        old(ledger)@.wf(),
    ensures
        final(ledger)@ == old(ledger)@.allocate(value),
        final(ledger)@.wf(),
        final(ledger)@.extends(old(ledger)@),
        old(ledger)@.sound() ==> final(ledger)@.sound(),
        old(ledger)@.complete() && value is Some ==> final(ledger)@.complete(),
        w == old(ledger)@.values.len(),
        final(ledger)@.values.len() == old(ledger)@.values.len() + 1,
{
    let w = ledger.allocate(value);
    proof {
        crate::ledger::lemma_allocate(old(ledger)@, value);
    }
    w
}

} // verus!
