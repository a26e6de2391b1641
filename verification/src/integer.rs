//! Constraint patterns over fixed-width integers.
//!
//! An integer of width `n` is a bundle of `n` consecutive boolean wires. It
//! stands for `base + sum(2^i * bit_i)`, where `base` is zero for an unsigned
//! type and the least value of a signed one, so that a bundle cannot leave the
//! range of its type. Every operation computes its result as a product of two
//! linear combinations and splits that product into a fresh bundle; a product
//! outside the range of the type cannot be split, which the ledger records.

use crate::boolean::{allocate_bit, allocate_bit_spec, bit_of, lemma_allocate_bit, not};
use crate::ledger::{
    combination_value, lemma_enforce, lemma_flag, lemma_value_push, lemma_value_single,
    lemma_value_stable, single, term_value, terms_known, terms_within, wire_known, wire_value,
    ConstraintLedger, ConstraintModel, LedgerModel, LinearCombination, Term, ONE,
};
use vstd::arithmetic::div_mod::{
    lemma_breakdown, lemma_div_denominator, lemma_div_pos_is_pos, lemma_mod_bound, lemma_small_mod,
};
use vstd::arithmetic::power2::{
    lemma2_to64, lemma_pow2_pos, lemma_pow2_strictly_increases, lemma_pow2_unfold, pow2,
};
use vstd::prelude::*;

verus! {

/// The integer types of the language.
#[derive(Clone, Copy, Debug, PartialEq, Eq, Structural)]
pub enum IntegerType {
    U8,
    U16,
    U32,
    U64,
    I8,
    I16,
    I32,
    I64,
}

impl IntegerType {
    /// The number of bits of the type.
    pub open spec fn spec_width(self) -> u32 {
        match self {
            IntegerType::U8 | IntegerType::I8 => 8,
            IntegerType::U16 | IntegerType::I16 => 16,
            IntegerType::U32 | IntegerType::I32 => 32,
            IntegerType::U64 | IntegerType::I64 => 64,
        }
    }

    pub open spec fn spec_signed(self) -> bool {
        match self {
            IntegerType::I8 | IntegerType::I16 | IntegerType::I32 | IntegerType::I64 => true,
            _ => false,
        }
    }

    /// The number of values of the type, `2^width`.
    pub open spec fn spec_size(self) -> i128 {
        match self {
            IntegerType::U8 | IntegerType::I8 => 0x100,
            IntegerType::U16 | IntegerType::I16 => 0x1_0000,
            IntegerType::U32 | IntegerType::I32 => 0x1_0000_0000,
            IntegerType::U64 | IntegerType::I64 => 0x1_0000_0000_0000_0000,
        }
    }

    /// The least value of the type.
    pub open spec fn spec_base(self) -> i128 {
        match self {
            IntegerType::I8 => -0x80i128,
            IntegerType::I16 => -0x8000i128,
            IntegerType::I32 => -0x8000_0000i128,
            IntegerType::I64 => -0x8000_0000_0000_0000i128,
            _ => 0i128,
        }
    }

    /// Whether `value` is a value of the type.
    pub open spec fn contains(self, value: int) -> bool {
        self.spec_base() <= value < self.spec_base() + self.spec_size()
    }

    #[verifier::when_used_as_spec(spec_width)]
    pub fn width(self) -> (w: u32)
        ensures
            w == self.spec_width(),
            1 <= w <= 64,
    {
        match self {
            IntegerType::U8 | IntegerType::I8 => 8,
            IntegerType::U16 | IntegerType::I16 => 16,
            IntegerType::U32 | IntegerType::I32 => 32,
            IntegerType::U64 | IntegerType::I64 => 64,
        }
    }

    #[verifier::when_used_as_spec(spec_signed)]
    pub fn signed(self) -> (s: bool)
        ensures
            s == self.spec_signed(),
    {
        match self {
            IntegerType::I8 | IntegerType::I16 | IntegerType::I32 | IntegerType::I64 => true,
            _ => false,
        }
    }

    #[verifier::when_used_as_spec(spec_size)]
    pub fn size(self) -> (s: i128)
        ensures
            s == self.spec_size(),
            s == pow2(self.spec_width() as nat),
    {
        proof {
            lemma2_to64();
        }
        match self {
            IntegerType::U8 | IntegerType::I8 => 0x100,
            IntegerType::U16 | IntegerType::I16 => 0x1_0000,
            IntegerType::U32 | IntegerType::I32 => 0x1_0000_0000,
            IntegerType::U64 | IntegerType::I64 => 0x1_0000_0000_0000_0000,
        }
    }

    #[verifier::when_used_as_spec(spec_base)]
    pub fn base(self) -> (b: i128)
        ensures
            b == self.spec_base(),
            -0x8000_0000_0000_0000 <= b <= 0,
    {
        match self {
            IntegerType::I8 => -0x80,
            IntegerType::I16 => -0x8000,
            IntegerType::I32 => -0x8000_0000,
            IntegerType::I64 => -0x8000_0000_0000_0000,
            _ => 0,
        }
    }

    /// Whether `value` is a value of the type.
    pub fn holds(self, value: i128) -> (r: bool)
        ensures
            r == self.contains(value as int),
    {
        self.base() <= value && value <= self.base() + (self.size() - 1)
    }
}

/// The size of a type is two to its width.
pub proof fn lemma_size(ty: IntegerType)
    ensures
        ty.spec_size() == pow2(ty.spec_width() as nat),
        ty.spec_size() * 2 == pow2((ty.spec_width() + 1) as nat),
{
    lemma2_to64();
    lemma_pow2_unfold((ty.spec_width() + 1) as nat);
}

/// What is known of the product that an operation splits into bits.
#[derive(Clone, Copy, Debug, PartialEq, Eq, Structural)]
pub enum Witness {
    /// Some operand has no witness value.
    Unknown,
    /// The product.
    Known(i128),
    /// The product is too large for a machine integer, and so for every type.
    Excess,
}

/// The bit of weight `2^k` of a non-negative integer.
pub open spec fn digit(u: int, k: nat) -> bool {
    (u / (pow2(k) as int)) % 2 == 1
}

pub open spec fn digit_of(u: Option<int>, k: nat) -> Option<bool> {
    match u {
        Some(x) => Some(digit(x, k)),
        None => None,
    }
}

/// The distance of the product from the base, where the product is in range; zero where it is not.
pub open spec fn offset_of(witness: Witness, n: nat, base: i128) -> Option<int> {
    match witness {
        Witness::Unknown => None,
        Witness::Known(x) => if base <= x < base + pow2(n) {
            Some(x - base)
        } else {
            Some(0)
        },
        Witness::Excess => Some(0),
    }
}

/// Whether the product is known to lie outside `[base, base + 2^n)`.
pub open spec fn out_of_range(witness: Witness, n: nat, base: i128) -> bool {
    match witness {
        Witness::Unknown => false,
        Witness::Known(x) => !(base <= x < base + pow2(n)),
        Witness::Excess => true,
    }
}

/// A machine integer as a mathematical one.
pub open spec fn lift(value: Option<i128>) -> Option<int> {
    match value {
        Some(v) => Some(v as int),
        None => None,
    }
}

/// The ledger after `n` boolean wires were allocated for the low bits of `u`.
pub open spec fn allocate_bits_spec(ledger: LedgerModel, u: Option<int>, n: nat) -> LedgerModel
    decreases n,
{
    if n == 0 {
        ledger
    } else {
        allocate_bit_spec(
            allocate_bits_spec(ledger, u, (n - 1) as nat),
            digit_of(u, (n - 1) as nat),
        ).0
    }
}

/// The coefficient of bit `k` of a bundle, negated where the bundle is subtracted.
pub open spec fn weight(k: nat, negative: bool) -> i128 {
    if negative {
        (-(pow2(k) as int)) as i128
    } else {
        pow2(k) as i128
    }
}

pub open spec fn signed_base(base: i128, negative: bool) -> i128 {
    if negative {
        (-base) as i128
    } else {
        base
    }
}

/// The linear combination that a bundle of `n` wires from `first` stands for,
/// or its negation.
pub open spec fn bundle_terms(first: usize, n: nat, base: i128, negative: bool) -> Seq<Term>
    decreases n,
{
    if n == 0 {
        single(signed_base(base, negative), ONE)
    } else {
        bundle_terms(first, (n - 1) as nat, base, negative).push(
            Term {
                coefficient: weight((n - 1) as nat, negative),
                variable: (first + n - 1) as usize,
            },
        )
    }
}

/// The wires `first .. first + n` are allocated boolean wires.
pub open spec fn is_bundle(ledger: LedgerModel, first: usize, n: nat) -> bool {
    &&& first + n <= ledger.values.len()
    &&& forall|i: int| 0 <= i < n ==> #[trigger] ledger.is_bit((first + i) as usize)
}

/// Every wire of the bundle has a witness value.
pub open spec fn bundle_known(ledger: LedgerModel, first: usize, n: nat) -> bool {
    forall|i: int| 0 <= i < n ==> #[trigger] wire_known(ledger.values, (first + i) as usize)
}

/// The integer that a bundle stands for, where all its wires have values.
pub open spec fn bundle_value(ledger: LedgerModel, first: usize, n: nat, base: i128) -> Option<
    i128,
> {
    if bundle_known(ledger, first, n) {
        Some(combination_value(bundle_terms(first, n, base, false), ledger.values) as i128)
    } else {
        None
    }
}

/// Splits the product `a * b` into a bundle of `n` fresh wires over `base`:
/// `a * b = base + sum(2^i * bit_i)`.
pub open spec fn decompose_spec(
    ledger: LedgerModel,
    a: Seq<Term>,
    b: Seq<Term>,
    witness: Witness,
    n: nat,
    base: i128,
) -> (LedgerModel, usize) {
    let first = ledger.next_wire();
    (
        allocate_bits_spec(ledger, offset_of(witness, n, base), n).enforce(
            ConstraintModel { a, b, c: bundle_terms(first, n, base, false) },
        ).flag(out_of_range(witness, n, base)),
        first,
    )
}

/// The witness handed to a decomposition is the product of the two
/// combinations, as far as the ledger knows their wires.
pub open spec fn witness_matches(
    ledger: LedgerModel,
    a: Seq<Term>,
    b: Seq<Term>,
    witness: Witness,
) -> bool {
    let product = combination_value(a, ledger.values) * combination_value(b, ledger.values);
    &&& ledger.complete() ==> witness !is Unknown
    &&& terms_known(a, ledger.values) && terms_known(b, ledger.values) ==> (match witness {
        Witness::Unknown => true,
        Witness::Known(x) => product == x,
        Witness::Excess => product < i128::MIN || product > i128::MAX,
    })
}

pub proof fn lemma_pow2_bound(k: nat)
    requires
        k <= 65,
    ensures
        1 <= pow2(k) <= 0x2_0000_0000_0000_0000,
        pow2(k + 1) == 2 * pow2(k),
{
    lemma2_to64();
    lemma_pow2_pos(k);
    lemma_pow2_unfold(65);
    lemma_pow2_unfold(k + 1);
    if k < 65 {
        lemma_pow2_strictly_increases(k, 65);
    }
}

/// The low `k + 1` bits of `u` are its low `k` bits and the bit of weight `2^k`.
proof fn lemma_digit_step(u: int, k: nat)
    requires
        0 <= u,
        k <= 65,
    ensures
        u % (pow2(k + 1) as int) == u % (pow2(k) as int) + pow2(k) * (if digit(u, k) {
            1int
        } else {
            0int
        }),
        (u / (pow2(k) as int)) / 2 == u / (pow2(k + 1) as int),
        0 <= u / (pow2(k) as int),
{
    lemma_pow2_bound(k);
    let p = pow2(k) as int;
    lemma_breakdown(u, p, 2);
    lemma_div_denominator(u, p, 2);
    lemma_div_pos_is_pos(u, p);
    lemma_mod_bound(u / p, 2);
    assert(p * 2 == pow2(k + 1));
    let d = (u / p) % 2;
    assert(d == 0 || d == 1);
    assert(p * d == pow2(k) * (if digit(u, k) { 1int } else { 0int })) by (nonlinear_arith)
        requires
            d == 0 || d == 1,
            p == pow2(k),
            digit(u, k) == (d == 1),
    ;
}

pub proof fn lemma_allocate_bits(ledger: LedgerModel, u: Option<int>, n: nat)
    requires
        ledger.wf(),
        ledger.values.len() + n <= usize::MAX,
    ensures
        allocate_bits_spec(ledger, u, n).wf(),
        allocate_bits_spec(ledger, u, n).extends(ledger),
        ledger.sound() ==> allocate_bits_spec(ledger, u, n).sound(),
        ledger.complete() && u is Some ==> allocate_bits_spec(ledger, u, n).complete(),
        allocate_bits_spec(ledger, u, n).values.len() == ledger.values.len() + n,
        allocate_bits_spec(ledger, u, n).constraints.len() == ledger.constraints.len() + n,
        allocate_bits_spec(ledger, u, n).violated == ledger.violated,
        allocate_bits_spec(ledger, u, n).asserted == ledger.asserted,
        forall|i: int|
            0 <= i < n ==> #[trigger] allocate_bits_spec(ledger, u, n).values[ledger.values.len()
                + i] == bit_of(digit_of(u, i as nat)),
    decreases n,
{
    if n > 0 {
        let m = (n - 1) as nat;
        let before = allocate_bits_spec(ledger, u, m);
        lemma_allocate_bits(ledger, u, m);
        lemma_allocate_bit(before, digit_of(u, m));
        let after = allocate_bits_spec(ledger, u, n);
        assert forall|i: int| 0 <= i < n implies #[trigger] after.values[ledger.values.len() + i]
            == bit_of(digit_of(u, i as nat)) by {
            if i < m {
                assert(after.values[ledger.values.len() + i] == before.values[ledger.values.len()
                    + i]);
            }
        }
    }
}

/// The wires of a bundle's combination, and whether all of them are known.
pub proof fn lemma_bundle_terms(
    values: Seq<Option<i128>>,
    first: usize,
    n: nat,
    base: i128,
    negative: bool,
)
    requires
        1 <= values.len(),
        first + n <= values.len() <= usize::MAX,
    ensures
        bundle_terms(first, n, base, negative).len() == n + 1,
        terms_within(bundle_terms(first, n, base, negative), values.len()),
        terms_known(bundle_terms(first, n, base, negative), values) == (wire_known(values, ONE)
            && forall|i: int| 0 <= i < n ==> #[trigger] wire_known(values, (first + i) as usize)),
    decreases n,
{
    let terms = bundle_terms(first, n, base, negative);
    if n == 0 {
        assert(terms[0].variable == ONE);
        if wire_known(values, ONE) {
            assert(terms_known(terms, values));
        }
    } else {
        let m = (n - 1) as nat;
        let rest = bundle_terms(first, m, base, negative);
        lemma_bundle_terms(values, first, m, base, negative);
        assert(terms.len() == n + 1);
        assert forall|i: int| 0 <= i < terms.len() implies (#[trigger] terms[i]).variable
            < values.len() by {
            if i < rest.len() {
                assert(terms[i] == rest[i]);
            }
        }
        let all = wire_known(values, ONE) && forall|i: int|
            0 <= i < n ==> #[trigger] wire_known(values, (first + i) as usize);
        if terms_known(terms, values) {
            assert forall|i: int| 0 <= i < rest.len() implies wire_known(
                values,
                (#[trigger] rest[i]).variable,
            ) by {
                assert(rest[i] == terms[i]);
            }
            assert(terms[n as int].variable == (first + m) as usize);
            assert(wire_known(values, terms[n as int].variable));
            assert(all);
        }
        if all {
            assert(terms_known(rest, values));
            assert forall|i: int| 0 <= i < terms.len() implies wire_known(
                values,
                (#[trigger] terms[i]).variable,
            ) by {
                if i < rest.len() {
                    assert(terms[i] == rest[i]);
                } else {
                    assert(wire_known(values, (first + m) as usize));
                }
            }
        }
    }
}

/// A bundle whose wires hold the low bits of `u` stands for `base + u mod 2^n`.
pub proof fn lemma_bundle_digits(
    values: Seq<Option<i128>>,
    first: usize,
    n: nat,
    base: i128,
    u: int,
)
    requires
        0 <= u,
        n <= 65,
        -0x8000_0000_0000_0000 <= base <= 0,
        1 <= values.len(),
        values[0] == Some(1i128),
        first + n <= values.len() <= usize::MAX,
        forall|i: int| 0 <= i < n ==> #[trigger] values[first + i] == bit_of(Some(digit(u, i as nat))),
    ensures
        combination_value(bundle_terms(first, n, base, false), values) == base + u % (pow2(
            n,
        ) as int),
    decreases n,
{
    lemma2_to64();
    if n == 0 {
        lemma_value_single(base, ONE, values);
    } else {
        let m = (n - 1) as nat;
        lemma_bundle_digits(values, first, m, base, u);
        let t = Term { coefficient: weight(m, false), variable: (first + m) as usize };
        lemma_value_push(bundle_terms(first, m, base, false), t, values);
        lemma_digit_step(u, m);
        lemma_pow2_bound(m);
        assert(values[first + m] == bit_of(Some(digit(u, m))));
        assert(wire_value(values, t.variable) == (if digit(u, m) { 1int } else { 0int }));
        assert(term_value(t, values) == pow2(m) * (if digit(u, m) { 1int } else { 0int }));
    }
}

/// A bundle of boolean wires stands for a value of `[base, base + 2^n)`; its
/// negation stands for the negated value.
pub proof fn lemma_bundle_bounds(
    ledger: LedgerModel,
    first: usize,
    n: nat,
    base: i128,
    negative: bool,
)
    requires
        ledger.wf(),
        is_bundle(ledger, first, n),
        n <= 65,
        -0x8000_0000_0000_0000 <= base <= 0,
    ensures
        base <= combination_value(bundle_terms(first, n, base, false), ledger.values) < base
            + pow2(n),
        combination_value(bundle_terms(first, n, base, negative), ledger.values) == (if negative {
            -combination_value(bundle_terms(first, n, base, false), ledger.values)
        } else {
            combination_value(bundle_terms(first, n, base, false), ledger.values)
        }),
    decreases n,
{
    lemma2_to64();
    let values = ledger.values;
    if n == 0 {
        lemma_value_single(base, ONE, values);
        lemma_value_single(signed_base(base, negative), ONE, values);
    } else {
        let m = (n - 1) as nat;
        assert(is_bundle(ledger, first, m)) by {
            assert forall|i: int| 0 <= i < m implies #[trigger] ledger.is_bit(
                (first + i) as usize,
            ) by {}
        }
        lemma_bundle_bounds(ledger, first, m, base, negative);
        let plus = Term { coefficient: weight(m, false), variable: (first + m) as usize };
        let signed = Term { coefficient: weight(m, negative), variable: (first + m) as usize };
        lemma_value_push(bundle_terms(first, m, base, false), plus, values);
        lemma_value_push(bundle_terms(first, m, base, negative), signed, values);
        lemma_pow2_bound(m);
        assert(ledger.is_bit((first + m) as usize));
        let v = wire_value(values, (first + m) as usize);
        assert(v == 0 || v == 1);
        assert(term_value(plus, values) == pow2(m) * v);
        assert(pow2(m) * v == (if v == 1 { pow2(m) as int } else { 0int })) by (nonlinear_arith)
            requires
                v == 0 || v == 1,
        ;
        assert(term_value(signed, values) == (if negative {
            -(pow2(m) * v)
        } else {
            pow2(m) * v
        })) by (nonlinear_arith)
            requires
                term_value(signed, values) == weight(m, negative) * v,
                weight(m, negative) == (if negative {
                    -(pow2(m) as int)
                } else {
                    pow2(m) as int
                }),
        ;
    }
}

/// A decomposition leaves a ledger that follows the one before, and its
/// result is a bundle.
pub proof fn lemma_decompose(
    ledger: LedgerModel,
    a: Seq<Term>,
    b: Seq<Term>,
    witness: Witness,
    n: nat,
    base: i128,
)
    requires
        ledger.wf(),
        ledger.values.len() + n <= usize::MAX,
        terms_within(a, ledger.values.len()),
        terms_within(b, ledger.values.len()),
        1 <= n <= 65,
        -0x8000_0000_0000_0000 <= base <= 0,
        witness_matches(ledger, a, b, witness),
    ensures
        decompose_spec(ledger, a, b, witness, n, base).0.follows(ledger),
        decompose_spec(ledger, a, b, witness, n, base).0.wf(),
        is_bundle(
            decompose_spec(ledger, a, b, witness, n, base).0,
            decompose_spec(ledger, a, b, witness, n, base).1,
            n,
        ),
        decompose_spec(ledger, a, b, witness, n, base).0.values.len() == ledger.values.len() + n,
        decompose_spec(ledger, a, b, witness, n, base).1 == ledger.values.len(),
{
    let first = ledger.next_wire();
    let u = offset_of(witness, n, base);
    let l1 = allocate_bits_spec(ledger, u, n);
    let c = bundle_terms(first, n, base, false);
    let k = ConstraintModel { a, b, c };
    let l2 = l1.enforce(k);
    let l3 = l2.flag(out_of_range(witness, n, base));
    lemma_allocate_bits(ledger, u, n);
    lemma_bundle_terms(l1.values, first, n, base, false);
    lemma_value_stable(a, ledger.values, l1.values);
    lemma_value_stable(b, ledger.values, l1.values);
    lemma_enforce(l1, k);
    lemma_flag(l2, out_of_range(witness, n, base));
    lemma_pow2_bound(n);
    assert(is_bundle(l3, first, n)) by {
        assert forall|i: int| 0 <= i < n implies #[trigger] l3.is_bit((first + i) as usize) by {
            assert(l1.values[ledger.values.len() + i] == bit_of(digit_of(u, i as nat)));
        }
    }
    if ledger.sound() && !l3.violated {
        if k.known(l1.values) {
            assert(wire_known(l1.values, (first + 0) as usize));
            assert(l1.values[ledger.values.len() as int + 0] == bit_of(digit_of(u, 0nat)));
            assert(u is Some);
            let x = witness->Known_0;
            assert(u == Some(x - base));
            assert forall|i: int| 0 <= i < n implies #[trigger] l1.values[first + i] == bit_of(
                Some(digit(x - base, i as nat)),
            ) by {
                assert(l1.values[ledger.values.len() + i] == bit_of(digit_of(u, i as nat)));
            }
            lemma_bundle_digits(l1.values, first, n, base, x - base);
            lemma_small_mod((x - base) as nat, pow2(n));
            assert(k.holds(l1.values));
        }
        assert(l2.sound());
    }
    if ledger.complete() {
        assert(u is Some);
    }
}

/// A decomposition of a product inside the range leaves a bundle that stands
/// for the product, and records nothing. A decomposition of a product outside
/// the range records a violation: no value wraps around.
pub proof fn lemma_decompose_value(
    ledger: LedgerModel,
    a: Seq<Term>,
    b: Seq<Term>,
    witness: Witness,
    n: nat,
    base: i128,
)
    requires
        ledger.wf(),
        ledger.values.len() + n <= usize::MAX,
        1 <= n <= 65,
        -0x8000_0000_0000_0000 <= base <= 0,
        witness !is Unknown,
    ensures
        out_of_range(witness, n, base) ==> decompose_spec(ledger, a, b, witness, n, base).0.violated,
        !out_of_range(witness, n, base) ==> decompose_spec(
            ledger,
            a,
            b,
            witness,
            n,
            base,
        ).0.violated == ledger.violated && bundle_value(
            decompose_spec(ledger, a, b, witness, n, base).0,
            decompose_spec(ledger, a, b, witness, n, base).1,
            n,
            base,
        ) == Some(witness->Known_0),
{
    let first = ledger.next_wire();
    let u = offset_of(witness, n, base);
    let l1 = allocate_bits_spec(ledger, u, n);
    let after = decompose_spec(ledger, a, b, witness, n, base).0;
    lemma_allocate_bits(ledger, u, n);
    lemma_pow2_bound(n);
    if !out_of_range(witness, n, base) {
        let x = witness->Known_0;
        assert(after.values == l1.values);
        assert forall|i: int| 0 <= i < n implies #[trigger] l1.values[first + i] == bit_of(
            Some(digit(x - base, i as nat)),
        ) by {
            assert(l1.values[ledger.values.len() + i] == bit_of(digit_of(u, i as nat)));
        }
        lemma_bundle_digits(l1.values, first, n, base, x - base);
        lemma_small_mod((x - base) as nat, pow2(n));
        assert forall|i: int| 0 <= i < n implies #[trigger] wire_known(
            after.values,
            (first + i) as usize,
        ) by {
            assert(l1.values[first + i] == bit_of(Some(digit(x - base, i as nat))));
        }
    }
}

/// Whatever the witness is: where the constraint of a decomposition holds
/// and the wires of the bundle carry bits, the product lies in the range of the
/// bundle. A product outside the range is rejected by the constraint.
pub proof fn lemma_range_forced(
    ledger: LedgerModel,
    a: Seq<Term>,
    b: Seq<Term>,
    first: usize,
    n: nat,
    base: i128,
)
    requires
        ledger.wf(),
        is_bundle(ledger, first, n),
        n <= 65,
        -0x8000_0000_0000_0000 <= base <= 0,
        (ConstraintModel { a, b, c: bundle_terms(first, n, base, false) }).holds(ledger.values),
    ensures
        base <= combination_value(a, ledger.values) * combination_value(b, ledger.values) < base
            + pow2(n),
{
    lemma_bundle_bounds(ledger, first, n, base, false);
}

/// Two bundles whose wires carry the same witness values, bit for bit, stand
/// for the same integer, in whatever ledgers and at whatever places they are.
pub proof fn lemma_bundle_same(
    a: LedgerModel,
    x: usize,
    b: LedgerModel,
    y: usize,
    n: nat,
    base: i128,
)
    requires
        1 <= a.values.len(),
        1 <= b.values.len(),
        a.values[0] == b.values[0],
        x + n <= a.values.len(),
        y + n <= b.values.len(),
        x + n <= usize::MAX,
        y + n <= usize::MAX,
        forall|i: int| 0 <= i < n ==> #[trigger] a.values[x + i] == b.values[y + i],
    ensures
        combination_value(bundle_terms(x, n, base, false), a.values) == combination_value(
            bundle_terms(y, n, base, false),
            b.values,
        ),
        bundle_known(a, x, n) == bundle_known(b, y, n),
        bundle_value(a, x, n, base) == bundle_value(b, y, n, base),
    decreases n,
{
    if n == 0 {
        lemma_value_single(base, ONE, a.values);
        lemma_value_single(base, ONE, b.values);
    } else {
        let m = (n - 1) as nat;
        assert forall|i: int| 0 <= i < m implies #[trigger] a.values[x + i] == b.values[y
            + i] by {}
        lemma_bundle_same(a, x, b, y, m, base);
        let s = Term { coefficient: weight(m, false), variable: (x + m) as usize };
        let t = Term { coefficient: weight(m, false), variable: (y + m) as usize };
        lemma_value_push(bundle_terms(x, m, base, false), s, a.values);
        lemma_value_push(bundle_terms(y, m, base, false), t, b.values);
        assert(a.values[x + m] == b.values[y + m]);
        assert(wire_value(a.values, (x + m) as usize) == wire_value(b.values, (y + m) as usize));
    }
    if bundle_known(a, x, n) {
        assert forall|i: int| 0 <= i < n implies #[trigger] wire_known(
            b.values,
            (y + i) as usize,
        ) by {
            assert(wire_known(a.values, (x + i) as usize));
            assert(a.values[x + i] == b.values[y + i]);
        }
    }
    if bundle_known(b, y, n) {
        assert forall|i: int| 0 <= i < n implies #[trigger] wire_known(
            a.values,
            (x + i) as usize,
        ) by {
            assert(wire_known(b.values, (y + i) as usize));
            assert(a.values[x + i] == b.values[y + i]);
        }
    }
}

/// A bundle stands for the same integer in every ledger that extends the one
/// it was allocated in.
pub proof fn lemma_bundle_stable(
    before: LedgerModel,
    after: LedgerModel,
    first: usize,
    n: nat,
    base: i128,
)
    requires
        1 <= before.values.len(),
        first + n <= before.values.len(),
        first + n <= usize::MAX,
        after.extends(before),
    ensures
        bundle_value(after, first, n, base) == bundle_value(before, first, n, base),
{
    lemma_bundle_same(after, first, before, first, n, base);
}

/// A decomposition of a product that has no witness leaves a bundle that
/// stands for nothing.
pub proof fn lemma_decompose_unknown(
    ledger: LedgerModel,
    a: Seq<Term>,
    b: Seq<Term>,
    n: nat,
    base: i128,
)
    requires
        ledger.wf(),
        ledger.values.len() + n <= usize::MAX,
        1 <= n,
    ensures
        bundle_value(
            decompose_spec(ledger, a, b, Witness::Unknown, n, base).0,
            decompose_spec(ledger, a, b, Witness::Unknown, n, base).1,
            n,
            base,
        ) is None,
{
    let first = ledger.next_wire();
    let l1 = allocate_bits_spec(ledger, None, n);
    let after = decompose_spec(ledger, a, b, Witness::Unknown, n, base).0;
    lemma_allocate_bits(ledger, None, n);
    assert(after.values == l1.values);
    assert(l1.values[ledger.values.len() as int + 0] == bit_of(digit_of(None, 0nat)));
    assert(!wire_known(after.values, (first + 0) as usize));
}

/// `2^k`.
pub fn power_of_two(k: u32) -> (r: i128)
    requires
        k <= 65,
    ensures
        r == pow2(k as nat),
        1 <= r <= 0x2_0000_0000_0000_0000,
{
    let mut r: i128 = 1;
    let mut i: u32 = 0;
    proof {
        lemma2_to64();
    }
    while i < k
        invariant
            i <= k <= 65,
            r == pow2(i as nat),
            1 <= r <= 0x2_0000_0000_0000_0000,
        decreases k - i,
    {
        proof {
            lemma_pow2_bound(i as nat);
            lemma_pow2_bound((i + 1) as nat);
        }
        r = r * 2;
        i = i + 1;
    }
    r
}

/// Allocates `n` boolean wires for the low bits of `offset`, lowest first.
pub fn allocate_bits(ledger: &mut ConstraintLedger, offset: Option<i128>, n: u32)
    requires
        old(ledger)@.wf(),
        n <= 65,
        offset matches Some(u) ==> 0 <= u,
    ensures
        final(ledger)@ == allocate_bits_spec(old(ledger)@, lift(offset), n as nat),
        final(ledger)@.wf(),
        final(ledger)@.values.len() == old(ledger)@.values.len() + n,
{
    let mut rest: i128 = match offset {
        Some(u) => u,
        None => 0,
    };
    let ghost u = lift(offset);
    let mut k: u32 = 0;
    proof {
        lemma2_to64();
    }
    while k < n
        invariant
            k <= n <= 65,
            old(ledger)@.wf(),
            ledger@ == allocate_bits_spec(old(ledger)@, u, k as nat),
            ledger@.wf(),
            ledger@.values.len() == old(ledger)@.values.len() + k,
            u == lift(offset),
            offset matches Some(x) ==> 0 <= x && rest == x as int / (pow2(k as nat) as int),
            0 <= rest,
        decreases n - k,
    {
        proof {
            lemma_pow2_bound(k as nat);
            if offset is Some {
                lemma_digit_step(u->Some_0, k as nat);
            }
        }
        let bit = match offset {
            Some(_) => Some(rest % 2 == 1),
            None => None,
        };
        allocate_bit(ledger, bit);
        rest = rest / 2;
        k = k + 1;
    }
}

/// Splits the product `a * b`, whose value `witness` gives, into a bundle of
/// `n` fresh boolean wires over `base`, and returns the first wire of the bundle.
pub fn decompose(
    ledger: &mut ConstraintLedger,
    a: LinearCombination,
    b: LinearCombination,
    witness: Witness,
    n: u32,
    base: i128,
) -> (first: usize)
    requires
        old(ledger)@.wf(),
        terms_within(a@, old(ledger)@.values.len()),
        terms_within(b@, old(ledger)@.values.len()),
        1 <= n <= 65,
        -0x8000_0000_0000_0000 <= base <= 0,
        witness_matches(old(ledger)@, a@, b@, witness),
    ensures
        (final(ledger)@, first) == decompose_spec(old(ledger)@, a@, b@, witness, n as nat, base),
        final(ledger)@.follows(old(ledger)@),
        final(ledger)@.wf(),
        is_bundle(final(ledger)@, first, n as nat),
        final(ledger)@.values.len() == old(ledger)@.values.len() + n,
        first == old(ledger)@.values.len(),
{
    let first = ledger.num_variables();
    let limit = power_of_two(n);
    let (offset, violation): (Option<i128>, bool) = match witness {
        Witness::Unknown => (None, false),
        Witness::Known(x) => if base <= x && x <= base + (limit - 1) {
            (Some(x - base), false)
        } else {
            (Some(0), true)
        },
        Witness::Excess => (Some(0), true),
    };
    allocate_bits(ledger, offset, n);
    let mut c = LinearCombination::zero();
    append_bundle(&mut c, first, n, base, false);
    assert(c@ =~= bundle_terms(first, n as nat, base, false));
    ledger.enforce(a, b, c);
    ledger.flag(violation);
    proof {
        lemma_decompose(old(ledger)@, a@, b@, witness, n as nat, base);
    }
    first
}

/// Appends the combination of a bundle, or its negation, to `target`.
pub fn append_bundle(
    target: &mut LinearCombination,
    first: usize,
    n: u32,
    base: i128,
    negative: bool,
)
    requires
        n <= 65,
        first + n <= usize::MAX,
        -0x8000_0000_0000_0000 <= base <= 0,
    ensures
        final(target)@ == old(target)@ + bundle_terms(first, n as nat, base, negative),
{
    target.add_term(if negative { -base } else { base }, ONE);
    assert(target@ =~= old(target)@ + bundle_terms(first, 0, base, negative));
    let mut power: i128 = 1;
    let mut k: u32 = 0;
    proof {
        lemma2_to64();
    }
    while k < n
        invariant
            k <= n <= 65,
            first + n <= usize::MAX,
            target@ == old(target)@ + bundle_terms(first, k as nat, base, negative),
            power == pow2(k as nat),
        decreases n - k,
    {
        proof {
            lemma_pow2_bound(k as nat);
        }
        let ghost before = target@;
        target.add_term(if negative { -power } else { power }, first + k as usize);
        assert(target@ =~= old(target)@ + bundle_terms(first, (k + 1) as nat, base, negative));
        power = power * 2;
        k = k + 1;
    }
}

/// The integer that a bundle stands for under the ledger's witness, if all its wires have values.
pub fn read_bundle(ledger: &ConstraintLedger, first: usize, n: u32, base: i128) -> (r: Option<i128>)
    requires
        ledger@.wf(),
        is_bundle(ledger@, first, n as nat),
        n <= 65,
        -0x8000_0000_0000_0000 <= base <= 0,
    ensures
        r == bundle_value(ledger@, first, n as nat, base),
        r matches Some(v) ==> base <= v < base + pow2(n as nat),
{
    let mut total: i128 = base;
    let mut known = true;
    let mut power: i128 = 1;
    let mut k: u32 = 0;
    proof {
        lemma2_to64();
        lemma_value_single(base, ONE, ledger@.values);
        lemma_bundle_bounds(ledger@, first, 0, base, false);
    }
    while k < n
        invariant
            k <= n <= 65,
            ledger@.wf(),
            is_bundle(ledger@, first, n as nat),
            -0x8000_0000_0000_0000 <= base <= 0,
            power == pow2(k as nat),
            total == combination_value(bundle_terms(first, k as nat, base, false), ledger@.values),
            base <= total < base + pow2(k as nat),
            known == bundle_known(ledger@, first, k as nat),
        decreases n - k,
    {
        proof {
            lemma_pow2_bound(k as nat);
            assert(is_bundle(ledger@, first, (k + 1) as nat)) by {
                assert forall|i: int| 0 <= i < k + 1 implies #[trigger] ledger@.is_bit(
                    (first + i) as usize,
                ) by {}
            }
            lemma_bundle_bounds(ledger@, first, (k + 1) as nat, base, false);
            lemma_value_push(
                bundle_terms(first, k as nat, base, false),
                Term { coefficient: weight(k as nat, false), variable: (first + k) as usize },
                ledger@.values,
            );
            assert(ledger@.is_bit((first + k) as usize));
            let t = Term { coefficient: weight(k as nat, false), variable: (first + k) as usize };
            let v = wire_value(ledger@.values, (first + k) as usize);
            assert(v == 0 || v == 1);
            assert(term_value(t, ledger@.values) == (if v == 1 {
                pow2(k as nat) as int
            } else {
                0int
            })) by (nonlinear_arith)
                requires
                    term_value(t, ledger@.values) == t.coefficient * v,
                    t.coefficient == pow2(k as nat),
                    v == 0 || v == 1,
            ;
        }
        let ghost previous = known;
        match ledger.value(first + k as usize) {
            Some(v) => {
                assert(v == 0 || v == 1);
                if v == 1 {
                    total = total + power;
                }
            },
            None => {
                known = false;
            },
        }
        proof {
            assert(wire_known(ledger@.values, (first + k) as usize) == (ledger@.value(
                (first + k) as usize,
            ) is Some));
            if known {
                assert forall|i: int| 0 <= i < k + 1 implies #[trigger] wire_known(
                    ledger@.values,
                    (first + i) as usize,
                ) by {
                    if i < k {
                        assert(bundle_known(ledger@, first, k as nat));
                    }
                }
            } else {
                if previous {
                    assert(!wire_known(ledger@.values, (first + k) as usize));
                } else {
                    let j = choose|j: int|
                        0 <= j < k && !#[trigger] wire_known(ledger@.values, (first + j) as usize);
                    assert(!wire_known(ledger@.values, (first + j) as usize));
                }
            }
        }
        power = power * 2;
        k = k + 1;
    }
    if known {
        Some(total)
    } else {
        None
    }
}

} // verus!
