//! The constraint ledger: an append-only record of wires and of quadratic
//! constraints `A * B = C` over them.
//!
//! The ledger never fixes a field. Witness values and coefficients are kept as
//! integers; a constraint system over a prime field of modulus `p` is obtained
//! by reading every integer modulo `p`, which is what
//! [`ConstraintLedger::is_satisfied`] does for the modulus its caller supplies.
//!
//! Beside wires and constraints the ledger keeps two records. One says
//! whether a witness value left the range of its type, which makes a
//! synthesis fail. The other says which constraints are the demands of
//! assertions of the program: they are what a witness may fail, and every
//! other constraint holds of the witness that the synthesizer computes.

use vstd::prelude::*;

verus! {

/// The wire that every ledger allocates first and that always carries the value one.
pub const ONE: usize = 0;

/// One summand of a linear combination: `coefficient * wire`.
#[derive(Clone, Copy, Debug, PartialEq, Eq, Structural)]
pub struct Term {
    pub coefficient: i128,
    pub variable: usize,
}

/// A sum of terms. The empty sum is zero.
#[derive(Debug)]
pub struct LinearCombination {
    pub terms: Vec<Term>,
}

/// A constraint `a * b = c` between three linear combinations.
#[derive(Debug)]
pub struct Constraint {
    pub a: LinearCombination,
    pub b: LinearCombination,
    pub c: LinearCombination,
}

/// The mathematical content of a [`Constraint`].
pub struct ConstraintModel {
    pub a: Seq<Term>,
    pub b: Seq<Term>,
    pub c: Seq<Term>,
}

/// The mathematical content of a [`ConstraintLedger`].
pub struct LedgerModel {
    /// The witness value of each wire, where one is assigned.
    pub values: Seq<Option<i128>>,
    /// The constraints, in the order in which they were added.
    pub constraints: Seq<ConstraintModel>,
    /// Whether some witness value left the range of the integer type it was meant for.
    pub violated: bool,
    /// Whether an assertion of the program was recorded.
    pub asserted: bool,
    /// For each constraint, whether it is a demand of an assertion of the
    /// program: a constraint that the program places on its inputs, and that
    /// a witness may fail.
    pub demands: Seq<bool>,
}

/// The witness value of a wire; an unassigned or unallocated wire counts as zero.
pub open spec fn wire_value(values: Seq<Option<i128>>, wire: usize) -> int {
    if wire < values.len() {
        match values[wire as int] {
            Some(v) => v as int,
            None => 0,
        }
    } else {
        0
    }
}

/// Whether a wire is allocated and has a witness value.
pub open spec fn wire_known(values: Seq<Option<i128>>, wire: usize) -> bool {
    wire < values.len() && values[wire as int] is Some
}

pub open spec fn term_value(term: Term, values: Seq<Option<i128>>) -> int {
    term.coefficient * wire_value(values, term.variable)
}

/// The integer that a linear combination evaluates to under a witness.
pub open spec fn combination_value(terms: Seq<Term>, values: Seq<Option<i128>>) -> int
    decreases terms.len(),
{
    if terms.len() == 0 {
        0
    } else {
        combination_value(terms.drop_last(), values) + term_value(terms.last(), values)
    }
}

/// Every wire of the combination is below `bound`.
pub open spec fn terms_within(terms: Seq<Term>, bound: nat) -> bool {
    forall|i: int| 0 <= i < terms.len() ==> (#[trigger] terms[i]).variable < bound
}

/// Every wire of the combination has a witness value.
pub open spec fn terms_known(terms: Seq<Term>, values: Seq<Option<i128>>) -> bool {
    forall|i: int| 0 <= i < terms.len() ==> wire_known(values, (#[trigger] terms[i]).variable)
}

impl ConstraintModel {
    pub open spec fn within(self, bound: nat) -> bool {
        terms_within(self.a, bound) && terms_within(self.b, bound) && terms_within(self.c, bound)
    }

    pub open spec fn known(self, values: Seq<Option<i128>>) -> bool {
        terms_known(self.a, values) && terms_known(self.b, values) && terms_known(self.c, values)
    }

    /// The constraint holds over the integers.
    pub open spec fn holds(self, values: Seq<Option<i128>>) -> bool {
        combination_value(self.a, values) * combination_value(self.b, values) == combination_value(
            self.c,
            values,
        )
    }

    /// The constraint holds in the integers modulo `modulus`.
    pub open spec fn holds_modulo(self, values: Seq<Option<i128>>, modulus: int) -> bool {
        (combination_value(self.a, values) * combination_value(self.b, values) - combination_value(
            self.c,
            values,
        )) % modulus == 0
    }
}

impl LedgerModel {
    /// A ledger that holds the constant wire and nothing else.
    pub open spec fn empty() -> LedgerModel {
        LedgerModel {
            values: seq![Some(1i128)],
            constraints: Seq::empty(),
            violated: false,
            asserted: false,
            demands: Seq::empty(),
        }
    }

    /// The index that the next allocation returns.
    pub open spec fn next_wire(self) -> usize {
        self.values.len() as usize
    }

    /// The witness value of `wire`, if the wire is allocated and assigned.
    pub open spec fn value(self, wire: usize) -> Option<i128> {
        if wire < self.values.len() {
            self.values[wire as int]
        } else {
            None
        }
    }

    /// `wire` is allocated and its witness value, if it has one, is zero or one.
    pub open spec fn is_bit(self, wire: usize) -> bool {
        &&& wire < self.values.len()
        &&& self.values[wire as int] matches Some(v) ==> v == 0 || v == 1
    }

    pub open spec fn allocate(self, value: Option<i128>) -> LedgerModel {
        LedgerModel { values: self.values.push(value), ..self }
    }

    pub open spec fn enforce(self, constraint: ConstraintModel) -> LedgerModel {
        LedgerModel {
            constraints: self.constraints.push(constraint),
            demands: self.demands.push(false),
            ..self
        }
    }

    pub open spec fn flag(self, violation: bool) -> LedgerModel {
        LedgerModel { violated: self.violated || violation, ..self }
    }

    /// The ledger after an assertion of the program was recorded in it:
    /// the constraints from `from` on are its demands.
    pub open spec fn mark(self, from: nat) -> LedgerModel {
        LedgerModel {
            asserted: true,
            demands: Seq::new(self.demands.len(), |i: int| self.demands[i] || i >= from),
            ..self
        }
    }

    /// Whether the constraint at `i` is a demand of an assertion.
    pub open spec fn is_demand(self, i: int) -> bool {
        0 <= i < self.demands.len() && self.demands[i]
    }

    /// The constant wire is in place, every constraint speaks of allocated
    /// wires only, and no constraint is a demand unless an assertion was recorded.
    pub open spec fn wf(self) -> bool {
        &&& 1 <= self.values.len() <= usize::MAX
        &&& self.values[0] == Some(1i128)
        &&& forall|i: int|
            0 <= i < self.constraints.len() ==> (#[trigger] self.constraints[i]).within(
                self.values.len(),
            )
        &&& self.demands.len() == self.constraints.len()
        &&& !self.asserted ==> forall|i: int| 0 <= i < self.demands.len() ==> !#[trigger] self.demands[i]
    }

    /// Every wire has a witness value.
    pub open spec fn complete(self) -> bool {
        forall|w: int| 0 <= w < self.values.len() ==> (#[trigger] self.values[w]) is Some
    }

    /// Every constraint that is no demand of an assertion, and whose wires
    /// all have values, holds over the integers.
    pub open spec fn consistent(self) -> bool {
        forall|i: int|
            0 <= i < self.constraints.len() && !self.is_demand(i) && (
            #[trigger] self.constraints[i]).known(self.values) ==> self.constraints[i].holds(
                self.values,
            )
    }

    /// No constraint is broken but by a range violation, which is recorded,
    /// or by an assertion of the program: what the synthesizer adds on its
    /// own account, the witness that it computes fulfils.
    pub open spec fn sound(self) -> bool {
        self.violated || self.consistent()
    }

    /// The witness fulfils every demand of an assertion.
    pub open spec fn demands_met(self) -> bool {
        forall|i: int|
            0 <= i < self.constraints.len() && self.is_demand(i) ==> (
            #[trigger] self.constraints[i]).holds(self.values)
    }

    /// The witness is complete and fulfils every constraint over the integers.
    pub open spec fn satisfied(self) -> bool {
        &&& self.complete()
        &&& forall|i: int|
            0 <= i < self.constraints.len() ==> (#[trigger] self.constraints[i]).holds(self.values)
    }

    /// The witness is complete and fulfils every constraint modulo `modulus`.
    pub open spec fn satisfied_modulo(self, modulus: int) -> bool {
        &&& self.complete()
        &&& forall|i: int|
            0 <= i < self.constraints.len() ==> (#[trigger] self.constraints[i]).holds_modulo(
                self.values,
                modulus,
            )
    }

    /// `self` was reached from `earlier` by allocating and constraining only:
    /// nothing that `earlier` recorded was changed or dropped.
    pub open spec fn extends(self, earlier: LedgerModel) -> bool {
        &&& earlier.values.len() <= self.values.len()
        &&& forall|w: int| 0 <= w < earlier.values.len() ==> self.values[w] == earlier.values[w]
        &&& earlier.constraints.len() <= self.constraints.len()
        &&& forall|i: int|
            0 <= i < earlier.constraints.len() ==> self.constraints[i] == earlier.constraints[i]
        &&& earlier.violated ==> self.violated
        &&& earlier.asserted ==> self.asserted
        &&& forall|i: int|
            0 <= i < earlier.constraints.len() ==> self.is_demand(i) == #[trigger] earlier.is_demand(
                i,
            )
    }

    /// `self` extends `earlier` and keeps what held of it: well-formedness,
    /// soundness and completeness of the witness. Where `safe` is set, no
    /// assertion was recorded on the way.
    pub open spec fn proceeds(self, earlier: LedgerModel, safe: bool) -> bool {
        &&& self.extends(earlier)
        &&& earlier.wf() ==> self.wf()
        &&& earlier.wf() && earlier.complete() ==> self.complete()
        &&& earlier.wf() && earlier.sound() ==> self.sound()
        &&& safe ==> self.asserted == earlier.asserted
    }

    /// `self` extends `earlier` and keeps what held of it: well-formedness,
    /// soundness and completeness of the witness; and no assertion was
    /// recorded on the way.
    pub open spec fn follows(self, earlier: LedgerModel) -> bool {
        &&& self.extends(earlier)
        &&& earlier.wf() ==> self.wf()
        &&& earlier.wf() && earlier.sound() ==> self.sound()
        &&& earlier.wf() && earlier.complete() ==> self.complete()
        &&& self.asserted == earlier.asserted
    }
}

impl View for LinearCombination {
    type V = Seq<Term>;

    open spec fn view(&self) -> Seq<Term> {
        self.terms@
    }
}

impl View for Constraint {
    type V = ConstraintModel;

    open spec fn view(&self) -> ConstraintModel {
        ConstraintModel { a: self.a@, b: self.b@, c: self.c@ }
    }
}

pub open spec fn constraint_models(constraints: Seq<Constraint>) -> Seq<ConstraintModel> {
    Seq::new(constraints.len(), |i: int| constraints[i]@)
}

/// A combination of one term.
pub open spec fn single(coefficient: i128, variable: usize) -> Seq<Term> {
    seq![Term { coefficient, variable }]
}

/// A combination of two terms.
pub open spec fn pair(c0: i128, v0: usize, c1: i128, v1: usize) -> Seq<Term> {
    seq![Term { coefficient: c0, variable: v0 }, Term { coefficient: c1, variable: v1 }]
}

pub proof fn lemma_value_push(terms: Seq<Term>, term: Term, values: Seq<Option<i128>>)
    ensures
        combination_value(terms.push(term), values) == combination_value(terms, values)
            + term_value(term, values),
{
    assert(terms.push(term).drop_last() =~= terms);
}

pub proof fn lemma_value_single(coefficient: i128, variable: usize, values: Seq<Option<i128>>)
    ensures
        combination_value(single(coefficient, variable), values) == coefficient * wire_value(
            values,
            variable,
        ),
{
    let t = Term { coefficient, variable };
    assert(single(coefficient, variable) =~= Seq::<Term>::empty().push(t));
    lemma_value_push(Seq::<Term>::empty(), t, values);
}

pub proof fn lemma_value_pair(c0: i128, v0: usize, c1: i128, v1: usize, values: Seq<Option<i128>>)
    ensures
        combination_value(pair(c0, v0, c1, v1), values) == c0 * wire_value(values, v0) + c1
            * wire_value(values, v1),
{
    let t1 = Term { coefficient: c1, variable: v1 };
    assert(pair(c0, v0, c1, v1) =~= single(c0, v0).push(t1));
    lemma_value_push(single(c0, v0), t1, values);
    lemma_value_single(c0, v0, values);
}

/// The value of a sum of two combinations is the sum of their values.
pub proof fn lemma_value_concat(left: Seq<Term>, right: Seq<Term>, values: Seq<Option<i128>>)
    ensures
        combination_value(left + right, values) == combination_value(left, values)
            + combination_value(right, values),
    decreases right.len(),
{
    if right.len() == 0 {
        assert(left + right =~= left);
    } else {
        assert((left + right).drop_last() =~= left + right.drop_last());
        assert((left + right).last() == right.last());
        lemma_value_concat(left, right.drop_last(), values);
    }
}

/// What a combination evaluates to depends only on the wires it names.
pub proof fn lemma_value_stable(
    terms: Seq<Term>,
    before: Seq<Option<i128>>,
    after: Seq<Option<i128>>,
)
    requires
        terms_within(terms, before.len()),
        before.len() <= after.len(),
        forall|w: int| 0 <= w < before.len() ==> after[w] == before[w],
    ensures
        combination_value(terms, after) == combination_value(terms, before),
        terms_known(terms, after) == terms_known(terms, before),
    decreases terms.len(),
{
    if terms.len() > 0 {
        let rest = terms.drop_last();
        assert(terms_within(rest, before.len())) by {
            assert forall|i: int| 0 <= i < rest.len() implies (#[trigger] rest[i]).variable
                < before.len() by {
                assert(rest[i] == terms[i]);
            }
        }
        lemma_value_stable(rest, before, after);
        let t = terms.last();
        assert(t == terms[terms.len() - 1]);
        assert(t.variable < before.len());
        assert(wire_value(after, t.variable) == wire_value(before, t.variable));
    }
    assert(terms_known(terms, after) == terms_known(terms, before)) by {
        if terms_known(terms, before) {
            assert forall|i: int| 0 <= i < terms.len() implies wire_known(
                after,
                (#[trigger] terms[i]).variable,
            ) by {
                assert(wire_known(before, terms[i].variable));
            }
        }
        if terms_known(terms, after) {
            assert forall|i: int| 0 <= i < terms.len() implies wire_known(
                before,
                (#[trigger] terms[i]).variable,
            ) by {
                assert(wire_known(after, terms[i].variable));
            }
        }
    }
}

/// A constraint over wires of `before` reads the same under any witness that extends it.
pub proof fn lemma_constraint_stable(
    constraint: ConstraintModel,
    before: Seq<Option<i128>>,
    after: Seq<Option<i128>>,
)
    requires
        constraint.within(before.len()),
        before.len() <= after.len(),
        forall|w: int| 0 <= w < before.len() ==> after[w] == before[w],
    ensures
        constraint.holds(after) == constraint.holds(before),
        constraint.known(after) == constraint.known(before),
{
    lemma_value_stable(constraint.a, before, after);
    lemma_value_stable(constraint.b, before, after);
    lemma_value_stable(constraint.c, before, after);
}

/// Allocating a wire keeps the ledger well-formed and sound; it keeps the
/// witness complete where the new wire has a value.
pub proof fn lemma_allocate(ledger: LedgerModel, value: Option<i128>)
    requires
        ledger.wf(),
        ledger.values.len() < usize::MAX,
    ensures
        ledger.allocate(value).wf(),
        ledger.allocate(value).extends(ledger),
        ledger.sound() ==> ledger.allocate(value).sound(),
        ledger.complete() && value is Some ==> ledger.allocate(value).complete(),
        ledger.allocate(value).values.len() == ledger.values.len() + 1,
        ledger.allocate(value).values[ledger.values.len() as int] == value,
{
    let next = ledger.allocate(value);
    assert forall|i: int| 0 <= i < next.constraints.len() implies (
    #[trigger] next.constraints[i]).within(next.values.len()) by {
        assert(ledger.constraints[i].within(ledger.values.len()));
    }
    if ledger.sound() && !ledger.violated {
        assert forall|i: int|
            0 <= i < next.constraints.len() && !next.is_demand(i) && (
            #[trigger] next.constraints[i]).known(next.values) implies next.constraints[i].holds(
            next.values,
        ) by {
            assert(!ledger.is_demand(i));
            assert(ledger.constraints[i].within(ledger.values.len()));
            lemma_constraint_stable(ledger.constraints[i], ledger.values, next.values);
        }
    }
}

/// Adding a constraint that the witness fulfils keeps the ledger well-formed and sound.
pub proof fn lemma_enforce(ledger: LedgerModel, constraint: ConstraintModel)
    requires
        ledger.wf(),
        constraint.within(ledger.values.len()),
    ensures
        ledger.enforce(constraint).wf(),
        ledger.enforce(constraint).extends(ledger),
        ledger.sound() && (ledger.violated || constraint.known(ledger.values) ==> constraint.holds(
            ledger.values,
        )) ==> ledger.enforce(constraint).sound(),
        ledger.complete() ==> ledger.enforce(constraint).complete(),
{
    let next = ledger.enforce(constraint);
    assert forall|i: int| 0 <= i < next.constraints.len() implies (
    #[trigger] next.constraints[i]).within(next.values.len()) by {
        if i < ledger.constraints.len() {
            assert(next.constraints[i] == ledger.constraints[i]);
        }
    }
    if ledger.sound() && !ledger.violated && (constraint.known(ledger.values) ==> constraint.holds(
        ledger.values,
    )) {
        assert forall|i: int|
            0 <= i < next.constraints.len() && !next.is_demand(i) && (
            #[trigger] next.constraints[i]).known(next.values) implies next.constraints[i].holds(
            next.values,
        ) by {
            if i < ledger.constraints.len() {
                assert(next.constraints[i] == ledger.constraints[i]);
                assert(!ledger.is_demand(i));
            }
        }
    }
}

/// A recorded violation keeps the ledger sound whatever is added afterwards.
pub proof fn lemma_flag(ledger: LedgerModel, violation: bool)
    requires
        ledger.wf(),
    ensures
        ledger.flag(violation).wf(),
        ledger.flag(violation).extends(ledger),
        ledger.sound() ==> ledger.flag(violation).sound(),
        ledger.complete() ==> ledger.flag(violation).complete(),
{
    let next = ledger.flag(violation);
    assert forall|i: int| 0 <= i < next.constraints.len() implies (
    #[trigger] next.constraints[i]).within(next.values.len()) by {
        assert(ledger.constraints[i].within(ledger.values.len()));
    }
}

/// The constraints of an assertion do not touch soundness. `before` is the
/// ledger in which the assertion is reached and `after` the ledger in which
/// its constraints stand, on the wires that `before` had: once they are
/// marked as demands, the ledger is as sound as it was.
pub proof fn lemma_mark(before: LedgerModel, after: LedgerModel)
    requires
        before.wf(),
        after.wf(),
        after.extends(before),
        after.values.len() == before.values.len(),
    ensures
        after.mark(before.constraints.len()).wf(),
        after.mark(before.constraints.len()).extends(before),
        before.sound() ==> after.mark(before.constraints.len()).sound(),
        before.complete() ==> after.mark(before.constraints.len()).complete(),
        before.demands_met() && (forall|i: int|
            before.constraints.len() <= i < after.constraints.len() ==> (
            #[trigger] after.constraints[i]).holds(after.values)) ==> after.mark(
            before.constraints.len(),
        ).demands_met(),
{
    let from = before.constraints.len();
    let next = after.mark(from);
    assert(after.values =~= before.values);
    assert forall|i: int| 0 <= i < next.constraints.len() implies (
    #[trigger] next.constraints[i]).within(next.values.len()) by {
        assert(after.constraints[i].within(after.values.len()));
    }
    assert forall|i: int| 0 <= i < from implies next.is_demand(i) == #[trigger] before.is_demand(
        i,
    ) by {
        assert(after.is_demand(i) == before.is_demand(i));
    }
    if before.sound() && !next.violated {
        assert forall|i: int|
            0 <= i < next.constraints.len() && !next.is_demand(i) && (
            #[trigger] next.constraints[i]).known(next.values) implies next.constraints[i].holds(
            next.values,
        ) by {
            assert(i < from);
            assert(next.constraints[i] == before.constraints[i]);
            assert(!before.is_demand(i));
        }
    }
    if before.demands_met() && (forall|i: int|
        from <= i < after.constraints.len() ==> (#[trigger] after.constraints[i]).holds(
            after.values,
        )) {
        assert forall|i: int| 0 <= i < next.constraints.len() && next.is_demand(i) implies (
        #[trigger] next.constraints[i]).holds(next.values) by {
            if i < from {
                assert(next.constraints[i] == before.constraints[i]);
                assert(before.is_demand(i));
            }
        }
    }
}

/// `proceeds` composes.
pub proof fn lemma_proceeds_transitive(
    first: LedgerModel,
    second: LedgerModel,
    third: LedgerModel,
    safe: bool,
)
    requires
        second.proceeds(first, safe),
        third.proceeds(second, safe),
    ensures
        third.proceeds(first, safe),
{
}

/// `follows` composes.
pub proof fn lemma_follows_transitive(first: LedgerModel, second: LedgerModel, third: LedgerModel)
    requires
        second.follows(first),
        third.follows(second),
    ensures
        third.follows(first),
{
}

impl LinearCombination {
    /// The empty combination, which evaluates to zero.
    pub fn zero() -> (r: LinearCombination)
        ensures
            r@ == Seq::<Term>::empty(),
    {
        LinearCombination { terms: Vec::new() }
    }

    /// The combination `coefficient * variable`.
    pub fn of(coefficient: i128, variable: usize) -> (r: LinearCombination)
        ensures
            r@ == single(coefficient, variable),
    {
        let mut terms: Vec<Term> = Vec::new();
        terms.push(Term { coefficient, variable });
        LinearCombination { terms }
    }

    /// The combination `c0 * v0 + c1 * v1`.
    pub fn of_two(c0: i128, v0: usize, c1: i128, v1: usize) -> (r: LinearCombination)
        ensures
            r@ == pair(c0, v0, c1, v1),
    {
        let mut terms: Vec<Term> = Vec::new();
        terms.push(Term { coefficient: c0, variable: v0 });
        terms.push(Term { coefficient: c1, variable: v1 });
        LinearCombination { terms }
    }

    /// Appends `coefficient * variable` to the sum.
    pub fn add_term(&mut self, coefficient: i128, variable: usize)
        ensures
            final(self)@ == old(self)@.push(Term { coefficient, variable }),
    {
        self.terms.push(Term { coefficient, variable });
    }
}

/// An append-only record of wires, their witness values and the constraints between them.
#[derive(Debug)]
pub struct ConstraintLedger {
    values: Vec<Option<i128>>,
    constraints: Vec<Constraint>,
    violated: bool,
    asserted: bool,
    demands: Vec<bool>,
}

impl View for ConstraintLedger {
    type V = LedgerModel;

    closed spec fn view(&self) -> LedgerModel {
        LedgerModel {
            values: self.values@,
            constraints: constraint_models(self.constraints@),
            violated: self.violated,
            asserted: self.asserted,
            demands: self.demands@,
        }
    }
}

impl ConstraintLedger {
    /// A fresh ledger. It holds the constant wire [`ONE`] and no constraint.
    pub fn new() -> (r: ConstraintLedger)
        ensures
            r@ == LedgerModel::empty(),
            r@.wf(),
            r@.sound(),
            r@.complete(),
    {
        let mut values: Vec<Option<i128>> = Vec::new();
        values.push(Some(1i128));
        let r = ConstraintLedger {
            values,
            constraints: Vec::new(),
            violated: false,
            asserted: false,
            demands: Vec::new(),
        };
        assert(r@.values =~= LedgerModel::empty().values);
        assert(r@.constraints =~= LedgerModel::empty().constraints);
        r
    }

    /// Allocates a wire, with a witness value where one is known, and returns its index.
    pub fn allocate(&mut self, value: Option<i128>) -> (wire: usize)
        ensures
            final(self)@ == old(self)@.allocate(value),
            wire == old(self)@.next_wire(),
            wire == old(self)@.values.len(),
            final(self)@.values.len() <= usize::MAX,
    {
        let wire = self.values.len();
        self.values.push(value);
        proof {
            vstd::std_specs::vec::axiom_spec_len(&self.values);
        }
        wire
    }

    /// Records the constraint `a * b = c`.
    pub fn enforce(&mut self, a: LinearCombination, b: LinearCombination, c: LinearCombination)
        ensures
            final(self)@ == old(self)@.enforce(ConstraintModel { a: a@, b: b@, c: c@ }),
    {
        let constraint = Constraint { a, b, c };
        self.constraints.push(constraint);
        self.demands.push(false);
        assert(constraint_models(self.constraints@) =~= constraint_models(
            old(self).constraints@,
        ).push(constraint@));
    }

    /// Records that a witness value left the range of its integer type, if `violation` is set.
    pub fn flag(&mut self, violation: bool)
        ensures
            final(self)@ == old(self)@.flag(violation),
    {
        self.violated = self.violated || violation;
    }

    /// The witness value of `wire`, if the wire is allocated and assigned.
    pub fn value(&self, wire: usize) -> (r: Option<i128>)
        ensures
            r == self@.value(wire),
    {
        if wire < self.values.len() {
            self.values[wire]
        } else {
            None
        }
    }

    /// Whether a range violation was recorded.
    pub fn is_violated(&self) -> (r: bool)
        ensures
            r == self@.violated,
    {
        self.violated
    }

    /// Records that an assertion of the program was added to the ledger:
    /// the constraints from `from` on are its demands.
    pub fn mark(&mut self, from: usize)
        ensures
            final(self)@ == old(self)@.mark(from as nat),
    {
        self.asserted = true;
        let count = self.demands.len();
        let mut i: usize = 0;
        while i < count
            invariant
                i <= count,
                count == old(self).demands@.len(),
                self.demands@.len() == count,
                self.values == old(self).values,
                self.constraints == old(self).constraints,
                self.violated == old(self).violated,
                self.asserted,
                forall|j: int|
                    0 <= j < i ==> self.demands@[j] == (old(self).demands@[j] || j >= from),
                forall|j: int| i <= j < count ==> self.demands@[j] == old(self).demands@[j],
            decreases count - i,
        {
            if i >= from {
                self.demands.set(i, true);
            }
            i = i + 1;
        }
        assert(self.demands@ =~= old(self)@.mark(from as nat).demands);
    }

    /// Whether the constraint at `index` is a demand of an assertion of the
    /// program.
    pub fn is_demand(&self, index: usize) -> (r: bool)
        ensures
            r == self@.is_demand(index as int),
    {
        index < self.demands.len() && self.demands[index]
    }

    /// Whether an assertion of the program was recorded: whether the
    /// synthesis reached one. Without one, nothing in the ledger can fail
    /// but a value that leaves its type.
    pub fn is_asserted(&self) -> (r: bool)
        ensures
            r == self@.asserted,
    {
        self.asserted
    }

    /// The number of wires, the constant wire included.
    pub fn num_variables(&self) -> (r: usize)
        ensures
            r == self@.values.len(),
    {
        self.values.len()
    }

    /// The number of constraints.
    pub fn num_constraints(&self) -> (r: usize)
        ensures
            r == self@.constraints.len(),
    {
        self.constraints.len()
    }

    /// The constraint that was added as the `index`-th.
    pub fn constraint(&self, index: usize) -> (r: &Constraint)
        requires
            index < self@.constraints.len(),
        ensures
            r@ == self@.constraints[index as int],
    {
        &self.constraints[index]
    }

    /// Whether the ledger is well-formed, which is what every synthesis asks
    /// of the ledger that it is handed. A fresh ledger is, and allocating
    /// keeps it so; a constraint on a wire that was never allocated does not.
    pub fn is_well_formed(&self) -> (r: bool)
        ensures
            r == self@.wf(),
    {
        let bound = self.values.len();
        if bound < 1 {
            return false;
        }
        if self.demands.len() != self.constraints.len() {
            return false;
        }
        if !self.asserted {
            let mut d: usize = 0;
            while d < self.demands.len()
                invariant
                    !self.asserted,
                    d <= self.demands@.len(),
                    forall|k: int| 0 <= k < d ==> !#[trigger] self.demands@[k],
                decreases self.demands@.len() - d,
            {
                if self.demands[d] {
                    assert(self@.demands[d as int]);
                    return false;
                }
                d = d + 1;
            }
        }
        match self.values[0] {
            Some(v) => {
                if v != 1 {
                    return false;
                }
            },
            None => {
                return false;
            },
        }
        let mut i: usize = 0;
        while i < self.constraints.len()
            invariant
                i <= self.constraints@.len(),
                bound == self.values@.len(),
                forall|k: int|
                    0 <= k < i ==> (#[trigger] self@.constraints[k]).within(bound as nat),
            decreases self.constraints@.len() - i,
        {
            let constraint = &self.constraints[i];
            let inside = terms_inside(&constraint.a.terms, bound) && terms_inside(
                &constraint.b.terms,
                bound,
            ) && terms_inside(&constraint.c.terms, bound);
            assert(inside == self@.constraints[i as int].within(bound as nat));
            if !inside {
                return false;
            }
            i = i + 1;
        }
        true
    }
}

/// Whether every term of the combination names a wire below `bound`.
fn terms_inside(terms: &Vec<Term>, bound: usize) -> (r: bool)
    ensures
        r == terms_within(terms@, bound as nat),
{
    let mut i: usize = 0;
    while i < terms.len()
        invariant
            i <= terms@.len(),
            forall|k: int| 0 <= k < i ==> (#[trigger] terms@[k]).variable < bound,
        decreases terms@.len() - i,
    {
        if terms[i].variable >= bound {
            return false;
        }
        i = i + 1;
    }
    true
}

} // verus!
