//! The symbol scope: a stack of frames that bind names to values.
//!
//! A lookup searches the innermost frame first and, within a frame, the
//! latest binding first, so that a later definition shadows an earlier one.

use crate::ledger::{lemma_follows_transitive, ConstraintLedger, LedgerModel};
use crate::value::{
    compatible, lemma_value_ok_extends, select_value, select_value_spec, value_ok, Value,
    ValueModel,
};
use vstd::prelude::*;

verus! {

/// A name and the value bound to it.
#[derive(Debug)]
pub struct Binding {
    pub name: String,
    pub value: Value,
}

/// The mathematical content of a [`Binding`].
pub struct BindingModel {
    pub name: Seq<char>,
    pub value: ValueModel,
}

/// The mathematical content of a [`SymbolScope`]: its frames, outermost first.
pub type ScopeModel = Seq<Seq<BindingModel>>;

pub open spec fn binding_model(binding: Binding) -> BindingModel {
    BindingModel { name: binding.name@, value: binding.value@ }
}

pub open spec fn frame_model(frame: Seq<Binding>) -> Seq<BindingModel> {
    Seq::new(frame.len(), |j: int| binding_model(frame[j]))
}

pub open spec fn scope_model(frames: Seq<Vec<Binding>>) -> ScopeModel {
    Seq::new(frames.len(), |i: int| frame_model(frames[i]@))
}

/// The position of the latest binding of `name` among the first `upto` bindings of a frame.
pub open spec fn frame_find(frame: Seq<BindingModel>, name: Seq<char>, upto: nat) -> Option<nat>
    decreases upto,
{
    if upto == 0 || upto > frame.len() {
        None
    } else if frame[upto - 1].name == name {
        Some((upto - 1) as nat)
    } else {
        frame_find(frame, name, (upto - 1) as nat)
    }
}

/// The frame and the position of the binding that `name` refers to, among the
/// first `upto` frames: the latest binding of the innermost frame that has one.
pub open spec fn scope_find(scope: ScopeModel, name: Seq<char>, upto: nat) -> Option<(nat, nat)>
    decreases upto,
{
    if upto == 0 || upto > scope.len() {
        None
    } else {
        match frame_find(scope[upto - 1], name, scope[upto - 1].len()) {
            Some(j) => Some(((upto - 1) as nat, j)),
            None => scope_find(scope, name, (upto - 1) as nat),
        }
    }
}

/// The value that `name` refers to.
pub open spec fn scope_lookup(scope: ScopeModel, name: Seq<char>) -> Option<ValueModel> {
    match scope_find(scope, name, scope.len()) {
        Some((i, j)) => Some(scope[i as int][j as int].value),
        None => None,
    }
}

/// The scope after `value` replaced what `name` referred to, if the name is bound.
pub open spec fn scope_assign(scope: ScopeModel, name: Seq<char>, value: ValueModel) -> Option<
    ScopeModel,
> {
    match scope_find(scope, name, scope.len()) {
        Some((i, j)) => Some(
            scope.update(
                i as int,
                scope[i as int].update(j as int, BindingModel { name, value }),
            ),
        ),
        None => None,
    }
}

/// The scope after `name` was bound to `value` in the innermost frame.
pub open spec fn scope_define(scope: ScopeModel, name: Seq<char>, value: ValueModel) -> ScopeModel {
    if scope.len() == 0 {
        seq![seq![BindingModel { name, value }]]
    } else {
        scope.update(scope.len() - 1, scope.last().push(BindingModel { name, value }))
    }
}

pub open spec fn scope_push(scope: ScopeModel) -> ScopeModel {
    scope.push(Seq::empty())
}

pub open spec fn scope_pop(scope: ScopeModel) -> ScopeModel {
    if scope.len() == 0 {
        scope
    } else {
        scope.drop_last()
    }
}

/// Every value that the scope binds is backed by the ledger.
pub open spec fn scope_ok(scope: ScopeModel, ledger: LedgerModel) -> bool {
    forall|i: int, j: int|
        0 <= i < scope.len() && 0 <= j < scope[i].len() ==> value_ok(
            (#[trigger] scope[i][j]).value,
            ledger,
        )
}

/// Two frames bind the same names, in the same order, to compatible values.
pub open spec fn frames_compatible(a: Seq<BindingModel>, b: Seq<BindingModel>) -> bool {
    &&& a.len() == b.len()
    &&& forall|j: int|
        0 <= j < a.len() ==> (#[trigger] a[j]).name == b[j].name && compatible(
            a[j].value,
            b[j].value,
        )
}

/// Two scopes have the same frames, up to the values bound.
pub open spec fn scopes_compatible(a: ScopeModel, b: ScopeModel) -> bool {
    &&& a.len() == b.len()
    &&& forall|i: int| 0 <= i < a.len() ==> frames_compatible(#[trigger] a[i], b[i])
}

/// Selects between the bindings of two compatible frames, from `index` on.
pub open spec fn merge_frame_spec(
    ledger: LedgerModel,
    c: usize,
    a: Seq<BindingModel>,
    b: Seq<BindingModel>,
    index: nat,
    done: Seq<BindingModel>,
) -> (Seq<BindingModel>, LedgerModel)
    decreases a.len() - index,
{
    if index < a.len() && index < b.len() {
        let head = select_value_spec(ledger, c, a[index as int].value, b[index as int].value);
        merge_frame_spec(
            head.1,
            c,
            a,
            b,
            index + 1,
            done.push(BindingModel { name: a[index as int].name, value: head.0 }),
        )
    } else {
        (done, ledger)
    }
}

/// Merges two compatible scopes after a conditional: every binding becomes the
/// selection, by the boolean wire `c`, between its value in `a` and its value in `b`.
pub open spec fn merge_scope_spec(
    ledger: LedgerModel,
    c: usize,
    a: ScopeModel,
    b: ScopeModel,
    index: nat,
    done: ScopeModel,
) -> (ScopeModel, LedgerModel)
    decreases a.len() - index,
{
    if index < a.len() && index < b.len() {
        let head = merge_frame_spec(ledger, c, a[index as int], b[index as int], 0, Seq::empty());
        merge_scope_spec(head.1, c, a, b, index + 1, done.push(head.0))
    } else {
        (done, ledger)
    }
}

pub proof fn lemma_frame_find(frame: Seq<BindingModel>, name: Seq<char>, upto: nat)
    ensures
        frame_find(frame, name, upto) matches Some(j) ==> j < upto && j < frame.len() && frame[j as int].name
            == name,
    decreases upto,
{
    if upto == 0 || upto > frame.len() {
    } else if frame[upto - 1].name == name {
    } else {
        lemma_frame_find(frame, name, (upto - 1) as nat);
    }
}

pub proof fn lemma_scope_find(scope: ScopeModel, name: Seq<char>, upto: nat)
    ensures
        scope_find(scope, name, upto) matches Some((i, j)) ==> i < upto && i < scope.len() && j
            < scope[i as int].len() && scope[i as int][j as int].name == name,
    decreases upto,
{
    if upto == 0 || upto > scope.len() {
    } else {
        lemma_frame_find(scope[upto - 1], name, scope[upto - 1].len());
        lemma_scope_find(scope, name, (upto - 1) as nat);
    }
}

/// A scope that one ledger backs is backed by every ledger that extends it.
pub proof fn lemma_scope_ok_extends(scope: ScopeModel, before: LedgerModel, after: LedgerModel)
    requires
        before.wf(),
        scope_ok(scope, before),
        after.extends(before),
    ensures
        scope_ok(scope, after),
{
    assert forall|i: int, j: int| 0 <= i < scope.len() && 0 <= j < scope[i].len() implies value_ok(
        (#[trigger] scope[i][j]).value,
        after,
    ) by {
        lemma_value_ok_extends(scope[i][j].value, before, after);
    }
}

/// What a lookup finds in a scope that the ledger backs is backed by the ledger.
pub proof fn lemma_lookup_ok(scope: ScopeModel, name: Seq<char>, ledger: LedgerModel)
    requires
        scope_ok(scope, ledger),
    ensures
        scope_lookup(scope, name) matches Some(v) ==> value_ok(v, ledger),
{
    lemma_scope_find(scope, name, scope.len());
}

pub proof fn lemma_define_ok(
    scope: ScopeModel,
    name: Seq<char>,
    value: ValueModel,
    ledger: LedgerModel,
)
    requires
        scope_ok(scope, ledger),
        value_ok(value, ledger),
    ensures
        scope_ok(scope_define(scope, name, value), ledger),
        scope.len() > 0 ==> scope_define(scope, name, value).len() == scope.len(),
        scope_pop(scope_define(scope, name, value)) == scope_pop(scope),
{
    let next = scope_define(scope, name, value);
    assert forall|i: int, j: int| 0 <= i < next.len() && 0 <= j < next[i].len() implies value_ok(
        (#[trigger] next[i][j]).value,
        ledger,
    ) by {
        if scope.len() > 0 && i < scope.len() - 1 {
            assert(next[i][j] == scope[i][j]);
        } else if scope.len() > 0 && j < scope[i].len() {
            assert(next[i][j] == scope[i][j]);
        }
    }
    assert(scope_pop(next) =~= scope_pop(scope));
}

pub proof fn lemma_assign_ok(
    scope: ScopeModel,
    name: Seq<char>,
    value: ValueModel,
    ledger: LedgerModel,
)
    requires
        scope_ok(scope, ledger),
        value_ok(value, ledger),
    ensures
        scope_assign(scope, name, value) matches Some(next) ==> scope_ok(next, ledger)
            && next.len() == scope.len(),
{
    lemma_scope_find(scope, name, scope.len());
    match scope_assign(scope, name, value) {
        Some(next) => {
            assert forall|i: int, j: int|
                0 <= i < next.len() && 0 <= j < next[i].len() implies value_ok(
                (#[trigger] next[i][j]).value,
                ledger,
            ) by {
                let found = scope_find(scope, name, scope.len())->Some_0;
                if i == found.0 && j == found.1 {
                } else {
                    assert(next[i][j] == scope[i][j]);
                }
            }
        },
        None => {},
    }
}

pub proof fn lemma_push_pop(scope: ScopeModel, ledger: LedgerModel)
    requires
        scope_ok(scope, ledger),
    ensures
        scope_ok(scope_push(scope), ledger),
        scope_ok(scope_pop(scope), ledger),
        scope_pop(scope_push(scope)) == scope,
        scope_push(scope).len() == scope.len() + 1,
{
    let pushed = scope_push(scope);
    assert forall|i: int, j: int|
        0 <= i < pushed.len() && 0 <= j < pushed[i].len() implies value_ok(
        (#[trigger] pushed[i][j]).value,
        ledger,
    ) by {
        if i < scope.len() {
            assert(pushed[i][j] == scope[i][j]);
        }
    }
    let popped = scope_pop(scope);
    assert forall|i: int, j: int|
        0 <= i < popped.len() && 0 <= j < popped[i].len() implies value_ok(
        (#[trigger] popped[i][j]).value,
        ledger,
    ) by {
        assert(popped[i][j] == scope[i][j]);
    }
    assert(scope_pop(pushed) =~= scope);
}

/// The stack of frames of one function body.
#[derive(Debug)]
pub struct SymbolScope {
    frames: Vec<Vec<Binding>>,
}

impl View for SymbolScope {
    type V = ScopeModel;

    closed spec fn view(&self) -> ScopeModel {
        scope_model(self.frames@)
    }
}

fn same_name(a: &String, b: &String) -> (r: bool)
    ensures
        r == (a@ == b@),
{
    a.eq(b)
}

fn find_in_frame(frame: &Vec<Binding>, name: &String) -> (r: Option<usize>)
    ensures
        r matches Some(j) ==> frame_find(frame_model(frame@), name@, frame@.len()) == Some(
            j as nat,
        ) && j < frame.len(),
        r is None ==> frame_find(frame_model(frame@), name@, frame@.len()) is None,
{
    let ghost model = frame_model(frame@);
    let mut upto = frame.len();
    while upto > 0
        invariant
            upto <= frame.len(),
            model == frame_model(frame@),
            frame_find(model, name@, frame@.len()) == frame_find(model, name@, upto as nat),
        decreases upto,
    {
        assert(model[upto - 1].name == frame@[upto - 1].name@);
        if same_name(&frame[upto - 1].name, name) {
            return Some(upto - 1);
        }
        upto = upto - 1;
    }
    None
}

impl SymbolScope {
    /// A scope of one empty frame.
    pub fn new() -> (r: SymbolScope)
        ensures
            r@ == scope_push(Seq::empty()),
            r@.len() == 1,
    {
        let mut frames: Vec<Vec<Binding>> = Vec::new();
        frames.push(Vec::new());
        let r = SymbolScope { frames };
        assert(r@ =~= scope_push(Seq::empty())) by {
            assert(r@.len() == 1);
            assert(r@[0] =~= Seq::<BindingModel>::empty());
        }
        r
    }

    /// The number of frames.
    pub fn depth(&self) -> (r: usize)
        ensures
            r == self@.len(),
    {
        self.frames.len()
    }

    /// Enters a block: pushes an empty frame.
    pub fn push_frame(&mut self)
        ensures
            final(self)@ == scope_push(old(self)@),
    {
        self.frames.push(Vec::new());
        assert(self@ =~= scope_push(old(self)@)) by {
            assert(self@.len() == old(self)@.len() + 1);
            assert forall|i: int| 0 <= i < self@.len() implies self@[i] == scope_push(
                old(self)@,
            )[i] by {
                if i < old(self)@.len() {
                    assert(self.frames@[i] == old(self).frames@[i]);
                } else {
                    assert(self@[i] =~= Seq::<BindingModel>::empty());
                }
            }
        }
    }

    /// Leaves a block: pops the innermost frame, if there is one.
    pub fn pop_frame(&mut self)
        ensures
            final(self)@ == scope_pop(old(self)@),
    {
        let _ = self.frames.pop();
        assert(self@ =~= scope_pop(old(self)@)) by {
            if old(self)@.len() > 0 {
                assert forall|i: int| 0 <= i < self@.len() implies self@[i] == scope_pop(
                    old(self)@,
                )[i] by {
                    assert(self.frames@[i] == old(self).frames@[i]);
                }
            }
        }
    }

    /// Binds `name` to `value` in the innermost frame.
    pub fn define(&mut self, name: String, value: Value)
        ensures
            final(self)@ == scope_define(old(self)@, name@, value@),
    {
        let ghost binding = BindingModel { name: name@, value: value@ };
        let mut frame = match self.frames.pop() {
            Some(frame) => frame,
            None => Vec::new(),
        };
        let ghost before = frame@;
        frame.push(Binding { name, value });
        assert(frame_model(frame@) =~= frame_model(before).push(binding));
        self.frames.push(frame);
        assert(self@ =~= scope_define(old(self)@, binding.name, binding.value)) by {
            let next = scope_define(old(self)@, binding.name, binding.value);
            if old(self)@.len() == 0 {
                assert(frame_model(before) =~= Seq::<BindingModel>::empty());
                assert(self@.len() == 1);
                assert(self@[0] =~= next[0]);
            } else {
                assert(self@.len() == next.len());
                assert forall|i: int| 0 <= i < self@.len() implies self@[i] == next[i] by {
                    if i < self@.len() - 1 {
                        assert(self.frames@[i] == old(self).frames@[i]);
                    } else {
                        assert(before == old(self).frames@[i]@);
                    }
                }
            }
        }
    }

    /// The frame and the position of the binding that `name` refers to.
    pub fn find(&self, name: &String) -> (r: Option<(usize, usize)>)
        ensures
            r matches Some((i, j)) ==> scope_find(self@, name@, self@.len()) == Some(
                (i as nat, j as nat),
            ) && i < self@.len() && j < self@[i as int].len(),
            r is None ==> scope_find(self@, name@, self@.len()) is None,
    {
        let mut upto = self.frames.len();
        while upto > 0
            invariant
                upto <= self.frames.len(),
                scope_find(self@, name@, self@.len()) == scope_find(self@, name@, upto as nat),
            decreases upto,
        {
            assert(self@[upto - 1] == frame_model(self.frames@[upto - 1]@));
            match find_in_frame(&self.frames[upto - 1], name) {
                Some(j) => {
                    return Some((upto - 1, j));
                },
                None => {},
            }
            upto = upto - 1;
        }
        None
    }

    /// A copy of the value that `name` refers to.
    pub fn lookup(&self, name: &String) -> (r: Option<Value>)
        ensures
            crate::value::option_model(r) == scope_lookup(self@, name@),
    {
        match self.find(name) {
            Some((i, j)) => {
                assert(self@[i as int] == frame_model(self.frames@[i as int]@));
                Some(self.frames[i][j].value.duplicate())
            },
            None => None,
        }
    }

    /// Replaces what `name` refers to by `value`. Returns whether the name was bound.
    pub fn assign(&mut self, name: &String, value: Value) -> (r: bool)
        ensures
            r == scope_assign(old(self)@, name@, value@).is_some(),
            r ==> final(self)@ == scope_assign(old(self)@, name@, value@)->Some_0,
            !r ==> final(self)@ == old(self)@,
    {
        match self.find(name) {
            Some((i, j)) => {
                let ghost model = self@;
                let ghost replaced = BindingModel { name: name@, value: value@ };
                assert(model[i as int] == frame_model(self.frames@[i as int]@));
                let mut frame = self.frames.remove(i);
                let ghost before = frame@;
                frame.set(j, Binding { name: name.clone(), value });
                assert(frame_model(frame@) =~= frame_model(before).update(j as int, replaced));
                self.frames.insert(i, frame);
                assert(self@ =~= model.update(i as int, model[i as int].update(j as int, replaced)))
                    by {
                    let next = model.update(i as int, model[i as int].update(j as int, replaced));
                    assert(self@.len() == next.len());
                    assert forall|k: int| 0 <= k < self@.len() implies self@[k] == next[k] by {
                        if k != i {
                            assert(self.frames@[k] == old(self).frames@[k]);
                        }
                    }
                }
                true
            },
            None => false,
        }
    }

    /// A copy of the scope.
    pub fn duplicate(&self) -> (r: SymbolScope)
        ensures
            r@ == self@,
    {
        let mut frames: Vec<Vec<Binding>> = Vec::new();
        let mut i: usize = 0;
        while i < self.frames.len()
            invariant
                i <= self.frames.len(),
                frames@.len() == i,
                forall|k: int| 0 <= k < i ==> frame_model(frames@[k]@) == frame_model(
                    self.frames@[k]@,
                ),
            decreases self.frames.len() - i,
        {
            let source = &self.frames[i];
            let mut frame: Vec<Binding> = Vec::new();
            let mut j: usize = 0;
            while j < source.len()
                invariant
                    j <= source.len(),
                    frame@.len() == j,
                    forall|k: int| 0 <= k < j ==> binding_model(frame@[k]) == binding_model(
                        source@[k],
                    ),
                decreases source.len() - j,
            {
                frame.push(
                    Binding { name: source[j].name.clone(), value: source[j].value.duplicate() },
                );
                j = j + 1;
            }
            assert(frame_model(frame@) =~= frame_model(source@));
            frames.push(frame);
            i = i + 1;
        }
        let r = SymbolScope { frames };
        assert(r@ =~= self@);
        r
    }

    /// Whether `other` has the frames of `self`, up to the values bound.
    pub fn fits(&self, other: &SymbolScope) -> (r: bool)
        ensures
            r == scopes_compatible(self@, other@),
    {
        if self.frames.len() != other.frames.len() {
            return false;
        }
        let mut i: usize = 0;
        while i < self.frames.len()
            invariant
                i <= self.frames.len(),
                self.frames.len() == other.frames.len(),
                forall|k: int| 0 <= k < i ==> frames_compatible(#[trigger] self@[k], other@[k]),
            decreases self.frames.len() - i,
        {
            let a = &self.frames[i];
            let b = &other.frames[i];
            assert(self@[i as int] == frame_model(a@));
            assert(other@[i as int] == frame_model(b@));
            if a.len() != b.len() {
                return false;
            }
            let mut j: usize = 0;
            while j < a.len()
                invariant
                    j <= a.len(),
                    a.len() == b.len(),
                    i < self@.len(),
                    i < other@.len(),
                    self@[i as int] == frame_model(a@),
                    other@[i as int] == frame_model(b@),
                    forall|k: int|
                        0 <= k < j ==> (#[trigger] frame_model(a@)[k]).name == frame_model(
                            b@,
                        )[k].name && compatible(frame_model(a@)[k].value, frame_model(b@)[k].value),
                decreases a.len() - j,
            {
                let same = same_name(&a[j].name, &b[j].name) && a[j].value.fits(&b[j].value);
                assert(frame_model(a@)[j as int] == binding_model(a@[j as int]));
                assert(frame_model(b@)[j as int] == binding_model(b@[j as int]));
                if !same {
                    assert(!frames_compatible(self@[i as int], other@[i as int]));
                    return false;
                }
                j = j + 1;
            }
            i = i + 1;
        }
        true
    }

    /// Merges two compatible scopes after a conditional: every binding of the
    /// result is the selection, by the boolean wire `c`, between its value in
    /// `self` and its value in `other`.
    pub fn merge(&self, other: &SymbolScope, ledger: &mut ConstraintLedger, c: usize) -> (r:
        SymbolScope)
        requires
            old(ledger)@.wf(),
            old(ledger)@.is_bit(c),
            scope_ok(self@, old(ledger)@),
            scope_ok(other@, old(ledger)@),
            scopes_compatible(self@, other@),
        ensures
            (r@, final(ledger)@) == merge_scope_spec(
                old(ledger)@,
                c,
                self@,
                other@,
                0,
                Seq::empty(),
            ),
            final(ledger)@.follows(old(ledger)@),
            final(ledger)@.wf(),
            scope_ok(r@, final(ledger)@),
            r@.len() == self@.len(),
    {
        let mut frames: Vec<Vec<Binding>> = Vec::new();
        let mut i: usize = 0;
        let ghost start = old(ledger)@;
        assert(scope_model(frames@) =~= Seq::<Seq<BindingModel>>::empty());
        while i < self.frames.len()
            invariant
                i <= self.frames.len(),
                self.frames.len() == other.frames.len(),
                frames@.len() == i,
                start.wf(),
                start == old(ledger)@,
                scopes_compatible(self@, other@),
                merge_scope_spec(start, c, self@, other@, 0, Seq::empty()) == merge_scope_spec(
                    ledger@,
                    c,
                    self@,
                    other@,
                    i as nat,
                    scope_model(frames@),
                ),
                ledger@.follows(start),
                ledger@.wf(),
                ledger@.is_bit(c),
                scope_ok(self@, ledger@),
                scope_ok(other@, ledger@),
                scope_ok(scope_model(frames@), ledger@),
            decreases self.frames.len() - i,
        {
            let a = &self.frames[i];
            let b = &other.frames[i];
            assert(self@[i as int] == frame_model(a@));
            assert(other@[i as int] == frame_model(b@));
            assert(frames_compatible(self@[i as int], other@[i as int]));
            let ghost entry = ledger@;
            let mut frame: Vec<Binding> = Vec::new();
            let mut j: usize = 0;
            assert(frame_model(frame@) =~= Seq::<BindingModel>::empty());
            while j < a.len()
                invariant
                    j <= a.len(),
                    a.len() == b.len(),
                    frame@.len() == j,
                    i < self.frames.len(),
                    i < self@.len(),
                    i < other@.len(),
                    self@[i as int] == frame_model(a@),
                    other@[i as int] == frame_model(b@),
                    frames_compatible(frame_model(a@), frame_model(b@)),
                    merge_frame_spec(entry, c, frame_model(a@), frame_model(b@), 0, Seq::empty())
                        == merge_frame_spec(
                        ledger@,
                        c,
                        frame_model(a@),
                        frame_model(b@),
                        j as nat,
                        frame_model(frame@),
                    ),
                    entry.wf(),
                    ledger@.follows(entry),
                    ledger@.wf(),
                    ledger@.is_bit(c),
                    scope_ok(self@, ledger@),
                    scope_ok(other@, ledger@),
                    forall|k: int|
                        0 <= k < j ==> value_ok((#[trigger] frame_model(frame@)[k]).value, ledger@),
                decreases a.len() - j,
            {
                let ghost before = ledger@;
                assert(frame_model(a@)[j as int] == binding_model(a@[j as int]));
                assert(frame_model(b@)[j as int] == binding_model(b@[j as int]));
                assert(value_ok(self@[i as int][j as int].value, before));
                assert(value_ok(other@[i as int][j as int].value, before));
                let value = select_value(ledger, c, &a[j].value, &b[j].value);
                let ghost earlier = frame@;
                frame.push(Binding { name: a[j].name.clone(), value });
                proof {
                    lemma_follows_transitive(entry, before, ledger@);
                    lemma_scope_ok_extends(self@, before, ledger@);
                    lemma_scope_ok_extends(other@, before, ledger@);
                    assert(frame_model(frame@) =~= frame_model(earlier).push(
                        BindingModel { name: a@[j as int].name@, value: value@ },
                    ));
                    assert forall|k: int| 0 <= k < j + 1 implies value_ok(
                        (#[trigger] frame_model(frame@)[k]).value,
                        ledger@,
                    ) by {
                        if k < j {
                            assert(frame_model(frame@)[k] == frame_model(earlier)[k]);
                            lemma_value_ok_extends(frame_model(earlier)[k].value, before, ledger@);
                        }
                    }
                }
                j = j + 1;
            }
            let ghost earlier = frames@;
            let ghost merged = frame_model(frame@);
            frames.push(frame);
            proof {
                lemma_follows_transitive(start, entry, ledger@);
                assert(scope_model(frames@) =~= scope_model(earlier).push(merged));
                assert forall|p: int, q: int|
                    0 <= p < scope_model(frames@).len() && 0 <= q < scope_model(
                        frames@,
                    )[p].len() implies value_ok(
                    (#[trigger] scope_model(frames@)[p][q]).value,
                    ledger@,
                ) by {
                    if p < i {
                        assert(scope_model(frames@)[p] == scope_model(earlier)[p]);
                        lemma_scope_ok_extends(scope_model(earlier), entry, ledger@);
                    }
                }
            }
            i = i + 1;
        }
        SymbolScope { frames }
    }
}

} // verus!
