//! The typed values that expressions evaluate to.
//!
//! A value does not hold its witness: it names the wires of the ledger that
//! carry it. What is known of a value when the circuit is built, because it
//! came from literals alone, is kept beside the wires as its constant. A value
//! is valid in a ledger where its wires are allocated there and the witness of
//! the wires, if they have one, is the constant.

use crate::arithmetic::{
    equal_run, equal_run_spec, lemma_selected_bundle, select_run, select_run_spec,
};
use crate::boolean::bit_of;
use crate::integer::{bundle_value, is_bundle, lemma_bundle_stable, IntegerType};
use crate::ledger::{lemma_follows_transitive, ConstraintLedger, LedgerModel};
use crate::program::{Type, TypeModel};
use vstd::prelude::*;

verus! {

/// A value that is not made of other values.
#[derive(Clone, Copy, Debug, PartialEq, Eq)]
pub enum Scalar {
    /// A boolean wire.
    Boolean { wire: usize, constant: Option<bool> },
    /// A bundle of boolean wires, as many as the type is wide.
    Integer { ty: IntegerType, first: usize, constant: Option<i128> },
    /// A wire that carries a field element.
    Field { wire: usize, constant: Option<i128> },
    /// Two wires that carry the coordinates of a group element.
    Group { first: usize },
    /// A function of the program, by its index.
    Function(usize),
    /// A number whose type is not yet known.
    Unresolved(i128),
}

/// A typed value.
#[derive(Debug)]
pub enum Value {
    Scalar(Scalar),
    Array(Vec<Value>),
    Tuple(Vec<Value>),
    /// An instance of the circuit named first, with the names and the values of its members.
    Circuit(String, Vec<String>, Vec<Value>),
}

/// The mathematical content of a [`Value`].
pub enum ValueModel {
    Scalar(Scalar),
    Array(Seq<ValueModel>),
    Tuple(Seq<ValueModel>),
    Circuit(Seq<char>, Seq<Seq<char>>, Seq<ValueModel>),
}

/// The value that stands for "no value": the empty tuple.
pub open spec fn unit() -> ValueModel {
    ValueModel::Tuple(Seq::empty())
}

/// The mathematical content of a value.
pub open spec fn value_model(value: Value) -> ValueModel
    decreases value,
{
    match value {
        Value::Scalar(s) => ValueModel::Scalar(s),
        Value::Array(v) => ValueModel::Array(
            Seq::new(
                v@.len(),
                |i: int|
                    if 0 <= i < v@.len() {
                        value_model(v@[i])
                    } else {
                        unit()
                    },
            ),
        ),
        Value::Tuple(v) => ValueModel::Tuple(
            Seq::new(
                v@.len(),
                |i: int|
                    if 0 <= i < v@.len() {
                        value_model(v@[i])
                    } else {
                        unit()
                    },
            ),
        ),
        Value::Circuit(name, names, v) => ValueModel::Circuit(
            name@,
            Seq::new(names@.len(), |i: int| names@[i]@),
            Seq::new(
                v@.len(),
                |i: int|
                    if 0 <= i < v@.len() {
                        value_model(v@[i])
                    } else {
                        unit()
                    },
            ),
        ),
    }
}

impl View for Value {
    type V = ValueModel;

    open spec fn view(&self) -> ValueModel {
        value_model(*self)
    }
}

/// The models of a sequence of values.
pub open spec fn models(values: Seq<Value>) -> Seq<ValueModel> {
    Seq::new(values.len(), |i: int| values[i]@)
}

/// The contents of a sequence of strings.
pub open spec fn texts(names: Seq<String>) -> Seq<Seq<char>> {
    Seq::new(names.len(), |i: int| names[i]@)
}

pub open spec fn option_model(value: Option<Value>) -> Option<ValueModel> {
    match value {
        Some(v) => Some(v@),
        None => None,
    }
}

pub proof fn lemma_view(value: &Value)
    ensures
        value matches Value::Array(v) ==> value@ == ValueModel::Array(models(v@)),
        value matches Value::Tuple(v) ==> value@ == ValueModel::Tuple(models(v@)),
        value matches Value::Circuit(name, names, v) ==> value@ == ValueModel::Circuit(
            name@,
            texts(names@),
            models(v@),
        ),
{
    match value {
        Value::Array(v) => {
            let inner = value@->Array_0;
            assert(inner.len() == v@.len());
            assert(forall|k: int| 0 <= k < v@.len() ==> inner[k] == v@[k]@);
            assert(inner =~= models(v@));
        },
        Value::Tuple(v) => {
            let inner = value@->Tuple_0;
            assert(inner.len() == v@.len());
            assert(forall|k: int| 0 <= k < v@.len() ==> inner[k] == v@[k]@);
            assert(inner =~= models(v@));
        },
        Value::Circuit(name, names, v) => {
            let inner = value@->Circuit_2;
            assert(inner.len() == v@.len());
            assert(forall|k: int| 0 <= k < v@.len() ==> inner[k] == v@[k]@);
            assert(value@->Circuit_1 =~= texts(names@));
            assert(inner =~= models(v@));
        },
        _ => {},
    }
}

/// The models of a sequence of types.
pub open spec fn type_models(types: Seq<Type>) -> Seq<TypeModel> {
    Seq::new(types.len(), |i: int| types[i]@)
}

pub proof fn lemma_type_view(ty: &Type)
    ensures
        ty matches Type::Tuple(v) ==> ty@ == TypeModel::Tuple(type_models(v@)),
        ty matches Type::Array(element, length) ==> ty@ == TypeModel::Array(
            Box::new((**element)@),
            *length,
        ),
{
    match ty {
        Type::Tuple(v) => {
            let inner = ty@->Tuple_0;
            assert(inner.len() == v@.len());
            assert(forall|k: int| 0 <= k < v@.len() ==> inner[k] == v@[k]@);
            assert(inner =~= type_models(v@));
        },
        _ => {},
    }
}

pub proof fn lemma_models_push(values: Seq<Value>, value: Value)
    ensures
        models(values.push(value)) == models(values).push(value@),
{
    assert(models(values.push(value)) =~= models(values).push(value@));
}

/// A witness agrees with what is known of a value at synthesis: where both
/// are there, they are the same.
pub open spec fn agrees(witness: Option<i128>, constant: Option<i128>) -> bool {
    match (witness, constant) {
        (Some(v), Some(c)) => v == c,
        _ => true,
    }
}

/// The wires that a scalar names are allocated, and boolean where its kind
/// demands it; and the witness of the wires agrees with the constant of the scalar.
pub open spec fn scalar_ok(scalar: Scalar, ledger: LedgerModel) -> bool {
    match scalar {
        Scalar::Boolean { wire, constant } => ledger.is_bit(wire) && agrees(
            ledger.value(wire),
            bit_of(constant),
        ),
        Scalar::Integer { ty, first, constant } => is_bundle(
            ledger,
            first,
            ty.spec_width() as nat,
        ) && agrees(
            bundle_value(ledger, first, ty.spec_width() as nat, ty.spec_base()),
            constant,
        ),
        Scalar::Field { wire, constant } => wire < ledger.values.len() && agrees(
            ledger.value(wire),
            constant,
        ),
        Scalar::Group { first } => first + 2 <= ledger.values.len(),
        Scalar::Function(_) => true,
        Scalar::Unresolved(_) => true,
    }
}

/// Every scalar of the value is backed by the ledger, and a circuit instance
/// has as many names as members.
pub open spec fn value_ok(value: ValueModel, ledger: LedgerModel) -> bool
    decreases value,
{
    match value {
        ValueModel::Scalar(s) => scalar_ok(s, ledger),
        ValueModel::Array(elements) => forall|i: int|
            0 <= i < elements.len() ==> value_ok(#[trigger] elements[i], ledger),
        ValueModel::Tuple(elements) => forall|i: int|
            0 <= i < elements.len() ==> value_ok(#[trigger] elements[i], ledger),
        ValueModel::Circuit(_, names, elements) => names.len() == elements.len() && forall|i: int|
            0 <= i < elements.len() ==> value_ok(#[trigger] elements[i], ledger),
    }
}

pub open spec fn values_ok(values: Seq<ValueModel>, ledger: LedgerModel) -> bool {
    forall|i: int| 0 <= i < values.len() ==> value_ok(#[trigger] values[i], ledger)
}

/// A value that one ledger backs is backed by every ledger that extends it.
pub proof fn lemma_value_ok_extends(value: ValueModel, before: LedgerModel, after: LedgerModel)
    requires
        before.wf(),
        value_ok(value, before),
        after.extends(before),
    ensures
        value_ok(value, after),
    decreases value,
{
    match value {
        ValueModel::Scalar(s) => {
            match s {
                Scalar::Integer { ty, first, .. } => {
                    assert forall|i: int| 0 <= i < ty.spec_width() implies #[trigger] after.is_bit(
                        (first + i) as usize,
                    ) by {
                        assert(before.is_bit((first + i) as usize));
                    }
                    lemma_bundle_stable(
                        before,
                        after,
                        first,
                        ty.spec_width() as nat,
                        ty.spec_base(),
                    );
                },
                _ => {},
            }
        },
        ValueModel::Array(elements) => {
            assert forall|i: int| 0 <= i < elements.len() implies value_ok(
                #[trigger] elements[i],
                after,
            ) by {
                lemma_value_ok_extends(elements[i], before, after);
            }
        },
        ValueModel::Tuple(elements) => {
            assert forall|i: int| 0 <= i < elements.len() implies value_ok(
                #[trigger] elements[i],
                after,
            ) by {
                lemma_value_ok_extends(elements[i], before, after);
            }
        },
        ValueModel::Circuit(_, _, elements) => {
            assert forall|i: int| 0 <= i < elements.len() implies value_ok(
                #[trigger] elements[i],
                after,
            ) by {
                lemma_value_ok_extends(elements[i], before, after);
            }
        },
    }
}

pub proof fn lemma_values_ok_extends(
    values: Seq<ValueModel>,
    before: LedgerModel,
    after: LedgerModel,
)
    requires
        before.wf(),
        values_ok(values, before),
        after.extends(before),
    ensures
        values_ok(values, after),
{
    assert forall|i: int| 0 <= i < values.len() implies value_ok(#[trigger] values[i], after) by {
        lemma_value_ok_extends(values[i], before, after);
    }
}

/// The number of wires of a scalar.
pub open spec fn scalar_run(scalar: Scalar) -> nat {
    match scalar {
        Scalar::Boolean { .. } => 1,
        Scalar::Integer { ty, .. } => ty.spec_width() as nat,
        Scalar::Field { .. } => 1,
        Scalar::Group { .. } => 2,
        _ => 0,
    }
}

/// The first wire of a scalar.
pub open spec fn scalar_first(scalar: Scalar) -> usize {
    match scalar {
        Scalar::Boolean { wire, .. } => wire,
        Scalar::Integer { first, .. } => first,
        Scalar::Field { wire, .. } => wire,
        Scalar::Group { first } => first,
        _ => 0,
    }
}

/// Two scalars are of one kind, so that one can stand where the other stood.
pub open spec fn scalars_compatible(a: Scalar, b: Scalar) -> bool {
    match (a, b) {
        (Scalar::Boolean { .. }, Scalar::Boolean { .. }) => true,
        (Scalar::Integer { ty: x, .. }, Scalar::Integer { ty: y, .. }) => x == y,
        (Scalar::Field { .. }, Scalar::Field { .. }) => true,
        (Scalar::Group { .. }, Scalar::Group { .. }) => true,
        (Scalar::Function(i), Scalar::Function(j)) => i == j,
        _ => false,
    }
}

/// Two values have the same shape: the same kinds of scalars in the same places.
pub open spec fn compatible(a: ValueModel, b: ValueModel) -> bool
    decreases a,
{
    match (a, b) {
        (ValueModel::Scalar(x), ValueModel::Scalar(y)) => scalars_compatible(x, y),
        (ValueModel::Array(x), ValueModel::Array(y)) => x.len() == y.len() && forall|i: int|
            0 <= i < x.len() ==> compatible(#[trigger] x[i], y[i]),
        (ValueModel::Tuple(x), ValueModel::Tuple(y)) => x.len() == y.len() && forall|i: int|
            0 <= i < x.len() ==> compatible(#[trigger] x[i], y[i]),
        (ValueModel::Circuit(n, names, x), ValueModel::Circuit(m, others, y)) => n == m && names
            == others && x.len() == y.len() && forall|i: int|
            0 <= i < x.len() ==> compatible(#[trigger] x[i], y[i]),
        _ => false,
    }
}

/// The constant of a selection: what both sides agree on.
pub open spec fn merged<T>(a: Option<T>, b: Option<T>) -> Option<T> {
    if a == b {
        a
    } else {
        None
    }
}

/// The scalar that a selection between two compatible scalars leaves, on
/// wires that start at `first`.
pub open spec fn selected_scalar(a: Scalar, b: Scalar, first: usize) -> Scalar {
    match (a, b) {
        (Scalar::Boolean { constant: x, .. }, Scalar::Boolean { constant: y, .. }) => {
            Scalar::Boolean { wire: first, constant: merged(x, y) }
        },
        (Scalar::Integer { ty, constant: x, .. }, Scalar::Integer { constant: y, .. }) => {
            Scalar::Integer { ty, first, constant: merged(x, y) }
        },
        (Scalar::Field { constant: x, .. }, Scalar::Field { constant: y, .. }) => Scalar::Field {
            wire: first,
            constant: merged(x, y),
        },
        (Scalar::Group { .. }, Scalar::Group { .. }) => Scalar::Group { first },
        _ => a,
    }
}

/// Selects between two compatible values, scalar by scalar: the result is `a`
/// where the boolean wire `c` is one and `b` where it is zero.
pub open spec fn select_value_spec(ledger: LedgerModel, c: usize, a: ValueModel, b: ValueModel) -> (
    ValueModel,
    LedgerModel,
)
    decreases a, 0nat,
{
    match (a, b) {
        (ValueModel::Scalar(x), ValueModel::Scalar(y)) => (
            ValueModel::Scalar(selected_scalar(x, y, ledger.next_wire())),
            select_run_spec(ledger, c, scalar_first(x), scalar_first(y), scalar_run(x)).0,
        ),
        (ValueModel::Array(x), ValueModel::Array(y)) => {
            let r = select_list_spec(ledger, c, x, y, 0, Seq::empty());
            (ValueModel::Array(r.0), r.1)
        },
        (ValueModel::Tuple(x), ValueModel::Tuple(y)) => {
            let r = select_list_spec(ledger, c, x, y, 0, Seq::empty());
            (ValueModel::Tuple(r.0), r.1)
        },
        (ValueModel::Circuit(name, names, x), ValueModel::Circuit(_, _, y)) => {
            let r = select_list_spec(ledger, c, x, y, 0, Seq::empty());
            (ValueModel::Circuit(name, names, r.0), r.1)
        },
        _ => (a, ledger),
    }
}

pub open spec fn select_list_spec(
    ledger: LedgerModel,
    c: usize,
    x: Seq<ValueModel>,
    y: Seq<ValueModel>,
    index: nat,
    done: Seq<ValueModel>,
) -> (Seq<ValueModel>, LedgerModel)
    decreases x, x.len() - index,
{
    if index < x.len() && index < y.len() {
        let head = select_value_spec(ledger, c, x[index as int], y[index as int]);
        select_list_spec(head.1, c, x, y, index + 1, done.push(head.0))
    } else {
        (done, ledger)
    }
}

/// Demands that two compatible values agree, wire by wire.
pub open spec fn equal_value_spec(ledger: LedgerModel, a: ValueModel, b: ValueModel) -> LedgerModel
    decreases a, 0nat,
{
    match (a, b) {
        (ValueModel::Scalar(x), ValueModel::Scalar(y)) => equal_run_spec(
            ledger,
            scalar_first(x),
            scalar_first(y),
            scalar_run(x),
        ),
        (ValueModel::Array(x), ValueModel::Array(y)) => equal_list_spec(ledger, x, y, 0),
        (ValueModel::Tuple(x), ValueModel::Tuple(y)) => equal_list_spec(ledger, x, y, 0),
        (ValueModel::Circuit(_, _, x), ValueModel::Circuit(_, _, y)) => equal_list_spec(
            ledger,
            x,
            y,
            0,
        ),
        _ => ledger,
    }
}

pub open spec fn equal_list_spec(
    ledger: LedgerModel,
    x: Seq<ValueModel>,
    y: Seq<ValueModel>,
    index: nat,
) -> LedgerModel
    decreases x, x.len() - index,
{
    if index < x.len() && index < y.len() {
        equal_list_spec(
            equal_value_spec(ledger, x[index as int], y[index as int]),
            x,
            y,
            index + 1,
        )
    } else {
        ledger
    }
}

/// Whether a value has a type. A number without a type has none, and neither has a function.
pub open spec fn value_matches(value: ValueModel, ty: TypeModel) -> bool
    decreases value,
{
    match (value, ty) {
        (ValueModel::Scalar(Scalar::Boolean { .. }), TypeModel::Boolean) => true,
        (ValueModel::Scalar(Scalar::Integer { ty: t, .. }), TypeModel::Integer(u)) => t == u,
        (ValueModel::Scalar(Scalar::Field { .. }), TypeModel::Field) => true,
        (ValueModel::Scalar(Scalar::Group { .. }), TypeModel::Group) => true,
        (ValueModel::Array(elements), TypeModel::Array(element, length)) => elements.len()
            == length && forall|i: int|
            0 <= i < elements.len() ==> value_matches(#[trigger] elements[i], *element),
        (ValueModel::Tuple(elements), TypeModel::Tuple(types)) => elements.len() == types.len()
            && forall|i: int|
            0 <= i < elements.len() ==> value_matches(#[trigger] elements[i], types[i]),
        (ValueModel::Circuit(name, _, _), TypeModel::Circuit(declared)) => name == declared,
        _ => false,
    }
}

fn same_text(a: &String, b: &String) -> (r: bool)
    ensures
        r == (a@ == b@),
{
    a.eq(b)
}

/// Whether two lists of names agree.
pub fn same_texts(a: &Vec<String>, b: &Vec<String>) -> (r: bool)
    ensures
        r == (texts(a@) == texts(b@)),
{
    if a.len() != b.len() {
        assert(texts(a@).len() != texts(b@).len());
        return false;
    }
    let mut i: usize = 0;
    while i < a.len()
        invariant
            i <= a.len(),
            a.len() == b.len(),
            forall|k: int| 0 <= k < i ==> a@[k]@ == b@[k]@,
        decreases a.len() - i,
    {
        if !same_text(&a[i], &b[i]) {
            assert(texts(a@)[i as int] != texts(b@)[i as int]);
            return false;
        }
        i = i + 1;
    }
    assert(texts(a@) =~= texts(b@));
    true
}

/// A copy of a list of names.
pub fn duplicate_texts(names: &Vec<String>) -> (r: Vec<String>)
    ensures
        texts(r@) == texts(names@),
{
    let mut r: Vec<String> = Vec::new();
    let mut i: usize = 0;
    while i < names.len()
        invariant
            i <= names.len(),
            r@.len() == i,
            forall|k: int| 0 <= k < i ==> r@[k]@ == names@[k]@,
        decreases names.len() - i,
    {
        r.push(names[i].clone());
        i = i + 1;
    }
    assert(texts(r@) =~= texts(names@));
    r
}

impl Value {
    /// A copy of the value.
    pub fn duplicate(&self) -> (r: Value)
        ensures
            r@ == self@,
        decreases self, 0nat,
    {
        proof {
            lemma_view(self);
        }
        match self {
            Value::Scalar(s) => Value::Scalar(*s),
            Value::Array(v) => {
                let r = Value::Array(duplicate_list(v, 0, Vec::new()));
                proof {
                    lemma_view(&r);
                }
                r
            },
            Value::Tuple(v) => {
                let r = Value::Tuple(duplicate_list(v, 0, Vec::new()));
                proof {
                    lemma_view(&r);
                }
                r
            },
            Value::Circuit(name, names, v) => {
                let r = Value::Circuit(
                    name.clone(),
                    duplicate_texts(names),
                    duplicate_list(v, 0, Vec::new()),
                );
                proof {
                    lemma_view(&r);
                }
                r
            },
        }
    }

    /// Whether the value has the type `ty`.
    pub fn matches(&self, ty: &Type) -> (r: bool)
        ensures
            r == value_matches(self@, ty@),
        decreases self, 0nat,
    {
        proof {
            lemma_view(self);
            lemma_type_view(ty);
        }
        match (self, ty) {
            (Value::Scalar(Scalar::Boolean { .. }), Type::Boolean) => true,
            (Value::Scalar(Scalar::Integer { ty: t, .. }), Type::Integer(u)) => same_integer_type(
                *t,
                *u,
            ),
            (Value::Scalar(Scalar::Field { .. }), Type::Field) => true,
            (Value::Scalar(Scalar::Group { .. }), Type::Group) => true,
            (Value::Array(elements), Type::Array(element, length)) => {
                let r = elements.len() == *length && all_match(elements, element, 0);
                proof {
                    let m = models(elements@);
                    if r {
                        assert forall|i: int| 0 <= i < m.len() implies value_matches(
                            #[trigger] m[i],
                            (**element)@,
                        ) by {
                            assert(m[i] == elements@[i]@);
                        }
                    } else if elements.len() == *length {
                        let i = choose|i: int|
                            0 <= i < elements.len() && !value_matches(
                                #[trigger] elements@[i]@,
                                (**element)@,
                            );
                        assert(m[i] == elements@[i]@);
                    }
                }
                r
            },
            (Value::Tuple(elements), Type::Tuple(types)) => {
                let r = elements.len() == types.len() && each_matches(elements, types, 0);
                proof {
                    let m = models(elements@);
                    let t = type_models(types@);
                    if r {
                        assert forall|i: int| 0 <= i < m.len() implies value_matches(
                            #[trigger] m[i],
                            t[i],
                        ) by {
                            assert(m[i] == elements@[i]@);
                        }
                    } else if elements.len() == types.len() {
                        let i = choose|i: int|
                            0 <= i < elements.len() && !value_matches(
                                #[trigger] elements@[i]@,
                                types@[i]@,
                            );
                        assert(m[i] == elements@[i]@);
                        assert(t[i] == types@[i]@);
                    }
                }
                r
            },
            (Value::Circuit(name, _, _), Type::Circuit(declared)) => same_text(name, declared),
            _ => false,
        }
    }

    /// Whether `other` can stand where `self` stood.
    pub fn fits(&self, other: &Value) -> (r: bool)
        ensures
            r == compatible(self@, other@),
        decreases self, 0nat,
    {
        proof {
            lemma_view(self);
            lemma_view(other);
        }
        match (self, other) {
            (Value::Scalar(x), Value::Scalar(y)) => match (x, y) {
                (Scalar::Boolean { .. }, Scalar::Boolean { .. }) => true,
                (Scalar::Integer { ty: t, .. }, Scalar::Integer { ty: u, .. }) => {
                    same_integer_type(*t, *u)
                },
                (Scalar::Field { .. }, Scalar::Field { .. }) => true,
                (Scalar::Group { .. }, Scalar::Group { .. }) => true,
                (Scalar::Function(i), Scalar::Function(j)) => *i == *j,
                _ => false,
            },
            (Value::Array(x), Value::Array(y)) => {
                let r = x.len() == y.len() && all_fit(x, y, 0);
                proof {
                    lemma_fit(x@, y@);
                }
                r
            },
            (Value::Tuple(x), Value::Tuple(y)) => {
                let r = x.len() == y.len() && all_fit(x, y, 0);
                proof {
                    lemma_fit(x@, y@);
                }
                r
            },
            (Value::Circuit(n, names, x), Value::Circuit(m, others, y)) => {
                let r = x.len() == y.len() && all_fit(x, y, 0);
                proof {
                    lemma_fit(x@, y@);
                }
                same_text(n, m) && same_texts(names, others) && r
            },
            _ => false,
        }
    }
}

/// Two lists of values are compatible element by element exactly if their models are.
proof fn lemma_fit(x: Seq<Value>, y: Seq<Value>)
    ensures
        (x.len() == y.len() && forall|i: int|
            0 <= i < x.len() ==> compatible(#[trigger] x[i]@, y[i]@)) == (models(x).len() == models(
            y,
        ).len() && forall|i: int|
            0 <= i < models(x).len() ==> compatible(#[trigger] models(x)[i], models(y)[i])),
{
    let a = models(x);
    let b = models(y);
    let left = x.len() == y.len() && forall|i: int|
        0 <= i < x.len() ==> compatible(#[trigger] x[i]@, y[i]@);
    let right = a.len() == b.len() && forall|i: int|
        0 <= i < a.len() ==> compatible(#[trigger] a[i], b[i]);
    if left {
        assert forall|i: int| 0 <= i < a.len() implies compatible(#[trigger] a[i], b[i]) by {
            assert(a[i] == x[i]@);
            assert(compatible(x[i]@, y[i]@));
        }
    }
    if right {
        assert forall|i: int| 0 <= i < x.len() implies compatible(#[trigger] x[i]@, y[i]@) by {
            assert(a[i] == x[i]@);
            assert(b[i] == y[i]@);
            assert(compatible(a[i], b[i]));
        }
    }
}

pub fn same_integer_type(a: IntegerType, b: IntegerType) -> (r: bool)
    ensures
        r == (a == b),
{
    a == b
}

fn duplicate_list(values: &Vec<Value>, index: usize, done: Vec<Value>) -> (r: Vec<Value>)
    requires
        index <= values.len(),
        done@.len() == index,
        forall|k: int| 0 <= k < index ==> done@[k]@ == values@[k]@,
    ensures
        models(r@) == models(values@),
    decreases values, values.len() - index,
{
    if index < values.len() {
        let mut done = done;
        done.push(values[index].duplicate());
        duplicate_list(values, index + 1, done)
    } else {
        assert(models(done@) =~= models(values@));
        done
    }
}

fn all_match(values: &Vec<Value>, ty: &Type, index: usize) -> (r: bool)
    requires
        index <= values.len(),
    ensures
        r == forall|i: int| index <= i < values.len() ==> value_matches(#[trigger] values@[i]@, ty@),
    decreases values, values.len() - index,
{
    if index < values.len() {
        if values[index].matches(ty) {
            all_match(values, ty, index + 1)
        } else {
            false
        }
    } else {
        true
    }
}

fn each_matches(values: &Vec<Value>, types: &Vec<Type>, index: usize) -> (r: bool)
    requires
        index <= values.len(),
        values.len() == types.len(),
    ensures
        r == forall|i: int|
            index <= i < values.len() ==> value_matches(#[trigger] values@[i]@, types@[i]@),
    decreases values, values.len() - index,
{
    if index < values.len() {
        if values[index].matches(&types[index]) {
            each_matches(values, types, index + 1)
        } else {
            false
        }
    } else {
        true
    }
}

fn all_fit(x: &Vec<Value>, y: &Vec<Value>, index: usize) -> (r: bool)
    requires
        index <= x.len(),
        x.len() == y.len(),
    ensures
        r == forall|i: int| index <= i < x.len() ==> compatible(#[trigger] x@[i]@, y@[i]@),
    decreases x, x.len() - index,
{
    if index < x.len() {
        if x[index].fits(&y[index]) {
            all_fit(x, y, index + 1)
        } else {
            false
        }
    } else {
        true
    }
}

/// An empty list of values.
pub fn no_values() -> (r: Vec<Value>)
    ensures
        r@.len() == 0,
        models(r@) == Seq::<ValueModel>::empty(),
{
    let r: Vec<Value> = Vec::new();
    assert(models(r@) =~= Seq::<ValueModel>::empty());
    r
}

fn merged_bool(a: Option<bool>, b: Option<bool>) -> (r: Option<bool>)
    ensures
        r == merged(a, b),
{
    match (a, b) {
        (Some(x), Some(y)) => if x == y {
            Some(x)
        } else {
            None
        },
        _ => None,
    }
}

fn merged_number(a: Option<i128>, b: Option<i128>) -> (r: Option<i128>)
    ensures
        r == merged(a, b),
{
    match (a, b) {
        (Some(x), Some(y)) => if x == y {
            Some(x)
        } else {
            None
        },
        _ => None,
    }
}

proof fn lemma_bit_is_bundle(ledger: LedgerModel, wire: usize)
    ensures
        ledger.is_bit(wire) == is_bundle(ledger, wire, 1),
{
    if ledger.is_bit(wire) {
        assert forall|i: int| 0 <= i < 1 implies #[trigger] ledger.is_bit((wire + i) as usize) by {}
    }
    if is_bundle(ledger, wire, 1) {
        assert(ledger.is_bit((wire + 0) as usize));
    }
}

/// Selects between two compatible scalars by the boolean wire `c`.
pub fn select_scalar(ledger: &mut ConstraintLedger, c: usize, a: Scalar, b: Scalar) -> (r: Scalar)
    requires
        old(ledger)@.wf(),
        old(ledger)@.is_bit(c),
        scalar_ok(a, old(ledger)@),
        scalar_ok(b, old(ledger)@),
        scalars_compatible(a, b),
    ensures
        r == selected_scalar(a, b, old(ledger)@.next_wire()),
        final(ledger)@ == select_run_spec(
            old(ledger)@,
            c,
            scalar_first(a),
            scalar_first(b),
            scalar_run(a),
        ).0,
        final(ledger)@.follows(old(ledger)@),
        final(ledger)@.wf(),
        scalar_ok(r, final(ledger)@),
{
    match (a, b) {
        (Scalar::Boolean { wire: x, constant: p }, Scalar::Boolean { wire: y, constant: q }) => {
            proof {
                lemma_bit_is_bundle(old(ledger)@, x);
                lemma_bit_is_bundle(old(ledger)@, y);
            }
            let first = select_run(ledger, c, x, y, 1);
            proof {
                lemma_bit_is_bundle(ledger@, first);
                assert(ledger@.values[first + 0] == crate::boolean::selection(
                    old(ledger)@.value(c),
                    old(ledger)@.value((x + 0) as usize),
                    old(ledger)@.value((y + 0) as usize),
                ));
            }
            Scalar::Boolean { wire: first, constant: merged_bool(p, q) }
        },
        (
            Scalar::Integer { ty, first: x, constant: p },
            Scalar::Integer { first: y, constant: q, .. },
        ) => {
            let first = select_run(ledger, c, x, y, ty.width());
            proof {
                lemma_selected_bundle(
                    old(ledger)@,
                    ledger@,
                    c,
                    x,
                    y,
                    first,
                    ty.spec_width() as nat,
                    ty.spec_base(),
                );
            }
            Scalar::Integer { ty, first, constant: merged_number(p, q) }
        },
        (Scalar::Field { wire: x, constant: p }, Scalar::Field { wire: y, constant: q }) => {
            let first = select_run(ledger, c, x, y, 1);
            proof {
                assert(ledger@.values[first + 0] == crate::boolean::selection(
                    old(ledger)@.value(c),
                    old(ledger)@.value((x + 0) as usize),
                    old(ledger)@.value((y + 0) as usize),
                ));
            }
            Scalar::Field { wire: first, constant: merged_number(p, q) }
        },
        (Scalar::Group { first: x }, Scalar::Group { first: y }) => {
            let first = select_run(ledger, c, x, y, 2);
            Scalar::Group { first }
        },
        _ => a,
    }
}

/// Selects between two compatible values by the boolean wire `c`: the result
/// is `a` where `c` is one and `b` where it is zero.
pub fn select_value(ledger: &mut ConstraintLedger, c: usize, a: &Value, b: &Value) -> (r: Value)
    requires
        old(ledger)@.wf(),
        old(ledger)@.is_bit(c),
        value_ok(a@, old(ledger)@),
        value_ok(b@, old(ledger)@),
        compatible(a@, b@),
    ensures
        (r@, final(ledger)@) == select_value_spec(old(ledger)@, c, a@, b@),
        final(ledger)@.follows(old(ledger)@),
        final(ledger)@.wf(),
        value_ok(r@, final(ledger)@),
    decreases a, 0nat,
{
    proof {
        lemma_view(a);
        lemma_view(b);
    }
    match (a, b) {
        (Value::Scalar(x), Value::Scalar(y)) => Value::Scalar(select_scalar(ledger, c, *x, *y)),
        (Value::Array(x), Value::Array(y)) => {
            proof {
                lemma_fit(x@, y@);
            }
            let r = Value::Array(select_list(ledger, c, x, y, 0, no_values()));
            proof {
                lemma_view(&r);
            }
            r
        },
        (Value::Tuple(x), Value::Tuple(y)) => {
            proof {
                lemma_fit(x@, y@);
            }
            let r = Value::Tuple(select_list(ledger, c, x, y, 0, no_values()));
            proof {
                lemma_view(&r);
            }
            r
        },
        (Value::Circuit(name, names, x), Value::Circuit(_, _, y)) => {
            proof {
                lemma_fit(x@, y@);
            }
            let members = select_list(ledger, c, x, y, 0, no_values());
            let r = Value::Circuit(name.clone(), duplicate_texts(names), members);
            proof {
                lemma_view(&r);
            }
            r
        },
        _ => a.duplicate(),
    }
}

fn select_list(
    ledger: &mut ConstraintLedger,
    c: usize,
    x: &Vec<Value>,
    y: &Vec<Value>,
    index: usize,
    done: Vec<Value>,
) -> (r: Vec<Value>)
    requires
        old(ledger)@.wf(),
        old(ledger)@.is_bit(c),
        index <= x.len(),
        x.len() == y.len(),
        values_ok(models(x@), old(ledger)@),
        values_ok(models(y@), old(ledger)@),
        values_ok(models(done@), old(ledger)@),
        done@.len() == index,
        forall|i: int| 0 <= i < x.len() ==> compatible(#[trigger] x@[i]@, y@[i]@),
    ensures
        (models(r@), final(ledger)@) == select_list_spec(
            old(ledger)@,
            c,
            models(x@),
            models(y@),
            index as nat,
            models(done@),
        ),
        final(ledger)@.follows(old(ledger)@),
        final(ledger)@.wf(),
        values_ok(models(r@), final(ledger)@),
        r@.len() == x@.len(),
    decreases x, x.len() - index,
{
    if index < x.len() {
        proof {
            assert(value_ok(models(x@)[index as int], old(ledger)@));
            assert(value_ok(models(y@)[index as int], old(ledger)@));
        }
        let head = select_value(ledger, c, &x[index], &y[index]);
        let ghost middle = ledger@;
        proof {
            lemma_values_ok_extends(models(x@), old(ledger)@, middle);
            lemma_values_ok_extends(models(y@), old(ledger)@, middle);
            lemma_values_ok_extends(models(done@), old(ledger)@, middle);
            lemma_models_push(done@, head);
        }
        let ghost earlier = done@;
        let mut done = done;
        done.push(head);
        proof {
            assert forall|i: int| 0 <= i < models(done@).len() implies value_ok(
                #[trigger] models(done@)[i],
                middle,
            ) by {
                if i < index {
                    assert(models(done@)[i] == models(earlier)[i]);
                }
            }
        }
        let r = select_list(ledger, c, x, y, index + 1, done);
        proof {
            lemma_follows_transitive(old(ledger)@, middle, ledger@);
        }
        r
    } else {
        done
    }
}

/// Records the demand that two compatible values agree.
pub fn equal_value(ledger: &mut ConstraintLedger, a: &Value, b: &Value)
    requires
        old(ledger)@.wf(),
        value_ok(a@, old(ledger)@),
        value_ok(b@, old(ledger)@),
        compatible(a@, b@),
    ensures
        final(ledger)@ == equal_value_spec(old(ledger)@, a@, b@),
        final(ledger)@.wf(),
        final(ledger)@.extends(old(ledger)@),
        final(ledger)@.values.len() == old(ledger)@.values.len(),
        old(ledger)@.complete() ==> final(ledger)@.complete(),
    decreases a, 0nat,
{
    proof {
        lemma_view(a);
        lemma_view(b);
    }
    match (a, b) {
        (Value::Scalar(x), Value::Scalar(y)) => {
            match (x, y) {
                (Scalar::Boolean { wire: p, .. }, Scalar::Boolean { wire: q, .. }) => {
                    equal_run(ledger, *p, *q, 1);
                },
                (Scalar::Integer { ty, first: p, .. }, Scalar::Integer { first: q, .. }) => {
                    equal_run(ledger, *p, *q, ty.width());
                },
                (Scalar::Field { wire: p, .. }, Scalar::Field { wire: q, .. }) => {
                    equal_run(ledger, *p, *q, 1);
                },
                (Scalar::Group { first: p }, Scalar::Group { first: q }) => {
                    equal_run(ledger, *p, *q, 2);
                },
                _ => {},
            }
        },
        (Value::Array(x), Value::Array(y)) => {
            proof {
                lemma_fit(x@, y@);
            }
            equal_list(ledger, x, y, 0);
        },
        (Value::Tuple(x), Value::Tuple(y)) => {
            proof {
                lemma_fit(x@, y@);
            }
            equal_list(ledger, x, y, 0);
        },
        (Value::Circuit(_, _, x), Value::Circuit(_, _, y)) => {
            proof {
                lemma_fit(x@, y@);
            }
            equal_list(ledger, x, y, 0);
        },
        _ => {},
    }
}

fn equal_list(ledger: &mut ConstraintLedger, x: &Vec<Value>, y: &Vec<Value>, index: usize)
    requires
        old(ledger)@.wf(),
        index <= x.len(),
        x.len() == y.len(),
        values_ok(models(x@), old(ledger)@),
        values_ok(models(y@), old(ledger)@),
        forall|i: int| 0 <= i < x.len() ==> compatible(#[trigger] x@[i]@, y@[i]@),
    ensures
        final(ledger)@ == equal_list_spec(old(ledger)@, models(x@), models(y@), index as nat),
        final(ledger)@.wf(),
        final(ledger)@.extends(old(ledger)@),
        final(ledger)@.values.len() == old(ledger)@.values.len(),
        old(ledger)@.complete() ==> final(ledger)@.complete(),
    decreases x, x.len() - index,
{
    if index < x.len() {
        proof {
            assert(value_ok(models(x@)[index as int], old(ledger)@));
            assert(value_ok(models(y@)[index as int], old(ledger)@));
        }
        equal_value(ledger, &x[index], &y[index]);
        proof {
            lemma_values_ok_extends(models(x@), old(ledger)@, ledger@);
            lemma_values_ok_extends(models(y@), old(ledger)@, ledger@);
        }
        equal_list(ledger, x, y, index + 1);
    }
}

} // verus!
