//! The inputs of a program: the values given for the parameters of its entry
//! function, and the output registers it is to fill.
//!
//! An input without a value stands for a parameter that is left open: it gets
//! fresh wires without a witness. A boolean or an integer input is constrained
//! to its type even then; a field element or a group element is not
//! constrained at all.

use crate::arithmetic::{input_integer, input_integer_spec, input_wire};
use crate::boolean::{allocate_bit, allocate_bit_spec};
use crate::integer::IntegerType;
use crate::ledger::{ConstraintLedger, LedgerModel};
use crate::operators::{boolean_value, field_value, integer_value};
use crate::output::Register;
use crate::program::Type;
use crate::value::{
    lemma_models_push, lemma_values_ok_extends, lemma_view, models, no_values, same_integer_type,
    unit, value_matches, value_ok, values_ok, Scalar, Value, ValueModel,
};
use vstd::prelude::*;

verus! {

/// A value given for an input.
#[derive(Debug)]
pub enum InputValue {
    Boolean(bool),
    Integer(IntegerType, i128),
    Field(i128),
    /// The two coordinates of a group element.
    Group(i128, i128),
    Array(Vec<InputValue>),
    Tuple(Vec<InputValue>),
}

/// A declared input: its name, its type, and its value if one is given.
#[derive(Debug)]
pub struct Input {
    pub name: String,
    pub ty: Type,
    pub value: Option<InputValue>,
}

/// The inputs of one compilation.
#[derive(Debug)]
pub struct Inputs {
    pub entries: Vec<Input>,
    pub registers: Vec<Register>,
}

/// Whether an input value has a type.
pub open spec fn input_fits(value: InputValue, ty: Type) -> bool
    decreases value,
{
    match (value, ty) {
        (InputValue::Boolean(_), Type::Boolean) => true,
        (InputValue::Integer(t, n), Type::Integer(u)) => t == u && t.contains(n as int),
        (InputValue::Field(_), Type::Field) => true,
        (InputValue::Group(_, _), Type::Group) => true,
        (InputValue::Array(values), Type::Array(element, length)) => values@.len() == length
            && forall|i: int| 0 <= i < values@.len() ==> input_fits(#[trigger] values@[i], *element),
        (InputValue::Tuple(values), Type::Tuple(types)) => values@.len() == types@.len()
            && forall|i: int|
            0 <= i < values@.len() ==> input_fits(#[trigger] values@[i], types@[i]),
        _ => false,
    }
}

/// Whether wires can be allocated for an input of the type: the type names no circuit.
pub open spec fn supported(ty: Type) -> bool
    decreases ty,
{
    match ty {
        Type::Array(element, _) => supported(*element),
        Type::Tuple(types) => forall|i: int| 0 <= i < types@.len() ==> supported(#[trigger] types@[i]),
        Type::Circuit(_) => false,
        _ => true,
    }
}

pub open spec fn element_at(values: Option<Vec<InputValue>>, index: nat) -> Option<InputValue> {
    match values {
        Some(v) => if index < v@.len() {
            Some(v@[index as int])
        } else {
            None
        },
        None => None,
    }
}

pub open spec fn elements_of(value: Option<InputValue>) -> Option<Vec<InputValue>> {
    match value {
        Some(InputValue::Array(v)) => Some(v),
        Some(InputValue::Tuple(v)) => Some(v),
        _ => None,
    }
}

/// The value of an input of type `ty` on fresh wires, with the witness that
/// `value` gives or without one.
pub open spec fn allocate_spec(ledger: LedgerModel, ty: Type, value: Option<InputValue>) -> (
    ValueModel,
    LedgerModel,
)
    decreases ty, 0nat,
{
    match ty {
        Type::Boolean => {
            let g = allocate_bit_spec(
                ledger,
                match value {
                    Some(InputValue::Boolean(b)) => Some(b),
                    _ => None,
                },
            );
            (boolean_value(g.1, None), g.0)
        },
        Type::Integer(t) => {
            let g = input_integer_spec(
                ledger,
                t,
                match value {
                    Some(InputValue::Integer(_, n)) => Some(n),
                    _ => None,
                },
            );
            (integer_value(t, g.1, None), g.0)
        },
        Type::Field => (
            field_value(ledger.next_wire(), None),
            ledger.allocate(
                match value {
                    Some(InputValue::Field(n)) => Some(n),
                    _ => None,
                },
            ),
        ),
        Type::Group => (
            ValueModel::Scalar(Scalar::Group { first: ledger.next_wire() }),
            ledger.allocate(
                match value {
                    Some(InputValue::Group(x, _)) => Some(x),
                    _ => None,
                },
            ).allocate(
                match value {
                    Some(InputValue::Group(_, y)) => Some(y),
                    _ => None,
                },
            ),
        ),
        Type::Array(element, length) => {
            let r = allocate_array_spec(
                ledger,
                *element,
                elements_of(value),
                0,
                length as nat,
                Seq::empty(),
            );
            (ValueModel::Array(r.0), r.1)
        },
        Type::Tuple(types) => {
            let r = allocate_tuple_spec(ledger, types, elements_of(value), 0, Seq::empty());
            (ValueModel::Tuple(r.0), r.1)
        },
        Type::Circuit(_) => (unit(), ledger),
    }
}

pub open spec fn allocate_array_spec(
    ledger: LedgerModel,
    element: Type,
    values: Option<Vec<InputValue>>,
    index: nat,
    length: nat,
    done: Seq<ValueModel>,
) -> (Seq<ValueModel>, LedgerModel)
    decreases element, 1 + length - index,
{
    if index >= length {
        (done, ledger)
    } else {
        let r = allocate_spec(ledger, element, element_at(values, index));
        allocate_array_spec(r.1, element, values, index + 1, length, done.push(r.0))
    }
}

pub open spec fn allocate_tuple_spec(
    ledger: LedgerModel,
    types: Vec<Type>,
    values: Option<Vec<InputValue>>,
    index: nat,
    done: Seq<ValueModel>,
) -> (Seq<ValueModel>, LedgerModel)
    decreases types, 1 + types@.len() - index,
{
    if index >= types@.len() {
        (done, ledger)
    } else {
        let r = allocate_spec(ledger, types@[index as int], element_at(values, index));
        allocate_tuple_spec(r.1, types, values, index + 1, done.push(r.0))
    }
}

/// The position of the latest of the first `upto` inputs that has the name `name`.
pub open spec fn input_position(entries: Seq<Input>, name: Seq<char>, upto: nat) -> Option<nat>
    decreases upto,
{
    if upto == 0 || upto > entries.len() {
        None
    } else if entries[upto - 1].name@ == name {
        Some((upto - 1) as nat)
    } else {
        input_position(entries, name, (upto - 1) as nat)
    }
}

impl InputValue {
    /// Whether the value has the type `ty`.
    pub fn fits(&self, ty: &Type) -> (r: bool)
        ensures
            r == input_fits(*self, *ty),
        decreases self, 0nat,
    {
        match (self, ty) {
            (InputValue::Boolean(_), Type::Boolean) => true,
            (InputValue::Integer(t, n), Type::Integer(u)) => same_integer_type(*t, *u) && t.holds(
                *n,
            ),
            (InputValue::Field(_), Type::Field) => true,
            (InputValue::Group(_, _), Type::Group) => true,
            (InputValue::Array(values), Type::Array(element, length)) => {
                values.len() == *length && all_fit(values, element, 0)
            },
            (InputValue::Tuple(values), Type::Tuple(types)) => {
                values.len() == types.len() && each_fits(values, types, 0)
            },
            _ => false,
        }
    }
}

fn all_fit(values: &Vec<InputValue>, ty: &Type, index: usize) -> (r: bool)
    requires
        index <= values.len(),
    ensures
        r == forall|i: int| index <= i < values@.len() ==> input_fits(#[trigger] values@[i], *ty),
    decreases values, values@.len() - index,
{
    if index < values.len() {
        if values[index].fits(ty) {
            all_fit(values, ty, index + 1)
        } else {
            false
        }
    } else {
        true
    }
}

fn each_fits(values: &Vec<InputValue>, types: &Vec<Type>, index: usize) -> (r: bool)
    requires
        index <= values.len(),
        values.len() == types.len(),
    ensures
        r == forall|i: int|
            index <= i < values@.len() ==> input_fits(#[trigger] values@[i], types@[i]),
    decreases values, values@.len() - index,
{
    if index < values.len() {
        if values[index].fits(&types[index]) {
            each_fits(values, types, index + 1)
        } else {
            false
        }
    } else {
        true
    }
}

/// Whether wires can be allocated for an input of the type.
pub fn is_supported(ty: &Type) -> (r: bool)
    ensures
        r == supported(*ty),
    decreases ty, 0nat,
{
    match ty {
        Type::Array(element, _) => is_supported(element),
        Type::Tuple(types) => all_supported(types, 0),
        Type::Circuit(_) => false,
        _ => true,
    }
}

fn all_supported(types: &Vec<Type>, index: usize) -> (r: bool)
    requires
        index <= types.len(),
    ensures
        r == forall|i: int| index <= i < types@.len() ==> supported(#[trigger] types@[i]),
    decreases types, types@.len() - index,
{
    if index < types.len() {
        if is_supported(&types[index]) {
            all_supported(types, index + 1)
        } else {
            false
        }
    } else {
        true
    }
}

/// What an allocation of inputs guarantees of the ledger it leaves.
pub open spec fn allocation_holds(before: LedgerModel, after: LedgerModel, complete: bool) -> bool {
    &&& after.wf()
    &&& after.extends(before)
    &&& before.sound() ==> after.sound()
    &&& before.complete() && complete ==> after.complete()
    &&& after.asserted == before.asserted
}

fn element(values: Option<&Vec<InputValue>>, index: usize) -> (r: Option<&InputValue>)
    ensures
        copied(r) == element_at(copied_list(values), index as nat),
{
    match values {
        Some(v) => if index < v.len() {
            Some(&v[index])
        } else {
            None
        },
        None => None,
    }
}

pub open spec fn copied(value: Option<&InputValue>) -> Option<InputValue> {
    match value {
        Some(v) => Some(*v),
        None => None,
    }
}

pub open spec fn copied_list(value: Option<&Vec<InputValue>>) -> Option<Vec<InputValue>> {
    match value {
        Some(v) => Some(*v),
        None => None,
    }
}

fn elements(value: Option<&InputValue>) -> (r: Option<&Vec<InputValue>>)
    ensures
        copied_list(r) == elements_of(copied(value)),
{
    match value {
        Some(InputValue::Array(v)) => Some(v),
        Some(InputValue::Tuple(v)) => Some(v),
        _ => None,
    }
}

/// Allocates fresh wires for an input of type `ty`, with the witness that
/// `value` gives or without one.
pub fn allocate(ledger: &mut ConstraintLedger, ty: &Type, value: Option<&InputValue>) -> (r: Value)
    requires
        old(ledger)@.wf(),
        value matches Some(v) ==> input_fits(*v, *ty),
    ensures
        (r@, final(ledger)@) == allocate_spec(old(ledger)@, *ty, copied(value)),
        allocation_holds(old(ledger)@, final(ledger)@, value is Some),
        value_ok(r@, final(ledger)@),
        supported(*ty) ==> value_matches(r@, ty@),
    decreases ty, 0nat,
{
    match ty {
        Type::Boolean => {
            let witness = match value {
                Some(InputValue::Boolean(b)) => Some(*b),
                _ => None,
            };
            let wire = allocate_bit(ledger, witness);
            Value::Scalar(Scalar::Boolean { wire, constant: None })
        },
        Type::Integer(t) => {
            let witness = match value {
                Some(InputValue::Integer(_, n)) => Some(*n),
                _ => None,
            };
            let first = input_integer(ledger, *t, witness);
            Value::Scalar(Scalar::Integer { ty: *t, first, constant: None })
        },
        Type::Field => {
            let witness = match value {
                Some(InputValue::Field(n)) => Some(*n),
                _ => None,
            };
            let wire = input_wire(ledger, witness);
            Value::Scalar(Scalar::Field { wire, constant: None })
        },
        Type::Group => {
            let (x, y) = match value {
                Some(InputValue::Group(x, y)) => (Some(*x), Some(*y)),
                _ => (None, None),
            };
            let first = input_wire(ledger, x);
            let _ = input_wire(ledger, y);
            Value::Scalar(Scalar::Group { first })
        },
        Type::Array(element_type, length) => {
            let values = allocate_array(
                ledger,
                element_type,
                elements(value),
                0,
                *length,
                no_values(),
                Ghost(value is Some),
            );
            let r = Value::Array(values);
            proof {
                lemma_view(&r);
                crate::value::lemma_type_view(ty);
            }
            r
        },
        Type::Tuple(types) => {
            let values = allocate_tuple(
                ledger,
                types,
                elements(value),
                0,
                no_values(),
                Ghost(value is Some),
            );
            let r = Value::Tuple(values);
            proof {
                lemma_view(&r);
                crate::value::lemma_type_view(ty);
                assert(supported(*ty) ==> value_matches(r@, ty@)) by {
                    if supported(*ty) {
                        let t = crate::value::type_models(types@);
                        assert forall|i: int| 0 <= i < models(values@).len() implies value_matches(
                            #[trigger] models(values@)[i],
                            t[i],
                        ) by {
                            assert(supported(types@[i]));
                        }
                    }
                }
            }
            r
        },
        Type::Circuit(_) => {
            let r = Value::Tuple(no_values());
            proof {
                lemma_view(&r);
            }
            r
        },
    }
}

fn allocate_array(
    ledger: &mut ConstraintLedger,
    element_type: &Type,
    values: Option<&Vec<InputValue>>,
    index: usize,
    length: usize,
    done: Vec<Value>,
    Ghost(complete): Ghost<bool>,
) -> (r: Vec<Value>)
    requires
        old(ledger)@.wf(),
        values_ok(models(done@), old(ledger)@),
        done@.len() == index,
        index <= length,
        values matches Some(v) ==> v@.len() == length && forall|i: int|
            0 <= i < v@.len() ==> input_fits(#[trigger] v@[i], *element_type),
        complete ==> values is Some,
        supported(*element_type) ==> forall|i: int|
            0 <= i < index ==> value_matches(#[trigger] models(done@)[i], element_type@),
    ensures
        (models(r@), final(ledger)@) == allocate_array_spec(
            old(ledger)@,
            *element_type,
            copied_list(values),
            index as nat,
            length as nat,
            models(done@),
        ),
        allocation_holds(old(ledger)@, final(ledger)@, complete),
        values_ok(models(r@), final(ledger)@),
        r@.len() == length,
        supported(*element_type) ==> forall|i: int|
            0 <= i < length ==> value_matches(#[trigger] models(r@)[i], element_type@),
    decreases element_type, 1 + length - index,
{
    if index >= length {
        return done;
    }
    let v = allocate(ledger, element_type, element(values, index));
    let ghost middle = ledger@;
    let ghost earlier = done@;
    let mut done = done;
    proof {
        lemma_values_ok_extends(models(earlier), old(ledger)@, middle);
        lemma_models_push(earlier, v);
    }
    done.push(v);
    proof {
        assert forall|i: int| 0 <= i < models(done@).len() implies value_ok(
            #[trigger] models(done@)[i],
            middle,
        ) by {
            if i < index {
                assert(models(done@)[i] == models(earlier)[i]);
            }
        }
        if supported(*element_type) {
            assert forall|i: int| 0 <= i < index + 1 implies value_matches(
                #[trigger] models(done@)[i],
                element_type@,
            ) by {
                if i < index {
                    assert(models(done@)[i] == models(earlier)[i]);
                }
            }
        }
    }
    allocate_array(ledger, element_type, values, index + 1, length, done, Ghost(complete))
}

fn allocate_tuple(
    ledger: &mut ConstraintLedger,
    types: &Vec<Type>,
    values: Option<&Vec<InputValue>>,
    index: usize,
    done: Vec<Value>,
    Ghost(complete): Ghost<bool>,
) -> (r: Vec<Value>)
    requires
        old(ledger)@.wf(),
        values_ok(models(done@), old(ledger)@),
        done@.len() == index,
        index <= types.len(),
        values matches Some(v) ==> v@.len() == types@.len() && forall|i: int|
            0 <= i < v@.len() ==> input_fits(#[trigger] v@[i], types@[i]),
        complete ==> values is Some,
        forall|i: int|
            0 <= i < index && supported(types@[i]) ==> value_matches(
                #[trigger] models(done@)[i],
                types@[i]@,
            ),
    ensures
        (models(r@), final(ledger)@) == allocate_tuple_spec(
            old(ledger)@,
            *types,
            copied_list(values),
            index as nat,
            models(done@),
        ),
        allocation_holds(old(ledger)@, final(ledger)@, complete),
        values_ok(models(r@), final(ledger)@),
        r@.len() == types@.len(),
        forall|i: int|
            0 <= i < types@.len() && supported(types@[i]) ==> value_matches(
                #[trigger] models(r@)[i],
                types@[i]@,
            ),
    decreases types, 1 + types@.len() - index,
{
    if index >= types.len() {
        return done;
    }
    let v = allocate(ledger, &types[index], element(values, index));
    let ghost middle = ledger@;
    let ghost earlier = done@;
    let mut done = done;
    proof {
        lemma_values_ok_extends(models(earlier), old(ledger)@, middle);
        lemma_models_push(earlier, v);
    }
    done.push(v);
    proof {
        assert forall|i: int| 0 <= i < models(done@).len() implies value_ok(
            #[trigger] models(done@)[i],
            middle,
        ) by {
            if i < index {
                assert(models(done@)[i] == models(earlier)[i]);
            }
        }
        assert forall|i: int| 0 <= i < index + 1 && supported(types@[i]) implies value_matches(
            #[trigger] models(done@)[i],
            types@[i]@,
        ) by {
            if i < index {
                assert(models(done@)[i] == models(earlier)[i]);
            }
        }
    }
    allocate_tuple(ledger, types, values, index + 1, done, Ghost(complete))
}

impl Inputs {
    /// No inputs and no registers.
    pub fn new() -> (r: Inputs)
        ensures
            r.entries@.len() == 0,
            r.registers@.len() == 0,
    {
        Inputs { entries: Vec::new(), registers: Vec::new() }
    }

    /// The position of the input named `name`.
    pub fn find(&self, name: &String) -> (r: Option<usize>)
        ensures
            r matches Some(i) ==> input_position(self.entries@, name@, self.entries@.len())
                == Some(i as nat) && i < self.entries@.len(),
            r is None ==> input_position(self.entries@, name@, self.entries@.len()) is None,
    {
        let mut upto = self.entries.len();
        while upto > 0
            invariant
                upto <= self.entries.len(),
                input_position(self.entries@, name@, self.entries@.len()) == input_position(
                    self.entries@,
                    name@,
                    upto as nat,
                ),
            decreases upto,
        {
            if self.entries[upto - 1].name.eq(name) {
                return Some(upto - 1);
            }
            upto = upto - 1;
        }
        None
    }
}

} // verus!
