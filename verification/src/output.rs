//! The output registers of a program, written as text.
//!
//! The text starts with the line `[registers]` and has one line for each
//! register: `name: type = value;`. A value is read from the witness of the
//! ledger; a value whose wires have no witness is written as `[allocated]`.
//!
//! Every spec function here takes the text written so far and returns it
//! with its own part appended.

use crate::integer::{bundle_value, read_bundle, IntegerType};
use crate::ledger::{ConstraintLedger, LedgerModel};
use crate::program::Type;
use crate::value::{
    lemma_view, models, texts, value_matches, value_ok, values_ok, Scalar, Value, ValueModel,
};
use vstd::prelude::*;
use vstd::utf8::encode_utf8;

verus! {

/// A named, typed output slot that the inputs of a program declare.
#[derive(Debug)]
pub struct Register {
    pub name: String,
    pub ty: Type,
}

/// The output registers of a synthesized program, as the bytes of their text.
#[derive(Debug)]
pub struct OutputBytes(pub Vec<u8>);

impl View for OutputBytes {
    type V = Seq<u8>;

    open spec fn view(&self) -> Seq<u8> {
        self.0@
    }
}

impl OutputBytes {
    /// The bytes of the text.
    pub fn bytes(&self) -> (r: &Vec<u8>)
        ensures
            r@ == self@,
    {
        &self.0
    }
}

pub open spec fn text_spec(out: Seq<u8>, text: Seq<char>) -> Seq<u8> {
    out + encode_utf8(text)
}

/// The decimal digits of a natural number.
pub open spec fn digits_spec(out: Seq<u8>, n: nat) -> Seq<u8>
    decreases n,
{
    if n < 10 {
        out.push((48 + n) as u8)
    } else {
        digits_spec(out, n / 10).push((48 + n % 10) as u8)
    }
}

/// An integer in decimal, with a minus sign where it is negative.
pub open spec fn number_spec(out: Seq<u8>, n: int) -> Seq<u8> {
    if n < 0 {
        digits_spec(out.push(45u8), (-n) as nat)
    } else {
        digits_spec(out, n as nat)
    }
}

pub open spec fn integer_type_name(ty: IntegerType) -> Seq<char> {
    match ty {
        IntegerType::U8 => "u8"@,
        IntegerType::U16 => "u16"@,
        IntegerType::U32 => "u32"@,
        IntegerType::U64 => "u64"@,
        IntegerType::I8 => "i8"@,
        IntegerType::I16 => "i16"@,
        IntegerType::I32 => "i32"@,
        IntegerType::I64 => "i64"@,
    }
}

/// A type as the language writes it.
pub open spec fn type_spec(out: Seq<u8>, ty: Type) -> Seq<u8>
    decreases ty, 0nat,
{
    match ty {
        Type::Boolean => text_spec(out, "bool"@),
        Type::Integer(t) => text_spec(out, integer_type_name(t)),
        Type::Field => text_spec(out, "field"@),
        Type::Group => text_spec(out, "group"@),
        Type::Array(element, length) => text_spec(
            number_spec(text_spec(type_spec(text_spec(out, "["@), *element), "; "@), length as int),
            "]"@,
        ),
        Type::Tuple(elements) => text_spec(types_spec(text_spec(out, "("@), elements, 0), ")"@),
        Type::Circuit(name) => text_spec(out, name@),
    }
}

/// The types from `index` on, separated by commas.
pub open spec fn types_spec(out: Seq<u8>, types: Vec<Type>, index: nat) -> Seq<u8>
    decreases types, types@.len() - index,
{
    if index >= types@.len() {
        out
    } else {
        types_spec(
            type_spec(
                if index > 0 {
                    text_spec(out, ", "@)
                } else {
                    out
                },
                types@[index as int],
            ),
            types,
            index + 1,
        )
    }
}

/// The witness of a wire, or `[allocated]` for a wire without one.
pub open spec fn witness_spec(out: Seq<u8>, witness: Option<i128>) -> Seq<u8> {
    match witness {
        Some(n) => number_spec(out, n as int),
        None => text_spec(out, "[allocated]"@),
    }
}

pub open spec fn scalar_spec(out: Seq<u8>, scalar: Scalar, ledger: LedgerModel) -> Seq<u8> {
    match scalar {
        Scalar::Boolean { wire, .. } => match ledger.value(wire) {
            Some(v) => if v == 0 {
                text_spec(out, "false"@)
            } else {
                text_spec(out, "true"@)
            },
            None => text_spec(out, "[allocated]"@),
        },
        Scalar::Integer { ty, first, .. } => witness_spec(
            out,
            bundle_value(ledger, first, ty.spec_width() as nat, ty.spec_base()),
        ),
        Scalar::Field { wire, .. } => witness_spec(out, ledger.value(wire)),
        Scalar::Group { first } => text_spec(
            witness_spec(
                text_spec(witness_spec(text_spec(out, "("@), ledger.value(first)), ", "@),
                ledger.value((first + 1) as usize),
            ),
            ")"@,
        ),
        Scalar::Function(_) => text_spec(out, "function"@),
        Scalar::Unresolved(n) => number_spec(out, n as int),
    }
}

/// A value as the language writes it, read from the witness of the ledger.
pub open spec fn value_spec(out: Seq<u8>, value: ValueModel, ledger: LedgerModel) -> Seq<u8>
    decreases value, 0nat,
{
    match value {
        ValueModel::Scalar(s) => scalar_spec(out, s, ledger),
        ValueModel::Array(elements) => text_spec(
            values_spec(text_spec(out, "["@), elements, ledger, 0),
            "]"@,
        ),
        ValueModel::Tuple(elements) => text_spec(
            values_spec(text_spec(out, "("@), elements, ledger, 0),
            ")"@,
        ),
        ValueModel::Circuit(name, names, elements) => text_spec(
            members_text_spec(text_spec(text_spec(out, name), " { "@), names, elements, ledger, 0),
            " }"@,
        ),
    }
}

/// The values from `index` on, separated by commas.
pub open spec fn values_spec(
    out: Seq<u8>,
    values: Seq<ValueModel>,
    ledger: LedgerModel,
    index: nat,
) -> Seq<u8>
    decreases values, values.len() - index,
{
    if index >= values.len() {
        out
    } else {
        values_spec(
            value_spec(
                if index > 0 {
                    text_spec(out, ", "@)
                } else {
                    out
                },
                values[index as int],
                ledger,
            ),
            values,
            ledger,
            index + 1,
        )
    }
}

/// The members from `index` on, each as `name: value`, separated by commas.
pub open spec fn members_text_spec(
    out: Seq<u8>,
    names: Seq<Seq<char>>,
    values: Seq<ValueModel>,
    ledger: LedgerModel,
    index: nat,
) -> Seq<u8>
    decreases values, values.len() - index,
{
    if index >= values.len() || index >= names.len() {
        out
    } else {
        members_text_spec(
            value_spec(
                text_spec(
                    text_spec(
                        if index > 0 {
                            text_spec(out, ", "@)
                        } else {
                            out
                        },
                        names[index as int],
                    ),
                    ": "@,
                ),
                values[index as int],
                ledger,
            ),
            names,
            values,
            ledger,
            index + 1,
        )
    }
}

/// The line of one register: `name: type = value;`.
pub open spec fn register_spec(
    out: Seq<u8>,
    register: Register,
    value: ValueModel,
    ledger: LedgerModel,
) -> Seq<u8> {
    text_spec(
        value_spec(
            text_spec(type_spec(text_spec(text_spec(out, register.name@), ": "@), register.ty), " = "@),
            value,
            ledger,
        ),
        ";\n"@,
    )
}

/// The values that the registers receive from the value that the program
/// returned: nothing where there is no register, the value itself where there
/// is one, and the components of the tuple returned where there are more.
/// `None` where the value does not fit the registers.
pub open spec fn register_values(registers: Seq<Register>, value: ValueModel) -> Option<
    Seq<ValueModel>,
> {
    if registers.len() == 0 {
        Some(Seq::empty())
    } else if registers.len() == 1 {
        if value_matches(value, registers[0].ty@) {
            Some(seq![value])
        } else {
            None
        }
    } else {
        match value {
            ValueModel::Tuple(elements) => if elements.len() == registers.len() && forall|i: int|
                0 <= i < registers.len() ==> value_matches(
                    #[trigger] elements[i],
                    registers[i].ty@,
                ) {
                Some(elements)
            } else {
                None
            },
            _ => None,
        }
    }
}

/// The lines of the registers from `index` on.
pub open spec fn registers_spec(
    out: Seq<u8>,
    registers: Seq<Register>,
    values: Seq<ValueModel>,
    ledger: LedgerModel,
    index: nat,
) -> Seq<u8>
    decreases registers.len() - index,
{
    if index >= registers.len() || index >= values.len() {
        out
    } else {
        registers_spec(
            register_spec(out, registers[index as int], values[index as int], ledger),
            registers,
            values,
            ledger,
            index + 1,
        )
    }
}

/// The text of the output registers, or `None` where the value returned
/// does not fit them.
pub open spec fn output_spec(registers: Seq<Register>, value: ValueModel, ledger: LedgerModel) -> Option<
    Seq<u8>,
> {
    match register_values(registers, value) {
        Some(values) => Some(
            registers_spec(text_spec(Seq::empty(), "[registers]\n"@), registers, values, ledger, 0),
        ),
        None => None,
    }
}

fn push_text(out: &mut Vec<u8>, text: &str)
    ensures
        final(out)@ == text_spec(old(out)@, text@),
{
    let mut bytes = text.as_bytes_vec();
    out.append(&mut bytes);
}

fn push_digits(out: &mut Vec<u8>, n: u128)
    ensures
        final(out)@ == digits_spec(old(out)@, n as nat),
    decreases n,
{
    if n < 10 {
        out.push(48 + n as u8);
    } else {
        push_digits(out, n / 10);
        out.push(48 + (n % 10) as u8);
    }
}

fn push_number(out: &mut Vec<u8>, n: i128)
    ensures
        final(out)@ == number_spec(old(out)@, n as int),
{
    if n < 0 {
        out.push(45u8);
        let magnitude: u128 = (-(n + 1)) as u128 + 1;
        push_digits(out, magnitude);
    } else {
        push_digits(out, n as u128);
    }
}

fn push_witness(out: &mut Vec<u8>, witness: Option<i128>)
    ensures
        final(out)@ == witness_spec(old(out)@, witness),
{
    match witness {
        Some(n) => push_number(out, n),
        None => push_text(out, "[allocated]"),
    }
}

fn push_integer_type(out: &mut Vec<u8>, ty: IntegerType)
    ensures
        final(out)@ == text_spec(old(out)@, integer_type_name(ty)),
{
    match ty {
        IntegerType::U8 => push_text(out, "u8"),
        IntegerType::U16 => push_text(out, "u16"),
        IntegerType::U32 => push_text(out, "u32"),
        IntegerType::U64 => push_text(out, "u64"),
        IntegerType::I8 => push_text(out, "i8"),
        IntegerType::I16 => push_text(out, "i16"),
        IntegerType::I32 => push_text(out, "i32"),
        IntegerType::I64 => push_text(out, "i64"),
    }
}

/// Appends a type as the language writes it.
pub fn push_type(out: &mut Vec<u8>, ty: &Type)
    ensures
        final(out)@ == type_spec(old(out)@, *ty),
    decreases ty, 0nat,
{
    match ty {
        Type::Boolean => push_text(out, "bool"),
        Type::Integer(t) => push_integer_type(out, *t),
        Type::Field => push_text(out, "field"),
        Type::Group => push_text(out, "group"),
        Type::Array(element, length) => {
            push_text(out, "[");
            push_type(out, element);
            push_text(out, "; ");
            push_digits(out, *length as u128);
            push_text(out, "]");
        },
        Type::Tuple(elements) => {
            push_text(out, "(");
            push_types(out, elements, 0);
            push_text(out, ")");
        },
        Type::Circuit(name) => push_text(out, name.as_str()),
    }
}

fn push_types(out: &mut Vec<u8>, types: &Vec<Type>, index: usize)
    ensures
        final(out)@ == types_spec(old(out)@, *types, index as nat),
    decreases types, types@.len() - index,
{
    if index < types.len() {
        if index > 0 {
            push_text(out, ", ");
        }
        push_type(out, &types[index]);
        push_types(out, types, index + 1);
    }
}

fn push_scalar(out: &mut Vec<u8>, scalar: Scalar, ledger: &ConstraintLedger)
    requires
        ledger@.wf(),
        crate::value::scalar_ok(scalar, ledger@),
    ensures
        final(out)@ == scalar_spec(old(out)@, scalar, ledger@),
{
    match scalar {
        Scalar::Boolean { wire, .. } => match ledger.value(wire) {
            Some(v) => if v == 0 {
                push_text(out, "false")
            } else {
                push_text(out, "true")
            },
            None => push_text(out, "[allocated]"),
        },
        Scalar::Integer { ty, first, .. } => {
            let witness = read_bundle(ledger, first, ty.width(), ty.base());
            push_witness(out, witness);
        },
        Scalar::Field { wire, .. } => push_witness(out, ledger.value(wire)),
        Scalar::Group { first } => {
            push_text(out, "(");
            push_witness(out, ledger.value(first));
            push_text(out, ", ");
            push_witness(out, ledger.value(first + 1));
            push_text(out, ")");
        },
        Scalar::Function(_) => push_text(out, "function"),
        Scalar::Unresolved(n) => push_number(out, n),
    }
}

/// Appends a value as the language writes it, read from the witness of the ledger.
pub fn push_value(out: &mut Vec<u8>, value: &Value, ledger: &ConstraintLedger)
    requires
        ledger@.wf(),
        value_ok(value@, ledger@),
    ensures
        final(out)@ == value_spec(old(out)@, value@, ledger@),
    decreases value, 0nat,
{
    proof {
        lemma_view(value);
        crate::access::lemma_parts_ok(value@, ledger@);
    }
    match value {
        Value::Scalar(s) => push_scalar(out, *s, ledger),
        Value::Array(elements) => {
            push_text(out, "[");
            push_values(out, elements, ledger, 0);
            push_text(out, "]");
        },
        Value::Tuple(elements) => {
            push_text(out, "(");
            push_values(out, elements, ledger, 0);
            push_text(out, ")");
        },
        Value::Circuit(name, names, elements) => {
            push_text(out, name.as_str());
            push_text(out, " { ");
            push_members(out, names, elements, ledger, 0);
            push_text(out, " }");
        },
    }
}

fn push_values(out: &mut Vec<u8>, values: &Vec<Value>, ledger: &ConstraintLedger, index: usize)
    requires
        ledger@.wf(),
        values_ok(models(values@), ledger@),
    ensures
        final(out)@ == values_spec(old(out)@, models(values@), ledger@, index as nat),
    decreases values, values@.len() - index,
{
    if index < values.len() {
        if index > 0 {
            push_text(out, ", ");
        }
        assert(models(values@)[index as int] == values@[index as int]@);
        assert(value_ok(models(values@)[index as int], ledger@));
        push_value(out, &values[index], ledger);
        push_values(out, values, ledger, index + 1);
    }
}

fn push_members(
    out: &mut Vec<u8>,
    names: &Vec<String>,
    values: &Vec<Value>,
    ledger: &ConstraintLedger,
    index: usize,
)
    requires
        ledger@.wf(),
        values_ok(models(values@), ledger@),
    ensures
        final(out)@ == members_text_spec(
            old(out)@,
            texts(names@),
            models(values@),
            ledger@,
            index as nat,
        ),
    decreases values, values@.len() - index,
{
    if index < values.len() && index < names.len() {
        if index > 0 {
            push_text(out, ", ");
        }
        assert(texts(names@)[index as int] == names@[index as int]@);
        assert(models(values@)[index as int] == values@[index as int]@);
        assert(value_ok(models(values@)[index as int], ledger@));
        push_text(out, names[index].as_str());
        push_text(out, ": ");
        push_value(out, &values[index], ledger);
        push_members(out, names, values, ledger, index + 1);
    }
}

fn push_register(out: &mut Vec<u8>, register: &Register, value: &Value, ledger: &ConstraintLedger)
    requires
        ledger@.wf(),
        value_ok(value@, ledger@),
    ensures
        final(out)@ == register_spec(old(out)@, *register, value@, ledger@),
{
    push_text(out, register.name.as_str());
    push_text(out, ": ");
    push_type(out, &register.ty);
    push_text(out, " = ");
    push_value(out, value, ledger);
    push_text(out, ";\n");
}

fn all_match(values: &Vec<Value>, registers: &Vec<Register>) -> (r: bool)
    requires
        values.len() == registers.len(),
    ensures
        r == forall|i: int|
            0 <= i < registers@.len() ==> value_matches(
                #[trigger] models(values@)[i],
                registers@[i].ty@,
            ),
{
    let mut i: usize = 0;
    while i < values.len()
        invariant
            i <= values.len(),
            values.len() == registers.len(),
            forall|k: int|
                0 <= k < i ==> value_matches(#[trigger] models(values@)[k], registers@[k].ty@),
        decreases values.len() - i,
    {
        assert(models(values@)[i as int] == values@[i as int]@);
        if !values[i].matches(&registers[i].ty) {
            return false;
        }
        i = i + 1;
    }
    true
}

/// Writes the output registers for the value that the program returned.
/// Returns `None` where the value does not fit the registers.
pub fn write_registers(registers: &Vec<Register>, value: &Value, ledger: &ConstraintLedger) -> (r:
    Option<OutputBytes>)
    requires
        ledger@.wf(),
        value_ok(value@, ledger@),
    ensures
        match r {
            Some(bytes) => Some(bytes@),
            None => None,
        } == output_spec(registers@, value@, ledger@),
{
    let mut out: Vec<u8> = Vec::new();
    assert(out@ =~= Seq::<u8>::empty());
    push_text(&mut out, "[registers]\n");
    proof {
        lemma_view(value);
        crate::access::lemma_parts_ok(value@, ledger@);
        reveal_with_fuel(registers_spec, 3);
    }
    if registers.len() == 0 {
        Some(OutputBytes(out))
    } else if registers.len() == 1 {
        if value.matches(&registers[0].ty) {
            push_register(&mut out, &registers[0], value, ledger);
            assert(seq![value@][0] == value@);
            Some(OutputBytes(out))
        } else {
            None
        }
    } else {
        match value {
            Value::Tuple(elements) => {
                if elements.len() != registers.len() || !all_match(elements, registers) {
                    return None;
                }
                let ghost header = out@;
                let mut i: usize = 0;
                while i < registers.len()
                    invariant
                        i <= registers.len(),
                        elements.len() == registers.len(),
                        ledger@.wf(),
                        values_ok(models(elements@), ledger@),
                        registers_spec(header, registers@, models(elements@), ledger@, 0)
                            == registers_spec(
                            out@,
                            registers@,
                            models(elements@),
                            ledger@,
                            i as nat,
                        ),
                    decreases registers.len() - i,
                {
                    assert(models(elements@)[i as int] == elements@[i as int]@);
                    assert(value_ok(models(elements@)[i as int], ledger@));
                    push_register(&mut out, &registers[i], &elements[i], ledger);
                    i = i + 1;
                }
                Some(OutputBytes(out))
            },
            _ => None,
        }
    }
}

} // verus!
