use leo_compiler::access::{find_text, index, member_access, tuple_access};
use leo_compiler::arithmetic::{
    arithmetic, at_least, constant_integer, constant_wire, equal_run, input_integer, input_wire,
    select_run, Arithmetic,
};
use leo_compiler::boolean::{
    allocate_bit, constant_bit, enforce_equal, enforce_true, gate, not, select, Gate,
};
use leo_compiler::calls::{enter, find_circuit, find_function, finish, instantiate, resolve_name};
use leo_compiler::constraints::{generate_constraints, generate_test_constraints, synthesize};
use leo_compiler::digest::checksum_of;
use leo_compiler::errors::{
    array_error, boolean_error, circuit_error, expression_error, function_error, integer_error,
    statement_error, ArrayError, BooleanError, CircuitError, CompilerError, ExpressionError,
    Fault, FunctionError, IntegerError, Reason, StatementError,
};
use leo_compiler::inputs::{allocate, is_supported, Input, InputValue, Inputs};
use leo_compiler::integer::{
    allocate_bits, append_bundle, decompose, power_of_two, read_bundle, IntegerType, Witness,
};
use leo_compiler::ledger::{ConstraintLedger, LinearCombination, Term, ONE};
use leo_compiler::operators::{
    binary, boolean_literal, comparison, field_literal, integer_literal, not_value, operate,
    resolve, resolve_like,
};
use leo_compiler::output::{push_type, push_value, write_registers, OutputBytes, Register};
use leo_compiler::program::{
    BinaryOperator, Circuit, CircuitMember, Expression, Function, Identifier, Parameter, Program,
    Span, Statement, Type,
};
use leo_compiler::scope::SymbolScope;
use leo_compiler::synthesizer::{
    block, bound, call, evaluate, execute, is_settled, is_uniform, MAX_CALL_DEPTH,
};
use leo_compiler::value::{
    duplicate_texts, equal_value, no_values, same_integer_type, same_texts, select_scalar,
    select_value, Scalar, Value,
};

const MODULUS: u64 = 18446744069414584321;

fn span() -> Span {
    Span { line: 3, start: 1, end: 2 }
}

fn id(name: &str) -> Identifier {
    Identifier { name: name.to_string(), span: span() }
}

fn text(value: &Value, ledger: &ConstraintLedger) -> String {
    let mut out = Vec::new();
    push_value(&mut out, value, ledger);
    String::from_utf8(out).unwrap()
}

fn u8_value(ledger: &mut ConstraintLedger, value: i128) -> Value {
    integer_literal(ledger, IntegerType::U8, value, span()).unwrap()
}

fn empty_program() -> Program {
    Program { name: "p".to_string(), imports: vec![], circuits: vec![], functions: vec![] }
}

// The ledger

#[test]
fn a_fresh_ledger_holds_the_constant_wire() {
    let ledger = ConstraintLedger::new();
    assert_eq!(ONE, 0);
    assert_eq!(ledger.num_variables(), 1);
    assert_eq!(ledger.num_constraints(), 0);
    assert_eq!(ledger.value(ONE), Some(1));
    assert_eq!(ledger.value(1), None);
    assert!(!ledger.is_violated());
    assert!(ledger.is_satisfied(MODULUS));
    assert!(ledger.is_satisfied(1));
    assert!(!ledger.is_satisfied(0));
}

#[test]
fn the_ledger_only_grows() {
    let mut ledger = ConstraintLedger::new();
    assert_eq!(ledger.allocate(Some(7)), 1);
    assert_eq!(ledger.allocate(None), 2);
    assert_eq!(ledger.allocate(Some(-3)), 3);
    assert_eq!(ledger.num_variables(), 4);
    assert_eq!(ledger.value(1), Some(7));
    assert_eq!(ledger.value(2), None);
    assert_eq!(ledger.value(3), Some(-3));
    ledger.enforce(LinearCombination::of(1, 1), LinearCombination::of(1, ONE), LinearCombination::of(7, ONE));
    assert_eq!(ledger.num_constraints(), 1);
    assert_eq!(ledger.value(1), Some(7));
    let k = ledger.constraint(0);
    assert_eq!(k.a.terms, vec![Term { coefficient: 1, variable: 1 }]);
    assert_eq!(k.b.terms, vec![Term { coefficient: 1, variable: ONE }]);
    assert_eq!(k.c.terms, vec![Term { coefficient: 7, variable: ONE }]);
    ledger.flag(false);
    assert!(!ledger.is_violated());
    ledger.flag(true);
    assert!(ledger.is_violated());
    ledger.flag(false);
    assert!(ledger.is_violated());
}

#[test]
fn linear_combinations_are_sums_of_terms() {
    assert!(LinearCombination::zero().terms.is_empty());
    assert_eq!(LinearCombination::of(5, 2).terms, vec![Term { coefficient: 5, variable: 2 }]);
    let mut sum = LinearCombination::of_two(1, 0, -1, 3);
    assert_eq!(
        sum.terms,
        vec![Term { coefficient: 1, variable: 0 }, Term { coefficient: -1, variable: 3 }]
    );
    sum.add_term(9, 4);
    assert_eq!(sum.terms.len(), 3);
    assert_eq!(sum.terms[2], Term { coefficient: 9, variable: 4 });
}

#[test]
fn satisfaction_is_read_modulo_the_modulus() {
    // 3 * 4 = 5 holds modulo 7 and nowhere else among these.
    let mut ledger = ConstraintLedger::new();
    let x = ledger.allocate(Some(3));
    let y = ledger.allocate(Some(4));
    let z = ledger.allocate(Some(5));
    ledger.enforce(LinearCombination::of(1, x), LinearCombination::of(1, y), LinearCombination::of(1, z));
    assert!(ledger.is_satisfied(7));
    assert!(ledger.is_satisfied(1));
    assert!(!ledger.is_satisfied(11));
    assert!(!ledger.is_satisfied(MODULUS));
    assert!(!ledger.is_satisfied(0));

    // Negative values and coefficients are read as their residues: (-2) * (x - 10) = 14.
    let mut ledger = ConstraintLedger::new();
    let x = ledger.allocate(Some(3));
    let m = ledger.allocate(Some(-2));
    ledger.enforce(
        LinearCombination::of(1, m),
        LinearCombination::of_two(1, x, -10, ONE),
        LinearCombination::of(14, ONE),
    );
    assert!(ledger.is_satisfied(MODULUS));
    assert!(ledger.is_satisfied(5));
    let mut wrong = ConstraintLedger::new();
    let x = wrong.allocate(Some(3));
    wrong.enforce(
        LinearCombination::of(-2, ONE),
        LinearCombination::of_two(1, x, -10, ONE),
        LinearCombination::of(15, ONE),
    );
    assert!(!wrong.is_satisfied(MODULUS));

    // A wire without a witness satisfies nothing.
    let mut open = ConstraintLedger::new();
    open.allocate(None);
    assert!(!open.is_satisfied(MODULUS));

    // The empty combination is zero: x * 0 = 0.
    let mut zero = ConstraintLedger::new();
    let x = zero.allocate(Some(i128::MIN));
    zero.enforce(LinearCombination::of(i128::MAX, x), LinearCombination::zero(), LinearCombination::zero());
    assert!(zero.is_satisfied(MODULUS));
}

// Boolean patterns

#[test]
fn boolean_wires_are_constrained_to_bits() {
    let mut ledger = ConstraintLedger::new();
    let t = allocate_bit(&mut ledger, Some(true));
    let f = allocate_bit(&mut ledger, Some(false));
    assert_eq!((t, f), (1, 2));
    assert_eq!(ledger.value(t), Some(1));
    assert_eq!(ledger.value(f), Some(0));
    assert_eq!(ledger.num_constraints(), 2);
    assert!(ledger.is_satisfied(MODULUS));
    let open = allocate_bit(&mut ledger, None);
    assert_eq!(ledger.value(open), None);
    assert_eq!(ledger.num_constraints(), 3);

    let mut ledger = ConstraintLedger::new();
    let c = constant_bit(&mut ledger, true);
    let d = constant_bit(&mut ledger, false);
    assert_eq!(ledger.value(c), Some(1));
    assert_eq!(ledger.value(d), Some(0));
    assert_eq!(ledger.num_constraints(), 2);
    assert!(ledger.is_satisfied(MODULUS));
}

#[test]
fn gates_follow_their_truth_tables() {
    for a in [false, true] {
        for b in [false, true] {
            let mut ledger = ConstraintLedger::new();
            let x = allocate_bit(&mut ledger, Some(a));
            let y = allocate_bit(&mut ledger, Some(b));
            let before = ledger.num_constraints();
            let and = gate(&mut ledger, Gate::And, x, y);
            let or = gate(&mut ledger, Gate::Or, x, y);
            let same = gate(&mut ledger, Gate::Same, x, y);
            let negated = not(&mut ledger, x);
            assert_eq!(ledger.num_constraints() - before, 4);
            assert_eq!(ledger.value(and), Some((a && b) as i128));
            assert_eq!(ledger.value(or), Some((a || b) as i128));
            assert_eq!(ledger.value(same), Some((a == b) as i128));
            assert_eq!(ledger.value(negated), Some(!a as i128));
            assert!(ledger.is_satisfied(MODULUS));
        }
    }
    // Without a witness the gates leave the same constraints and no values.
    let mut ledger = ConstraintLedger::new();
    let x = allocate_bit(&mut ledger, None);
    let y = allocate_bit(&mut ledger, Some(true));
    let and = gate(&mut ledger, Gate::And, x, y);
    assert_eq!(ledger.value(and), None);
    let negated = not(&mut ledger, x);
    assert_eq!(ledger.value(negated), None);
}

#[test]
fn selection_and_demands() {
    for c in [false, true] {
        let mut ledger = ConstraintLedger::new();
        let bit = allocate_bit(&mut ledger, Some(c));
        let x = ledger.allocate(Some(40));
        let y = ledger.allocate(Some(50));
        let chosen = select(&mut ledger, bit, x, y);
        assert_eq!(ledger.value(chosen), Some(if c { 40 } else { 50 }));
        assert!(ledger.is_satisfied(MODULUS));
        enforce_equal(&mut ledger, chosen, if c { x } else { y });
        assert!(ledger.is_satisfied(MODULUS));
        enforce_true(&mut ledger, bit);
        assert_eq!(ledger.is_satisfied(MODULUS), c);
        enforce_equal(&mut ledger, x, y);
        assert!(!ledger.is_satisfied(MODULUS));
    }
}

// Integer patterns

#[test]
fn integer_types() {
    let all = [
        (IntegerType::U8, 8, false, 256, 0),
        (IntegerType::U16, 16, false, 65536, 0),
        (IntegerType::U32, 32, false, 4294967296, 0),
        (IntegerType::U64, 64, false, 18446744073709551616, 0),
        (IntegerType::I8, 8, true, 256, -128),
        (IntegerType::I16, 16, true, 65536, -32768),
        (IntegerType::I32, 32, true, 4294967296, -2147483648),
        (IntegerType::I64, 64, true, 18446744073709551616, -9223372036854775808),
    ];
    for (ty, width, signed, size, base) in all {
        assert_eq!(ty.width(), width);
        assert_eq!(ty.signed(), signed);
        assert_eq!(ty.size(), size);
        assert_eq!(ty.base(), base);
        assert!(ty.holds(base));
        assert!(ty.holds(base + size - 1));
        assert!(!ty.holds(base - 1));
        assert!(!ty.holds(base + size));
        assert!(same_integer_type(ty, ty));
    }
    assert!(!same_integer_type(IntegerType::U8, IntegerType::I8));
    assert_eq!(power_of_two(0), 1);
    assert_eq!(power_of_two(10), 1024);
    assert_eq!(power_of_two(65), 36893488147419103232);
}

#[test]
fn bundles_stand_for_their_bits() {
    let mut ledger = ConstraintLedger::new();
    allocate_bits(&mut ledger, Some(0b1011), 4);
    assert_eq!(ledger.num_variables(), 5);
    assert_eq!(ledger.num_constraints(), 4);
    let bits: Vec<_> = (1..5).map(|w| ledger.value(w).unwrap()).collect();
    assert_eq!(bits, vec![1, 1, 0, 1]);
    assert_eq!(read_bundle(&ledger, 1, 4, 0), Some(11));
    assert_eq!(read_bundle(&ledger, 1, 4, -8), Some(3));
    assert_eq!(read_bundle(&ledger, 1, 3, 0), Some(3));
    assert_eq!(read_bundle(&ledger, 1, 0, -5), Some(-5));
    allocate_bits(&mut ledger, None, 2);
    assert_eq!(read_bundle(&ledger, 4, 2, 0), None);

    let mut combination = LinearCombination::of(1, 9);
    append_bundle(&mut combination, 2, 3, -4, false);
    append_bundle(&mut combination, 5, 2, -4, true);
    let terms: Vec<(i128, usize)> = combination.terms.iter().map(|t| (t.coefficient, t.variable)).collect();
    assert_eq!(
        terms,
        vec![(1, 9), (-4, ONE), (1, 2), (2, 3), (4, 4), (4, ONE), (-1, 5), (-2, 6)]
    );
}

#[test]
fn a_decomposition_splits_a_product_or_records_a_violation() {
    // 6 * 7 = 42 in seven bits over the base -64.
    let mut ledger = ConstraintLedger::new();
    let x = ledger.allocate(Some(6));
    let y = ledger.allocate(Some(7));
    let first = decompose(
        &mut ledger,
        LinearCombination::of(1, x),
        LinearCombination::of(1, y),
        Witness::Known(42),
        7,
        -64,
    );
    assert_eq!(first, 3);
    assert_eq!(ledger.num_variables(), 10);
    assert_eq!(ledger.num_constraints(), 8);
    assert_eq!(read_bundle(&ledger, first, 7, -64), Some(42));
    assert!(!ledger.is_violated());
    assert!(ledger.is_satisfied(MODULUS));

    for (x, factor, witness) in [
        (8, 8, Witness::Known(64)),
        (13, -5, Witness::Known(-65)),
        (i128::MAX, 2, Witness::Excess),
    ] {
        let mut ledger = ConstraintLedger::new();
        let x = ledger.allocate(Some(x));
        let first = decompose(
            &mut ledger,
            LinearCombination::of(1, x),
            LinearCombination::of(factor, ONE),
            witness,
            7,
            -64,
        );
        assert!(ledger.is_violated());
        assert_eq!(read_bundle(&ledger, first, 7, -64), Some(-64));
        assert!(!ledger.is_satisfied(MODULUS));
    }

    let mut ledger = ConstraintLedger::new();
    let x = ledger.allocate(None);
    let first = decompose(
        &mut ledger,
        LinearCombination::of(1, x),
        LinearCombination::of(1, ONE),
        Witness::Unknown,
        7,
        0,
    );
    assert_eq!(read_bundle(&ledger, first, 7, 0), None);
    assert!(!ledger.is_violated());
    assert_eq!(ledger.num_constraints(), 8);
}

#[test]
fn arithmetic_on_bundles() {
    let cases = [
        (Arithmetic::Add, IntegerType::U8, 100, 155, Some(255)),
        (Arithmetic::Add, IntegerType::U8, 100, 156, None),
        (Arithmetic::Sub, IntegerType::U8, 7, 7, Some(0)),
        (Arithmetic::Sub, IntegerType::U8, 7, 8, None),
        (Arithmetic::Mul, IntegerType::U8, 15, 17, Some(255)),
        (Arithmetic::Mul, IntegerType::U8, 16, 16, None),
        (Arithmetic::Add, IntegerType::I8, -128, 127, Some(-1)),
        (Arithmetic::Add, IntegerType::I8, -128, -1, None),
        (Arithmetic::Sub, IntegerType::I8, 127, -1, None),
        (Arithmetic::Mul, IntegerType::I8, -16, 8, Some(-128)),
        (Arithmetic::Mul, IntegerType::I8, -16, -8, None),
        (Arithmetic::Mul, IntegerType::U64, 4294967296, 4294967295, Some(18446744069414584320)),
        (Arithmetic::Mul, IntegerType::U64, 4294967296, 4294967296, None),
        (Arithmetic::Mul, IntegerType::U64, 18446744073709551615, 18446744073709551615, None),
        (Arithmetic::Mul, IntegerType::I64, -9223372036854775808, -9223372036854775808, None),
        (Arithmetic::Add, IntegerType::U64, 18446744073709551615, 0, Some(18446744073709551615)),
    ];
    for (op, ty, a, b, expected) in cases {
        let mut ledger = ConstraintLedger::new();
        let x = input_integer(&mut ledger, ty, Some(a));
        let y = constant_integer(&mut ledger, ty, b);
        assert_eq!(read_bundle(&ledger, x, ty.width(), ty.base()), Some(a));
        assert_eq!(read_bundle(&ledger, y, ty.width(), ty.base()), Some(b));
        let r = arithmetic(&mut ledger, op, x, y, ty);
        match expected {
            Some(value) => {
                assert_eq!(read_bundle(&ledger, r, ty.width(), ty.base()), Some(value));
                assert!(!ledger.is_violated());
                // The field of the tests is too small for the products of 64-bit integers.
                if ty.width() < 64 {
                    assert!(ledger.is_satisfied(MODULUS));
                }
            }
            None => {
                assert!(ledger.is_violated());
                if ty.width() < 64 {
                    assert!(!ledger.is_satisfied(MODULUS));
                }
            }
        }
    }
    // An input without a witness: the same wires and constraints, no value.
    let mut open = ConstraintLedger::new();
    let x = input_integer(&mut open, IntegerType::U8, None);
    let y = constant_integer(&mut open, IntegerType::U8, 1);
    let r = arithmetic(&mut open, Arithmetic::Add, x, y, IntegerType::U8);
    assert_eq!(read_bundle(&open, r, 8, 0), None);
    assert!(!open.is_violated());
    let mut closed = ConstraintLedger::new();
    let x = input_integer(&mut closed, IntegerType::U8, Some(1));
    let y = constant_integer(&mut closed, IntegerType::U8, 1);
    arithmetic(&mut closed, Arithmetic::Add, x, y, IntegerType::U8);
    assert_eq!(open.num_constraints(), closed.num_constraints());
    assert_eq!(open.num_variables(), closed.num_variables());
}

#[test]
fn comparison_of_bundles() {
    for ty in [IntegerType::U8, IntegerType::I8, IntegerType::U64, IntegerType::I64] {
        let low = ty.base();
        let high = ty.base() + ty.size() - 1;
        for (a, b) in [(low, low), (low, high), (high, low), (high, high), (low + 1, low), (high - 1, high)] {
            let mut ledger = ConstraintLedger::new();
            let x = input_integer(&mut ledger, ty, Some(a));
            let y = input_integer(&mut ledger, ty, Some(b));
            let w = at_least(&mut ledger, x, y, ty);
            assert_eq!(ledger.value(w), Some((a >= b) as i128));
            for (op, expected) in [
                (BinaryOperator::Ge, a >= b),
                (BinaryOperator::Gt, a > b),
                (BinaryOperator::Le, a <= b),
                (BinaryOperator::Lt, a < b),
                (BinaryOperator::Eq, a == b),
                (BinaryOperator::Ne, a != b),
            ] {
                let w = comparison(&mut ledger, op, x, y, ty);
                assert_eq!(ledger.value(w), Some(expected as i128));
            }
            assert!(!ledger.is_violated());
            assert!(ledger.is_satisfied(MODULUS));
        }
    }
}

#[test]
fn runs_of_wires() {
    let mut ledger = ConstraintLedger::new();
    let c = allocate_bit(&mut ledger, Some(false));
    let x = constant_wire(&mut ledger, 11);
    let _ = constant_wire(&mut ledger, 12);
    let y = input_wire(&mut ledger, Some(21));
    let _ = input_wire(&mut ledger, Some(22));
    assert_eq!(ledger.num_constraints(), 3);
    let r = select_run(&mut ledger, c, x, y, 2);
    assert_eq!((ledger.value(r), ledger.value(r + 1)), (Some(21), Some(22)));
    assert_eq!(ledger.num_constraints(), 5);
    equal_run(&mut ledger, r, y, 2);
    assert_eq!(ledger.num_constraints(), 7);
    assert!(ledger.is_satisfied(MODULUS));
    equal_run(&mut ledger, r, x, 2);
    assert!(!ledger.is_satisfied(MODULUS));
    assert_eq!(select_run(&mut ledger, c, x, y, 0), ledger.num_variables());
}

// Values and scopes

fn sample(ledger: &mut ConstraintLedger, flag: bool, number: i128) -> Value {
    Value::Circuit(
        "Pair".to_string(),
        vec!["flag".to_string(), "numbers".to_string()],
        vec![
            boolean_literal(ledger, flag),
            Value::Array(vec![u8_value(ledger, number), u8_value(ledger, number + 1)]),
        ],
    )
}

#[test]
fn values_are_copied_matched_and_compared() {
    let mut ledger = ConstraintLedger::new();
    let v = sample(&mut ledger, true, 4);
    let copy = v.duplicate();
    assert_eq!(format!("{:?}", v), format!("{:?}", copy));
    assert_eq!(text(&v, &ledger), "Pair { flag: true, numbers: [4, 5] }");

    assert!(v.matches(&Type::Circuit("Pair".to_string())));
    assert!(!v.matches(&Type::Circuit("Other".to_string())));
    assert!(!v.matches(&Type::Boolean));
    let numbers = Value::Array(vec![u8_value(&mut ledger, 1), u8_value(&mut ledger, 2)]);
    assert!(numbers.matches(&Type::Array(Box::new(Type::Integer(IntegerType::U8)), 2)));
    assert!(!numbers.matches(&Type::Array(Box::new(Type::Integer(IntegerType::U8)), 3)));
    assert!(!numbers.matches(&Type::Array(Box::new(Type::Integer(IntegerType::U16)), 2)));
    assert!(!numbers.matches(&Type::Tuple(vec![Type::Integer(IntegerType::U8), Type::Integer(IntegerType::U8)])));
    let pair = Value::Tuple(vec![u8_value(&mut ledger, 1), field_literal(&mut ledger, 2)]);
    assert!(pair.matches(&Type::Tuple(vec![Type::Integer(IntegerType::U8), Type::Field])));
    assert!(!pair.matches(&Type::Tuple(vec![Type::Field, Type::Integer(IntegerType::U8)])));
    assert!(!pair.matches(&Type::Tuple(vec![Type::Integer(IntegerType::U8)])));
    assert!(Value::Scalar(Scalar::Group { first: 0 }).matches(&Type::Group));
    assert!(!Value::Scalar(Scalar::Unresolved(1)).matches(&Type::Integer(IntegerType::U8)));
    assert!(!Value::Scalar(Scalar::Function(0)).matches(&Type::Boolean));

    let other = sample(&mut ledger, false, 9);
    assert!(v.fits(&other));
    assert!(!v.fits(&numbers));
    assert!(!numbers.fits(&pair));
    assert!(!Value::Scalar(Scalar::Unresolved(1)).fits(&Value::Scalar(Scalar::Unresolved(1))));
    assert!(Value::Scalar(Scalar::Function(2)).fits(&Value::Scalar(Scalar::Function(2))));
    assert!(!Value::Scalar(Scalar::Function(2)).fits(&Value::Scalar(Scalar::Function(3))));
    assert!(is_uniform(&vec![v.duplicate(), other.duplicate()]));
    assert!(!is_uniform(&vec![v.duplicate(), numbers.duplicate()]));
    assert!(is_uniform(&no_values()));
    assert!(is_settled(&vec![v.duplicate(), numbers.duplicate()]));
    assert!(!is_settled(&vec![Value::Tuple(vec![Value::Scalar(Scalar::Unresolved(1))])]));

    let names = vec!["a".to_string(), "b".to_string()];
    assert_eq!(duplicate_texts(&names), names);
    assert!(same_texts(&names, &duplicate_texts(&names)));
    assert!(!same_texts(&names, &vec!["a".to_string()]));
    assert!(!same_texts(&names, &vec!["a".to_string(), "c".to_string()]));
    assert_eq!(find_text(&names, &"b".to_string()), Some(1));
    assert_eq!(find_text(&names, &"c".to_string()), None);
    assert_eq!(find_text(&vec!["a".to_string(), "a".to_string()], &"a".to_string()), Some(1));
}

#[test]
fn values_are_selected_and_demanded_equal_scalar_by_scalar() {
    for c in [false, true] {
        let mut ledger = ConstraintLedger::new();
        let bit = allocate_bit(&mut ledger, Some(c));
        let a = sample(&mut ledger, true, 4);
        let b = sample(&mut ledger, false, 9);
        let before = ledger.num_constraints();
        let chosen = select_value(&mut ledger, bit, &a, &b);
        // One selection for the boolean and eight for each of the two integers.
        assert_eq!(ledger.num_constraints() - before, 17);
        let expected = if c { "Pair { flag: true, numbers: [4, 5] }" } else { "Pair { flag: false, numbers: [9, 10] }" };
        assert_eq!(text(&chosen, &ledger), expected);
        assert!(ledger.is_satisfied(MODULUS));

        let before = ledger.num_constraints();
        equal_value(&mut ledger, &chosen, if c { &a } else { &b });
        assert_eq!(ledger.num_constraints() - before, 17);
        assert!(ledger.is_satisfied(MODULUS));
        equal_value(&mut ledger, &chosen, if c { &b } else { &a });
        assert!(!ledger.is_satisfied(MODULUS));
    }
    // What both sides know at synthesis, the selection knows.
    let mut ledger = ConstraintLedger::new();
    let bit = allocate_bit(&mut ledger, None);
    let same = select_scalar(
        &mut ledger,
        bit,
        Scalar::Boolean { wire: ONE, constant: Some(true) },
        Scalar::Boolean { wire: ONE, constant: Some(true) },
    );
    assert_eq!(same, Scalar::Boolean { wire: 2, constant: Some(true) });
    let differ = select_scalar(
        &mut ledger,
        bit,
        Scalar::Field { wire: ONE, constant: Some(1) },
        Scalar::Field { wire: ONE, constant: Some(2) },
    );
    assert_eq!(differ, Scalar::Field { wire: 3, constant: None });
    let function = select_scalar(&mut ledger, bit, Scalar::Function(4), Scalar::Function(4));
    assert_eq!(function, Scalar::Function(4));
    assert_eq!(ledger.num_variables(), 4);
}

#[test]
fn a_scope_is_a_stack_of_frames() {
    let x = "x".to_string();
    let y = "y".to_string();
    let value = |n: i128| Value::Scalar(Scalar::Unresolved(n));
    let number = |v: Option<Value>| match v {
        Some(Value::Scalar(Scalar::Unresolved(n))) => Some(n),
        None => None,
        other => panic!("{:?}", other),
    };
    let mut scope = SymbolScope::new();
    assert_eq!(scope.depth(), 1);
    assert_eq!(number(scope.lookup(&x)), None);
    scope.define(x.clone(), value(1));
    scope.define(y.clone(), value(2));
    assert_eq!(scope.find(&x), Some((0, 0)));
    assert_eq!(scope.find(&y), Some((0, 1)));
    scope.push_frame();
    assert_eq!(scope.depth(), 2);
    assert_eq!(number(scope.lookup(&x)), Some(1));
    scope.define(x.clone(), value(10));
    scope.define(x.clone(), value(11));
    assert_eq!(scope.find(&x), Some((1, 1)));
    assert_eq!(number(scope.lookup(&x)), Some(11));
    assert!(scope.assign(&x, value(12)));
    assert!(scope.assign(&y, value(20)));
    assert!(!scope.assign(&"z".to_string(), value(0)));
    assert_eq!(number(scope.lookup(&x)), Some(12));
    let copy = scope.duplicate();
    assert_eq!(format!("{:?}", scope), format!("{:?}", copy));
    scope.pop_frame();
    assert_eq!(scope.depth(), 1);
    assert_eq!(number(scope.lookup(&x)), Some(1));
    assert_eq!(number(scope.lookup(&y)), Some(20));
    assert_eq!(number(copy.lookup(&x)), Some(12));
    scope.pop_frame();
    scope.pop_frame();
    assert_eq!(scope.depth(), 0);
    assert_eq!(scope.find(&x), None);
    scope.define(x.clone(), value(5));
    assert_eq!(scope.depth(), 1);
    assert_eq!(number(scope.lookup(&x)), Some(5));
}

#[test]
fn scopes_are_merged_binding_by_binding() {
    for c in [false, true] {
        let mut ledger = ConstraintLedger::new();
        let bit = allocate_bit(&mut ledger, Some(c));
        let mut first = SymbolScope::new();
        first.define("a".to_string(), u8_value(&mut ledger, 1));
        first.push_frame();
        first.define("b".to_string(), boolean_literal(&mut ledger, true));
        let mut second = SymbolScope::new();
        second.define("a".to_string(), u8_value(&mut ledger, 2));
        second.push_frame();
        second.define("b".to_string(), boolean_literal(&mut ledger, false));
        assert!(first.fits(&second));
        let merged = first.merge(&second, &mut ledger, bit);
        assert_eq!(merged.depth(), 2);
        let a = merged.lookup(&"a".to_string()).unwrap();
        let b = merged.lookup(&"b".to_string()).unwrap();
        assert_eq!(text(&a, &ledger), if c { "1" } else { "2" });
        assert_eq!(text(&b, &ledger), if c { "true" } else { "false" });
        assert!(ledger.is_satisfied(MODULUS));

        let mut other = SymbolScope::new();
        other.define("a".to_string(), u8_value(&mut ledger, 2));
        assert!(!first.fits(&other));
        other.push_frame();
        assert!(!first.fits(&other));
        other.define("c".to_string(), boolean_literal(&mut ledger, false));
        assert!(!first.fits(&other));
        let mut kinds = SymbolScope::new();
        kinds.define("a".to_string(), u8_value(&mut ledger, 2));
        kinds.push_frame();
        kinds.define("b".to_string(), u8_value(&mut ledger, 2));
        assert!(!first.fits(&kinds));
    }
}

// Operators on values

#[test]
fn literals_and_resolution() {
    let mut ledger = ConstraintLedger::new();
    let t = boolean_literal(&mut ledger, true);
    assert_eq!(format!("{:?}", t), "Scalar(Boolean { wire: 1, constant: Some(true) })");
    let n = integer_literal(&mut ledger, IntegerType::I16, -5, span()).unwrap();
    assert_eq!(format!("{:?}", n), "Scalar(Integer { ty: I16, first: 2, constant: Some(-5) })");
    assert_eq!(ledger.num_variables(), 18);
    assert_eq!(
        integer_literal(&mut ledger, IntegerType::I16, 40000, span()).unwrap_err(),
        integer_error(Reason::OutOfRange, span())
    );
    assert_eq!(ledger.num_variables(), 18);
    let f = field_literal(&mut ledger, 77);
    assert_eq!(format!("{:?}", f), "Scalar(Field { wire: 18, constant: Some(77) })");
    assert!(ledger.is_satisfied(MODULUS));

    let number = || Value::Scalar(Scalar::Unresolved(3));
    assert_eq!(text(&resolve(&mut ledger, number(), &Type::Integer(IntegerType::U8), span()).unwrap(), &ledger), "3");
    assert_eq!(text(&resolve(&mut ledger, number(), &Type::Field, span()).unwrap(), &ledger), "3");
    assert_eq!(
        resolve(&mut ledger, number(), &Type::Boolean, span()).unwrap_err(),
        expression_error(Reason::UnresolvedNumber, span())
    );
    assert_eq!(
        format!("{:?}", resolve(&mut ledger, t.duplicate(), &Type::Field, span()).unwrap()),
        format!("{:?}", t)
    );
    assert!(resolve_like(&mut ledger, number(), &n, span()).unwrap().matches(&Type::Integer(IntegerType::I16)));
    assert!(resolve_like(&mut ledger, number(), &f, span()).unwrap().matches(&Type::Field));
    assert_eq!(
        resolve_like(&mut ledger, number(), &t, span()).unwrap_err(),
        expression_error(Reason::UnresolvedNumber, span())
    );
    assert_eq!(bound(&number()), Some((3, None)));
    assert_eq!(bound(&n), Some((-5, Some(IntegerType::I16))));
    assert_eq!(bound(&t), None);
    let open = allocate(&mut ledger, &Type::Integer(IntegerType::U8), None);
    assert_eq!(bound(&open), None);
}

#[test]
fn operators_fold_constants_and_keep_witnesses() {
    let mut ledger = ConstraintLedger::new();
    let a = u8_value(&mut ledger, 6);
    let b = u8_value(&mut ledger, 7);
    let product = operate(&mut ledger, BinaryOperator::Mul, &a, &b, span()).unwrap();
    assert_eq!(bound(&product), Some((42, Some(IntegerType::U8))));
    assert_eq!(text(&product, &ledger), "42");
    let less = binary(&mut ledger, BinaryOperator::Lt, a.duplicate(), Value::Scalar(Scalar::Unresolved(7)), span()).unwrap();
    assert!(matches!(less, Value::Scalar(Scalar::Boolean { constant: Some(true), .. })));
    let negated = not_value(&mut ledger, &less, span()).unwrap();
    assert!(matches!(negated, Value::Scalar(Scalar::Boolean { constant: Some(false), .. })));
    assert_eq!(text(&negated, &ledger), "false");
    assert_eq!(not_value(&mut ledger, &a, span()).unwrap_err(), boolean_error(Reason::NotBoolean, span()));

    let input = allocate(&mut ledger, &Type::Integer(IntegerType::U8), Some(&InputValue::Integer(IntegerType::U8, 250)));
    let sum = operate(&mut ledger, BinaryOperator::Add, &input, &a, span()).unwrap();
    assert_eq!(bound(&sum), None);
    assert!(ledger.is_violated());
    assert!(ledger.num_constraints() > 0);
}

#[test]
fn the_constructors_of_errors() {
    let f = Fault { reason: Reason::NotArray, span: span() };
    assert_eq!(boolean_error(f.reason, f.span), ExpressionError::BooleanError(BooleanError::Error(f)));
    assert_eq!(integer_error(f.reason, f.span), ExpressionError::IntegerError(IntegerError::Error(f)));
    assert_eq!(array_error(f.reason, f.span), ExpressionError::ArrayError(ArrayError::Error(f)));
    assert_eq!(circuit_error(f.reason, f.span), ExpressionError::CircuitError(CircuitError::Error(f)));
    assert_eq!(expression_error(f.reason, f.span), ExpressionError::Error(f));
    assert_eq!(function_error(f.reason, f.span), ExpressionError::FunctionError(Box::new(FunctionError::Error(f))));
    assert_eq!(statement_error(f.reason, f.span), StatementError::Error(f));
}

#[test]
fn access_into_values() {
    let mut ledger = ConstraintLedger::new();
    let v = sample(&mut ledger, true, 4);
    let numbers = member_access(&v, &"numbers".to_string(), span()).unwrap();
    assert_eq!(text(&numbers, &ledger), "[4, 5]");
    assert_eq!(member_access(&v, &"none".to_string(), span()).unwrap_err(), circuit_error(Reason::UndefinedMember, span()));
    assert_eq!(member_access(&numbers, &"flag".to_string(), span()).unwrap_err(), circuit_error(Reason::NotCircuit, span()));
    let pair = Value::Tuple(vec![v.duplicate(), numbers.duplicate()]);
    assert_eq!(text(&tuple_access(&pair, 1, span()).unwrap(), &ledger), "[4, 5]");
    assert_eq!(tuple_access(&pair, 2, span()).unwrap_err(), expression_error(Reason::IndexOutOfBounds, span()));
    assert_eq!(tuple_access(&v, 0, span()).unwrap_err(), expression_error(Reason::NotTuple, span()));

    let place = u8_value(&mut ledger, 1);
    assert_eq!(text(&index(&mut ledger, &numbers, &place, span()).unwrap(), &ledger), "5");
    let signed = allocate(&mut ledger, &Type::Integer(IntegerType::I8), Some(&InputValue::Integer(IntegerType::I8, 1)));
    assert_eq!(index(&mut ledger, &numbers, &signed, span()).unwrap_err(), array_error(Reason::InvalidIndex, span()));
    let wire = allocate(&mut ledger, &Type::Integer(IntegerType::U8), Some(&InputValue::Integer(IntegerType::U8, 0)));
    assert_eq!(text(&index(&mut ledger, &numbers, &wire, span()).unwrap(), &ledger), "4");
    assert_eq!(index(&mut ledger, &Value::Array(no_values()), &wire, span()).unwrap_err(), array_error(Reason::EmptyArray, span()));
    let mixed = Value::Array(vec![place.duplicate(), boolean_literal(&mut ledger, true)]);
    assert_eq!(index(&mut ledger, &mixed, &wire, span()).unwrap_err(), array_error(Reason::IncompatibleTypes, span()));
    let mut long = no_values();
    for _ in 0..257 {
        long.push(boolean_literal(&mut ledger, true));
    }
    assert_eq!(index(&mut ledger, &Value::Array(long), &wire, span()).unwrap_err(), array_error(Reason::IndexOutOfBounds, span()));
    assert!(ledger.is_satisfied(MODULUS));
}

// Names and calls

fn library() -> Program {
    let u8t = || Type::Integer(IntegerType::U8);
    Program {
        name: "library".to_string(),
        imports: vec![],
        circuits: vec![Circuit {
            name: id("Pair"),
            members: vec![
                CircuitMember { name: id("left"), ty: u8t() },
                CircuitMember { name: id("right"), ty: Type::Field },
            ],
        }],
        functions: vec![
            Function {
                name: id("next"),
                parameters: vec![Parameter { name: id("x"), ty: u8t() }],
                output: Some(u8t()),
                body: vec![Statement::Return(
                    Expression::Binary(
                        BinaryOperator::Add,
                        Box::new(Expression::Identifier(id("x"))),
                        Box::new(Expression::Implicit(1, span())),
                        span(),
                    ),
                    span(),
                )],
                span: span(),
            },
            Function { name: id("nothing"), parameters: vec![], output: None, body: vec![], span: span() },
        ],
    }
}

#[test]
fn names_find_bindings_then_functions() {
    let p = library();
    assert_eq!(find_function(&p, &"next".to_string()), Some(0));
    assert_eq!(find_function(&p, &"nothing".to_string()), Some(1));
    assert_eq!(find_function(&p, &"Pair".to_string()), None);
    assert_eq!(find_circuit(&p, &"Pair".to_string()), Some(0));
    assert_eq!(find_circuit(&p, &"next".to_string()), None);

    let mut scope = SymbolScope::new();
    assert_eq!(format!("{:?}", resolve_name(&p, &scope, &id("nothing")).unwrap()), "Scalar(Function(1))");
    scope.define("nothing".to_string(), Value::Scalar(Scalar::Unresolved(0)));
    assert_eq!(format!("{:?}", resolve_name(&p, &scope, &id("nothing")).unwrap()), "Scalar(Unresolved(0))");
    assert_eq!(
        resolve_name(&p, &scope, &id("missing")).unwrap_err(),
        ExpressionError::UndefinedIdentifier(Fault { reason: Reason::UndefinedIdentifier, span: span() })
    );
}

#[test]
fn calls_enter_run_and_finish() {
    let p = library();
    let mut ledger = ConstraintLedger::new();
    let callee = Value::Scalar(Scalar::Function(0));
    let arguments = vec![Value::Scalar(Scalar::Unresolved(41))];
    let (entered, scope) = enter(&p, &mut ledger, &callee, &arguments, span()).unwrap();
    assert_eq!(entered, 0);
    assert_eq!(scope.depth(), 1);
    assert_eq!(text(&scope.lookup(&"x".to_string()).unwrap(), &ledger), "41");
    assert_eq!(
        enter(&p, &mut ledger, &Value::Scalar(Scalar::Function(2)), &arguments, span()).unwrap_err(),
        function_error(Reason::NotFunction, span())
    );

    let result = call(&p, &mut ledger, &callee, &arguments, MAX_CALL_DEPTH, span()).unwrap();
    assert_eq!(text(&result, &ledger), "42");
    let nothing = call(&p, &mut ledger, &Value::Scalar(Scalar::Function(1)), &no_values(), 0, span()).unwrap();
    assert_eq!(text(&nothing, &ledger), "()");

    let u8t = Some(Type::Integer(IntegerType::U8));
    let finished = finish(&mut ledger, &u8t, Some(Value::Scalar(Scalar::Unresolved(9))), span()).unwrap();
    assert_eq!(text(&finished, &ledger), "9");
    assert_eq!(finish(&mut ledger, &u8t, None, span()).unwrap_err(), function_error(Reason::MissingReturn, span()));
    assert_eq!(
        finish(&mut ledger, &None, Some(result.duplicate()), span()).unwrap_err(),
        function_error(Reason::ReturnMismatch, span())
    );
    assert_eq!(
        finish(&mut ledger, &Some(Type::Boolean), Some(result), span()).unwrap_err(),
        function_error(Reason::ReturnMismatch, span())
    );

    let members = vec![Value::Scalar(Scalar::Unresolved(1)), Value::Scalar(Scalar::Unresolved(2))];
    let pair = instantiate(
        &p,
        &mut ledger,
        &"Pair".to_string(),
        vec!["left".to_string(), "right".to_string()],
        &members,
        span(),
    )
    .unwrap();
    assert!(pair.matches(&Type::Circuit("Pair".to_string())));
    assert_eq!(text(&pair, &ledger), "Pair { left: 1, right: 2 }");
    assert!(ledger.is_satisfied(MODULUS));
}

#[test]
fn expressions_and_statements_are_synthesized_one_by_one() {
    let p = library();
    let mut ledger = ConstraintLedger::new();
    let mut scope = SymbolScope::new();
    let one = Expression::Integer(IntegerType::U8, 1, span());
    let defined = execute(&p, &mut scope, &mut ledger, &Statement::Definition(id("a"), None, one, span()), 1);
    assert!(matches!(defined, Ok(None)));
    let sum = Expression::Binary(
        BinaryOperator::Add,
        Box::new(Expression::Identifier(id("a"))),
        Box::new(Expression::Call(id("next"), vec![Expression::Identifier(id("a"))], span())),
        span(),
    );
    let value = evaluate(&p, &scope, &mut ledger, &sum, 1).unwrap();
    assert_eq!(text(&value, &ledger), "3");
    // Without depth left, no call is followed.
    assert_eq!(
        evaluate(&p, &scope, &mut ledger, &sum, 0).unwrap_err(),
        function_error(Reason::CallDepthExceeded, span())
    );

    let statements = vec![
        Statement::Assign(
            leo_compiler::program::Assignee { identifier: id("a"), accesses: vec![] },
            Expression::Implicit(5, span()),
            span(),
        ),
        Statement::Return(Expression::Identifier(id("a")), span()),
        Statement::Assert(Expression::Boolean(false, span()), span()),
    ];
    let before = ledger.num_constraints();
    let returned = block(&p, &mut scope, &mut ledger, &statements, 0, 1).unwrap().unwrap();
    assert_eq!(text(&returned, &ledger), "5");
    // The statement after the return was not synthesized.
    assert_eq!(ledger.num_constraints() - before, 9);
    assert!(ledger.is_satisfied(MODULUS));
    let skipped = block(&p, &mut scope, &mut ledger, &statements, 3, 1).unwrap();
    assert!(skipped.is_none());
    let failed = block(&p, &mut scope, &mut ledger, &statements, 2, 1).unwrap();
    assert!(failed.is_none());
    assert!(!ledger.is_satisfied(MODULUS));
}

// Inputs and outputs

#[test]
fn inputs_are_allocated_by_their_type() {
    let u8t = || Type::Integer(IntegerType::U8);
    assert!(InputValue::Boolean(true).fits(&Type::Boolean));
    assert!(!InputValue::Boolean(true).fits(&u8t()));
    assert!(InputValue::Integer(IntegerType::U8, 255).fits(&u8t()));
    assert!(!InputValue::Integer(IntegerType::U8, 256).fits(&u8t()));
    assert!(!InputValue::Integer(IntegerType::I8, 1).fits(&u8t()));
    assert!(InputValue::Field(-1).fits(&Type::Field));
    assert!(InputValue::Group(1, 2).fits(&Type::Group));
    assert!(!InputValue::Group(1, 2).fits(&Type::Field));
    let list = || InputValue::Array(vec![InputValue::Boolean(true), InputValue::Boolean(false)]);
    assert!(list().fits(&Type::Array(Box::new(Type::Boolean), 2)));
    assert!(!list().fits(&Type::Array(Box::new(Type::Boolean), 1)));
    assert!(!list().fits(&Type::Array(Box::new(Type::Field), 2)));
    assert!(!list().fits(&Type::Tuple(vec![Type::Boolean, Type::Boolean])));
    let pair = || InputValue::Tuple(vec![InputValue::Boolean(true), InputValue::Field(1)]);
    assert!(pair().fits(&Type::Tuple(vec![Type::Boolean, Type::Field])));
    assert!(!pair().fits(&Type::Tuple(vec![Type::Field, Type::Boolean])));
    assert!(!pair().fits(&Type::Tuple(vec![Type::Boolean])));
    assert!(!pair().fits(&Type::Circuit("Pair".to_string())));

    assert!(is_supported(&Type::Array(Box::new(Type::Tuple(vec![Type::Group, u8t()])), 3)));
    assert!(!is_supported(&Type::Circuit("Pair".to_string())));
    assert!(!is_supported(&Type::Array(Box::new(Type::Circuit("Pair".to_string())), 1)));
    assert!(!is_supported(&Type::Tuple(vec![Type::Boolean, Type::Circuit("Pair".to_string())])));

    let ty = Type::Tuple(vec![Type::Array(Box::new(Type::Boolean), 2), Type::Group, u8t()]);
    let value = InputValue::Tuple(vec![list(), InputValue::Group(5, 6), InputValue::Integer(IntegerType::U8, 9)]);
    let mut given = ConstraintLedger::new();
    let v = allocate(&mut given, &ty, Some(&value));
    assert!(v.matches(&ty));
    assert_eq!(text(&v, &given), "([true, false], (5, 6), 9)");
    assert!(given.is_satisfied(MODULUS));
    let mut open = ConstraintLedger::new();
    let v = allocate(&mut open, &ty, None);
    assert!(v.matches(&ty));
    assert_eq!(text(&v, &open), "([[allocated], [allocated]], ([allocated], [allocated]), [allocated])");
    assert_eq!(open.num_variables(), given.num_variables());
    assert_eq!(open.num_constraints(), given.num_constraints());
    // Two booleans and eight bits are constrained; the group element is not.
    assert_eq!(open.num_variables(), 1 + 2 + 2 + 8);
    assert_eq!(open.num_constraints(), 2 + 8);

    let inputs = Inputs::new();
    assert!(inputs.entries.is_empty() && inputs.registers.is_empty());
    let inputs = Inputs {
        entries: vec![
            Input { name: "a".to_string(), ty: u8t(), value: None },
            Input { name: "b".to_string(), ty: u8t(), value: None },
        ],
        registers: vec![],
    };
    assert_eq!(inputs.find(&"a".to_string()), Some(0));
    assert_eq!(inputs.find(&"b".to_string()), Some(1));
    assert_eq!(inputs.find(&"c".to_string()), None);
}

#[test]
fn types_and_registers_are_written_as_text() {
    let written = |ty: &Type| {
        let mut out = b"> ".to_vec();
        push_type(&mut out, ty);
        String::from_utf8(out).unwrap()
    };
    assert_eq!(written(&Type::Boolean), "> bool");
    assert_eq!(written(&Type::Field), "> field");
    assert_eq!(written(&Type::Group), "> group");
    assert_eq!(written(&Type::Circuit("Point".to_string())), "> Point");
    for (ty, name) in [
        (IntegerType::U8, "u8"),
        (IntegerType::U16, "u16"),
        (IntegerType::U32, "u32"),
        (IntegerType::U64, "u64"),
        (IntegerType::I8, "i8"),
        (IntegerType::I16, "i16"),
        (IntegerType::I32, "i32"),
        (IntegerType::I64, "i64"),
    ] {
        assert_eq!(written(&Type::Integer(ty)), format!("> {}", name));
    }
    assert_eq!(
        written(&Type::Array(Box::new(Type::Tuple(vec![Type::Boolean, Type::Integer(IntegerType::I8), Type::Tuple(vec![])])), 12)),
        "> [(bool, i8, ()); 12]"
    );

    let mut ledger = ConstraintLedger::new();
    let value = Value::Tuple(vec![u8_value(&mut ledger, 200), field_literal(&mut ledger, -7)]);
    let registers = vec![
        Register { name: "first".to_string(), ty: Type::Integer(IntegerType::U8) },
        Register { name: "second".to_string(), ty: Type::Field },
    ];
    let OutputBytes(bytes) = write_registers(&registers, &value, &ledger).unwrap();
    assert_eq!(String::from_utf8(bytes).unwrap(), "[registers]\nfirst: u8 = 200;\nsecond: field = -7;\n");
    let none = write_registers(&vec![], &value, &ledger).unwrap();
    assert_eq!(none.bytes().as_slice(), b"[registers]\n");
    assert!(write_registers(&registers[..1].iter().map(|r| Register { name: r.name.clone(), ty: Type::Field }).collect(), &value, &ledger).is_none());
    let swapped = vec![
        Register { name: "first".to_string(), ty: Type::Field },
        Register { name: "second".to_string(), ty: Type::Integer(IntegerType::U8) },
    ];
    assert!(write_registers(&swapped, &value, &ledger).is_none());
    assert!(write_registers(&registers, &u8_value(&mut ledger, 1), &ledger).is_none());
    assert_eq!(text(&Value::Scalar(Scalar::Function(3)), &ledger), "function");
    assert_eq!(text(&Value::Scalar(Scalar::Unresolved(-12)), &ledger), "-12");
}

#[test]
fn the_checksum_of_a_text() {
    assert_eq!(checksum_of(""), "e3b0c44298fc1c149afbf4c8996fb92427ae41e4649b934ca495991b7852b855");
    assert_eq!(
        checksum_of("The quick brown fox jumps over the lazy dog"),
        "d7a8fbb307d7809469ca9abcb0082e4f8d5651e46d3cdb762d02d0bf37c9e592"
    );
    // Text outside ASCII is hashed as its UTF-8 bytes.
    assert_eq!(
        checksum_of("é"),
        "4a99557e4033c3539de2eb65472017cad5f9557f7a0625a09f1c3f6e2ba69c4c"
    );
}

#[test]
fn the_driver_with_and_without_witness() {
    let p = Program {
        name: "p".to_string(),
        imports: vec![],
        circuits: vec![],
        functions: vec![Function {
            name: id("main"),
            parameters: vec![Parameter { name: id("x"), ty: Type::Integer(IntegerType::U8) }],
            output: Some(Type::Integer(IntegerType::U8)),
            body: vec![Statement::Return(Expression::Identifier(id("x")), span())],
            span: span(),
        }],
    };
    let inputs = Inputs {
        entries: vec![Input {
            name: "x".to_string(),
            ty: Type::Integer(IntegerType::U8),
            value: Some(InputValue::Integer(IntegerType::U8, 77)),
        }],
        registers: vec![Register { name: "out".to_string(), ty: Type::Integer(IntegerType::U8) }],
    };
    let mut ledger = ConstraintLedger::new();
    let sighted = synthesize(&mut ledger, &p, &inputs, true).unwrap();
    assert_eq!(sighted.bytes().as_slice(), b"[registers]\nout: u8 = 77;\n");
    let mut ledger = ConstraintLedger::new();
    let blind = synthesize(&mut ledger, &p, &inputs, false).unwrap();
    assert_eq!(blind.bytes().as_slice(), b"[registers]\nout: u8 = [allocated];\n");
    let mut ledger = ConstraintLedger::new();
    assert_eq!(generate_constraints(&mut ledger, &p, &inputs).unwrap().bytes().as_slice(), sighted.bytes().as_slice());
    let mut ledger = ConstraintLedger::new();
    assert_eq!(generate_test_constraints(&mut ledger, &p, &inputs), Ok(()));
    assert!(ledger.is_satisfied(MODULUS));
    let mut ledger = ConstraintLedger::new();
    let missing = generate_test_constraints(&mut ledger, &empty_program(), &inputs).unwrap_err();
    assert!(matches!(missing, CompilerError::FunctionError(FunctionError::Error(Fault { reason: Reason::MissingEntry, .. }))));
}

#[test]
fn a_ledger_is_well_formed_while_its_constraints_name_allocated_wires() {
    let mut ledger = ConstraintLedger::new();
    assert!(ledger.is_well_formed());
    let x = ledger.allocate(Some(3));
    let y = ledger.allocate(None);
    ledger.enforce(LinearCombination::of(1, x), LinearCombination::of(1, ONE), LinearCombination::of(1, y));
    assert!(ledger.is_well_formed());
    ledger.flag(true);
    assert!(ledger.is_well_formed());
    // A constraint on a wire that was never allocated.
    ledger.enforce(LinearCombination::zero(), LinearCombination::zero(), LinearCombination::of(1, y + 1));
    assert!(!ledger.is_well_formed());
    // Allocating the wire afterwards mends the ledger.
    ledger.allocate(Some(0));
    assert!(ledger.is_well_formed());

    let mut ledger = ConstraintLedger::new();
    ledger.enforce(LinearCombination::of(1, 1), LinearCombination::zero(), LinearCombination::zero());
    assert!(!ledger.is_well_formed());
    let mut ledger = ConstraintLedger::new();
    ledger.enforce(LinearCombination::zero(), LinearCombination::of_two(1, ONE, 1, 5), LinearCombination::zero());
    assert!(!ledger.is_well_formed());
}

#[test]
fn a_ledger_remembers_that_an_assertion_was_recorded() {
    let mut ledger = ConstraintLedger::new();
    assert!(!ledger.is_asserted());
    let x = ledger.allocate(Some(1));
    ledger.enforce(LinearCombination::of(1, x), LinearCombination::of(1, ONE), LinearCombination::of(1, ONE));
    ledger.flag(false);
    assert!(!ledger.is_asserted());
    ledger.mark(0);
    assert!(ledger.is_asserted());
    assert!(ledger.is_demand(0));
    assert!(!ledger.is_demand(1));
    ledger.allocate(None);
    ledger.flag(true);
    assert!(ledger.is_asserted());
    assert!(ledger.is_well_formed());
}
