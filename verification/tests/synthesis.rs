use leo_compiler::compiler::Compiler;
use leo_compiler::errors::{
    ArrayError, BooleanError, CircuitError, CompilerError, ExpressionError, Fault, FunctionError,
    IntegerError, Reason, StatementError, SynthesisError,
};
use leo_compiler::inputs::{Input, InputValue, Inputs};
use leo_compiler::integer::IntegerType;
use leo_compiler::ledger::ConstraintLedger;
use leo_compiler::output::Register;
use leo_compiler::program::{
    Access, Assignee, BinaryOperator, Circuit, CircuitMember, CircuitVariable, Expression,
    Function, Identifier, Import, Node, Parameter, Program, Span, Statement, Type,
};
use std::path::PathBuf;

const MODULUS: u64 = 18446744069414584321;

fn span() -> Span {
    Span { line: 1, start: 1, end: 1 }
}

fn at(line: u32) -> Span {
    Span { line, start: 0, end: 0 }
}

fn id(name: &str) -> Identifier {
    Identifier { name: name.to_string(), span: span() }
}

fn var(name: &str) -> Expression {
    Expression::Identifier(id(name))
}

fn boolean(value: bool) -> Expression {
    Expression::Boolean(value, span())
}

fn u8v(value: i128) -> Expression {
    Expression::Integer(IntegerType::U8, value, span())
}

fn u32v(value: i128) -> Expression {
    Expression::Integer(IntegerType::U32, value, span())
}

fn i8v(value: i128) -> Expression {
    Expression::Integer(IntegerType::I8, value, span())
}

fn number(value: i128) -> Expression {
    Expression::Implicit(value, span())
}

fn binary(op: BinaryOperator, left: Expression, right: Expression) -> Expression {
    Expression::Binary(op, Box::new(left), Box::new(right), span())
}

fn add(left: Expression, right: Expression) -> Expression {
    binary(BinaryOperator::Add, left, right)
}

fn call(name: &str, arguments: Vec<Expression>) -> Expression {
    Expression::Call(id(name), arguments, span())
}

fn array(elements: Vec<Expression>) -> Expression {
    Expression::Array(elements, span())
}

fn index(array: Expression, place: Expression) -> Expression {
    Expression::ArrayAccess(Box::new(array), Box::new(place), span())
}

fn ret(value: Expression) -> Statement {
    Statement::Return(value, span())
}

fn declare(name: &str, value: Expression) -> Statement {
    Statement::Definition(id(name), None, value, span())
}

fn declare_as(name: &str, ty: Type, value: Expression) -> Statement {
    Statement::Definition(id(name), Some(ty), value, span())
}

fn assign(name: &str, value: Expression) -> Statement {
    Statement::Assign(Assignee { identifier: id(name), accesses: vec![] }, value, span())
}

fn assert_eq_stmt(left: Expression, right: Expression) -> Statement {
    Statement::AssertEq(left, right, span())
}

fn u8t() -> Type {
    Type::Integer(IntegerType::U8)
}

fn param(name: &str, ty: Type) -> Parameter {
    Parameter { name: id(name), ty }
}

fn function(name: &str, parameters: Vec<Parameter>, output: Option<Type>, body: Vec<Statement>) -> Function {
    Function { name: id(name), parameters, output, body, span: at(7) }
}

fn program(functions: Vec<Function>) -> Program {
    Program { name: "test".to_string(), imports: vec![], circuits: vec![], functions }
}

fn main_only(parameters: Vec<Parameter>, output: Option<Type>, body: Vec<Statement>) -> Program {
    program(vec![function("main", parameters, output, body)])
}

fn input(name: &str, ty: Type, value: InputValue) -> Input {
    Input { name: name.to_string(), ty, value: Some(value) }
}

fn inputs(entries: Vec<Input>, registers: Vec<Register>) -> Inputs {
    Inputs { entries, registers }
}

fn register(name: &str, ty: Type) -> Register {
    Register { name: name.to_string(), ty }
}

fn compiler(program: Program, given: Inputs) -> Compiler {
    Compiler::parse_program_with_inputs(
        "test".to_string(),
        PathBuf::new(),
        PathBuf::new(),
        given,
        inputs(vec![], vec![]),
        program,
        vec![],
    )
    .unwrap()
}

/// Synthesizes with the inputs and returns the text of the registers and the ledger.
fn run(program: Program, given: Inputs) -> (Result<String, CompilerError>, ConstraintLedger) {
    let mut ledger = ConstraintLedger::new();
    let result = compiler(program, given)
        .generate_constraints_helper(&mut ledger)
        .map(|bytes| String::from_utf8(bytes.bytes().clone()).unwrap());
    (result, ledger)
}

/// Synthesizes a program of one function without parameters that returns `value`
/// into one register `r` of type `ty`, and returns the text of the register.
fn value_of(ty: Type, value: Expression) -> Result<String, CompilerError> {
    value_in(vec![], ty, value)
}

fn value_in(circuits: Vec<Circuit>, ty: Type, value: Expression) -> Result<String, CompilerError> {
    let output = copy_type(&ty);
    let mut p = main_only(vec![], Some(output), vec![ret(value)]);
    p.circuits = circuits;
    let (result, ledger) = run(p, inputs(vec![], vec![register("r", ty)]));
    if result.is_ok() {
        assert!(ledger.is_satisfied(MODULUS));
    }
    result.map(|text| {
        let line = text.strip_prefix("[registers]\nr: ").unwrap();
        let value = &line[line.find(" = ").unwrap() + 3..];
        value.strip_suffix(";\n").unwrap().to_string()
    })
}

fn copy_type(ty: &Type) -> Type {
    match ty {
        Type::Boolean => Type::Boolean,
        Type::Integer(t) => Type::Integer(*t),
        Type::Field => Type::Field,
        Type::Group => Type::Group,
        Type::Array(element, length) => Type::Array(Box::new(copy_type(element)), *length),
        Type::Tuple(elements) => Type::Tuple(elements.iter().map(copy_type).collect()),
        Type::Circuit(name) => Type::Circuit(name.clone()),
    }
}

fn expression_error(result: Result<String, CompilerError>) -> ExpressionError {
    match result.unwrap_err() {
        CompilerError::FunctionError(FunctionError::StatementError(
            StatementError::ExpressionError(e),
        )) => e,
        other => panic!("expected an expression error, got {:?}", other),
    }
}

fn statement_reason(result: Result<String, CompilerError>) -> Reason {
    match result.unwrap_err() {
        CompilerError::FunctionError(FunctionError::StatementError(StatementError::Error(f))) => {
            f.reason
        }
        other => panic!("expected a statement error, got {:?}", other),
    }
}

fn function_reason(result: Result<String, CompilerError>) -> Reason {
    match result.unwrap_err() {
        CompilerError::FunctionError(FunctionError::Error(f)) => f.reason,
        other => panic!("expected a function error, got {:?}", other),
    }
}

fn integer_reason(e: ExpressionError) -> Reason {
    match e {
        ExpressionError::IntegerError(IntegerError::Error(f)) => f.reason,
        other => panic!("expected an integer error, got {:?}", other),
    }
}

fn array_reason(e: ExpressionError) -> Reason {
    match e {
        ExpressionError::ArrayError(ArrayError::Error(f)) => f.reason,
        other => panic!("expected an array error, got {:?}", other),
    }
}

fn circuit_reason(e: ExpressionError) -> Reason {
    match e {
        ExpressionError::CircuitError(CircuitError::Error(f)) => f.reason,
        other => panic!("expected a circuit error, got {:?}", other),
    }
}

fn plain_reason(e: ExpressionError) -> Reason {
    match e {
        ExpressionError::Error(f) => f.reason,
        other => panic!("expected an expression fault, got {:?}", other),
    }
}

fn call_reason(e: ExpressionError) -> Reason {
    match e {
        ExpressionError::FunctionError(inner) => match *inner {
            FunctionError::Error(f) => f.reason,
            other => panic!("expected a function fault, got {:?}", other),
        },
        other => panic!("expected a function error, got {:?}", other),
    }
}

// Literals and operators

#[test]
fn boolean_literals_are_written_as_words() {
    assert_eq!(value_of(Type::Boolean, boolean(true)).unwrap(), "true");
    assert_eq!(value_of(Type::Boolean, boolean(false)).unwrap(), "false");
}

#[test]
fn integer_literals_keep_their_value() {
    assert_eq!(value_of(u8t(), u8v(0)).unwrap(), "0");
    assert_eq!(value_of(u8t(), u8v(255)).unwrap(), "255");
    assert_eq!(value_of(Type::Integer(IntegerType::I8), i8v(-128)).unwrap(), "-128");
    assert_eq!(value_of(Type::Integer(IntegerType::I8), i8v(127)).unwrap(), "127");
    assert_eq!(
        value_of(
            Type::Integer(IntegerType::U64),
            Expression::Integer(IntegerType::U64, 18446744073709551615, span())
        )
        .unwrap(),
        "18446744073709551615"
    );
    assert_eq!(
        value_of(
            Type::Integer(IntegerType::I64),
            Expression::Integer(IntegerType::I64, -9223372036854775808, span())
        )
        .unwrap(),
        "-9223372036854775808"
    );
}

#[test]
fn a_literal_outside_its_type_fails() {
    for (ty, value) in [
        (IntegerType::U8, 256),
        (IntegerType::U8, -1),
        (IntegerType::U16, 65536),
        (IntegerType::U32, 4294967296),
        (IntegerType::U64, 18446744073709551616),
        (IntegerType::I8, 128),
        (IntegerType::I8, -129),
        (IntegerType::I64, 9223372036854775808),
    ] {
        let e = expression_error(value_of(Type::Integer(ty), Expression::Integer(ty, value, span())));
        assert_eq!(integer_reason(e), Reason::OutOfRange);
    }
}

#[test]
fn field_literals_are_written_as_numbers() {
    assert_eq!(value_of(Type::Field, Expression::Field(12345, span())).unwrap(), "12345");
}

fn fieldv(value: i128) -> Expression {
    Expression::Field(value, span())
}

#[test]
fn arithmetic_on_field_elements() {
    let op = |op, left, right| value_of(Type::Field, binary(op, left, right));
    assert_eq!(op(BinaryOperator::Add, fieldv(2), fieldv(3)).unwrap(), "5");
    assert_eq!(op(BinaryOperator::Sub, fieldv(10), fieldv(4)).unwrap(), "6");
    assert_eq!(op(BinaryOperator::Mul, fieldv(6), fieldv(7)).unwrap(), "42");
    // The result is exact: no modulus of an integer type is applied.
    assert_eq!(op(BinaryOperator::Add, fieldv(255), fieldv(1)).unwrap(), "256");
    assert_eq!(
        op(BinaryOperator::Mul, fieldv(4294967296), fieldv(4294967296)).unwrap(),
        "18446744073709551616"
    );
    // A number without a type takes the type of the field element.
    assert_eq!(op(BinaryOperator::Add, fieldv(2), number(3)).unwrap(), "5");
    assert_eq!(op(BinaryOperator::Mul, number(3), fieldv(2)).unwrap(), "6");
    // A field element and an integer are never mixed.
    let e = expression_error(op(BinaryOperator::Add, fieldv(2), u8v(3)));
    assert_eq!(integer_reason(e), Reason::NotInteger);
    let e = expression_error(op(BinaryOperator::Mul, boolean(true), fieldv(3)));
    assert_eq!(integer_reason(e), Reason::NotInteger);
    // A constant result that is no machine integer is refused.
    let e = expression_error(op(BinaryOperator::Mul, fieldv(i128::MAX), fieldv(2)));
    assert_eq!(plain_reason(e), Reason::Unrepresentable);
    let e = expression_error(op(BinaryOperator::Sub, fieldv(i128::MIN), fieldv(1)));
    assert_eq!(plain_reason(e), Reason::Unrepresentable);
}

#[test]
fn arithmetic_on_field_inputs() {
    // function main(a: field, b: field) -> field { return a * b + a - b }
    let p = || {
        main_only(
            vec![param("a", Type::Field), param("b", Type::Field)],
            Some(Type::Field),
            vec![ret(binary(
                BinaryOperator::Sub,
                add(binary(BinaryOperator::Mul, var("a"), var("b")), var("a")),
                var("b"),
            ))],
        )
    };
    let given = |a: i128, b: i128| {
        inputs(
            vec![
                input("a", Type::Field, InputValue::Field(a)),
                input("b", Type::Field, InputValue::Field(b)),
            ],
            vec![register("r", Type::Field)],
        )
    };
    let (result, ledger) = run(p(), given(5, 7));
    assert_eq!(result.unwrap(), "[registers]\nr: field = 33;\n");
    assert!(ledger.is_satisfied(MODULUS));
    assert!(ledger.is_satisfied(31));
    // One wire and one constraint for each operation, after the two inputs.
    assert_eq!(ledger.num_variables(), 1 + 2 + 3);
    assert_eq!(ledger.num_constraints(), 3);

    // The shape does not depend on the values, nor on whether there are any.
    let (_, other) = run(p(), given(0, 1));
    assert_eq!(other.num_constraints(), ledger.num_constraints());
    let mut blind = ConstraintLedger::new();
    let text = compiler(p(), given(5, 7)).compile_constraints(&mut blind).unwrap();
    assert_eq!(text.bytes().as_slice(), b"[registers]\nr: field = [allocated];\n");
    assert_eq!(blind.num_constraints(), ledger.num_constraints());

    // A witness that is no machine integer is a violation, never a wrong value.
    let (result, _) = run(p(), given(i128::MAX, 2));
    match result.unwrap_err() {
        CompilerError::FunctionError(FunctionError::IntegerError(IntegerError::Error(f))) => {
            assert_eq!(f.reason, Reason::Overflow)
        }
        other => panic!("{:?}", other),
    }
}

#[test]
fn arithmetic_on_integers() {
    assert_eq!(value_of(u8t(), add(u8v(1), u8v(2))).unwrap(), "3");
    assert_eq!(value_of(u8t(), binary(BinaryOperator::Sub, u8v(5), u8v(2))).unwrap(), "3");
    assert_eq!(value_of(u8t(), binary(BinaryOperator::Mul, u8v(5), u8v(51))).unwrap(), "255");
    assert_eq!(
        value_of(
            Type::Integer(IntegerType::I8),
            binary(BinaryOperator::Sub, i8v(-100), i8v(28))
        )
        .unwrap(),
        "-128"
    );
    assert_eq!(
        value_of(
            Type::Integer(IntegerType::I8),
            binary(BinaryOperator::Mul, i8v(-8), i8v(-8))
        )
        .unwrap(),
        "64"
    );
    assert_eq!(
        value_of(
            Type::Integer(IntegerType::U64),
            binary(
                BinaryOperator::Mul,
                Expression::Integer(IntegerType::U64, 4294967296, span()),
                Expression::Integer(IntegerType::U64, 4294967295, span())
            )
        )
        .unwrap(),
        "18446744069414584320"
    );
}

#[test]
fn arithmetic_of_constants_that_leaves_the_type_fails() {
    for e in [
        add(u8v(255), u8v(1)),
        binary(BinaryOperator::Sub, u8v(0), u8v(1)),
        binary(BinaryOperator::Mul, u8v(16), u8v(16)),
    ] {
        assert_eq!(integer_reason(expression_error(value_of(u8t(), e))), Reason::OutOfRange);
    }
    let big = Expression::Integer(IntegerType::I64, 9223372036854775807, span());
    let big2 = Expression::Integer(IntegerType::I64, 9223372036854775807, span());
    let e = expression_error(value_of(
        Type::Integer(IntegerType::I64),
        binary(BinaryOperator::Mul, big, big2),
    ));
    assert_eq!(integer_reason(e), Reason::OutOfRange);
}

#[test]
fn comparisons_of_integers() {
    let cases = [
        (BinaryOperator::Lt, 3, 5, "true"),
        (BinaryOperator::Lt, 5, 5, "false"),
        (BinaryOperator::Lt, 7, 5, "false"),
        (BinaryOperator::Le, 3, 5, "true"),
        (BinaryOperator::Le, 5, 5, "true"),
        (BinaryOperator::Le, 7, 5, "false"),
        (BinaryOperator::Gt, 3, 5, "false"),
        (BinaryOperator::Gt, 5, 5, "false"),
        (BinaryOperator::Gt, 7, 5, "true"),
        (BinaryOperator::Ge, 3, 5, "false"),
        (BinaryOperator::Ge, 5, 5, "true"),
        (BinaryOperator::Ge, 7, 5, "true"),
        (BinaryOperator::Eq, 5, 5, "true"),
        (BinaryOperator::Eq, 5, 7, "false"),
        (BinaryOperator::Ne, 5, 5, "false"),
        (BinaryOperator::Ne, 5, 7, "true"),
        (BinaryOperator::Lt, 0, 255, "true"),
        (BinaryOperator::Ge, 0, 255, "false"),
        (BinaryOperator::Ge, 255, 0, "true"),
    ];
    for (op, a, b, expected) in cases {
        assert_eq!(value_of(Type::Boolean, binary(op, u8v(a), u8v(b))).unwrap(), expected);
    }
    let signed = [
        (BinaryOperator::Lt, -128, 127, "true"),
        (BinaryOperator::Gt, -1, 0, "false"),
        (BinaryOperator::Ge, -1, -1, "true"),
        (BinaryOperator::Eq, -5, 5, "false"),
    ];
    for (op, a, b, expected) in signed {
        assert_eq!(value_of(Type::Boolean, binary(op, i8v(a), i8v(b))).unwrap(), expected);
    }
}

#[test]
fn comparisons_of_booleans() {
    assert_eq!(
        value_of(Type::Boolean, binary(BinaryOperator::Eq, boolean(true), boolean(true))).unwrap(),
        "true"
    );
    assert_eq!(
        value_of(Type::Boolean, binary(BinaryOperator::Eq, boolean(true), boolean(false))).unwrap(),
        "false"
    );
    assert_eq!(
        value_of(Type::Boolean, binary(BinaryOperator::Ne, boolean(true), boolean(false))).unwrap(),
        "true"
    );
    assert_eq!(
        value_of(Type::Boolean, binary(BinaryOperator::Ne, boolean(false), boolean(false))).unwrap(),
        "false"
    );
}

#[test]
fn a_number_without_a_type_takes_the_type_of_the_other_operand() {
    assert_eq!(value_of(u8t(), add(u8v(1), number(2))).unwrap(), "3");
    assert_eq!(value_of(u8t(), add(number(1), u8v(2))).unwrap(), "3");
    assert_eq!(
        value_of(Type::Boolean, binary(BinaryOperator::Lt, number(1), u32v(2))).unwrap(),
        "true"
    );
    // The number must fit the type it takes.
    let e = expression_error(value_of(u8t(), add(u8v(1), number(256))));
    assert_eq!(integer_reason(e), Reason::OutOfRange);
}

#[test]
fn a_number_without_a_type_takes_the_declared_type() {
    assert_eq!(value_of(u8t(), number(7)).unwrap(), "7");
    assert_eq!(value_of(Type::Field, number(7)).unwrap(), "7");
    let p = main_only(
        vec![],
        Some(u8t()),
        vec![declare_as("x", u8t(), number(9)), ret(var("x"))],
    );
    assert_eq!(run(p, inputs(vec![], vec![register("r", u8t())])).0.unwrap(), "[registers]\nr: u8 = 9;\n");
}

#[test]
fn numbers_without_a_type_cannot_stay_unresolved() {
    let e = expression_error(value_of(u8t(), add(number(1), number(2))));
    assert_eq!(plain_reason(e), Reason::UnresolvedNumber);
    // A number that is returned takes the declared type when the call ends.
    match value_of(Type::Boolean, number(1)).unwrap_err() {
        CompilerError::FunctionError(FunctionError::ExpressionError(ExpressionError::Error(f))) => {
            assert_eq!(f, Fault { reason: Reason::UnresolvedNumber, span: at(7) })
        }
        other => panic!("{:?}", other),
    }
    let p = main_only(vec![], None, vec![declare("x", number(1))]);
    assert_eq!(statement_reason(run(p, inputs(vec![], vec![])).0), Reason::UnresolvedNumber);
    let p = main_only(vec![], None, vec![
        Statement::Expression(Expression::Tuple(vec![number(1), boolean(true)], span()), span()),
    ]);
    assert_eq!(plain_reason(expression_error(run(p, inputs(vec![], vec![])).0)), Reason::UnresolvedNumber);
}

#[test]
fn operands_of_different_kinds_are_never_coerced() {
    let e = expression_error(value_of(Type::Boolean, binary(BinaryOperator::And, u8v(1), boolean(true))));
    assert_eq!(e, ExpressionError::BooleanError(BooleanError::Error(Fault { reason: Reason::NotBoolean, span: span() })));
    let e = expression_error(value_of(u8t(), add(u8v(1), boolean(true))));
    assert_eq!(integer_reason(e), Reason::NotInteger);
    let e = expression_error(value_of(u8t(), add(u8v(1), u32v(1))));
    assert_eq!(integer_reason(e), Reason::IntegerTypesDiffer);
    let e = expression_error(value_of(Type::Boolean, binary(BinaryOperator::Lt, u8v(1), u32v(1))));
    assert_eq!(integer_reason(e), Reason::IntegerTypesDiffer);
    let e = expression_error(value_of(Type::Boolean, binary(BinaryOperator::Lt, boolean(true), boolean(true))));
    assert_eq!(integer_reason(e), Reason::NotInteger);
    let e = expression_error(value_of(Type::Boolean, binary(BinaryOperator::Eq, u8v(1), u32v(1))));
    assert_eq!(integer_reason(e), Reason::IntegerTypesDiffer);
    let e = expression_error(value_of(Type::Boolean, binary(BinaryOperator::Eq, u8v(1), boolean(true))));
    assert_eq!(plain_reason(e), Reason::IncompatibleTypes);
}

#[test]
fn an_undefined_identifier_fails() {
    let e = expression_error(value_of(Type::Boolean, var("missing")));
    assert_eq!(
        e,
        ExpressionError::UndefinedIdentifier(Fault { reason: Reason::UndefinedIdentifier, span: span() })
    );
    let p = main_only(vec![], None, vec![assign("missing", boolean(true))]);
    match expression_error(run(p, inputs(vec![], vec![])).0) {
        ExpressionError::UndefinedIdentifier(f) => assert_eq!(f.reason, Reason::UndefinedIdentifier),
        other => panic!("{:?}", other),
    }
}

// Arrays, tuples, circuits

#[test]
fn arrays_are_indexed_by_constants() {
    let three = || array(vec![u8v(10), u8v(20), u8v(30)]);
    assert_eq!(value_of(u8t(), index(three(), u32v(0))).unwrap(), "10");
    assert_eq!(value_of(u8t(), index(three(), u32v(2))).unwrap(), "30");
    assert_eq!(value_of(u8t(), index(three(), number(1))).unwrap(), "20");
    assert_eq!(
        value_of(Type::Array(Box::new(u8t()), 3), three()).unwrap(),
        "[10, 20, 30]"
    );
    assert_eq!(array_reason(expression_error(value_of(u8t(), index(three(), u32v(3))))), Reason::IndexOutOfBounds);
    assert_eq!(array_reason(expression_error(value_of(u8t(), index(three(), number(-1))))), Reason::IndexOutOfBounds);
    assert_eq!(array_reason(expression_error(value_of(u8t(), index(three(), boolean(true))))), Reason::InvalidIndex);
    assert_eq!(array_reason(expression_error(value_of(u8t(), index(u8v(1), u32v(0))))), Reason::NotArray);
    assert_eq!(
        array_reason(expression_error(value_of(u8t(), array(vec![u8v(1), boolean(true)])))),
        Reason::IncompatibleTypes
    );
}

fn indexed_by_input(index_value: i128) -> (Result<String, CompilerError>, ConstraintLedger) {
    // function main(i: u8) -> u8 { return [10u8, 20u8, 30u8][i] }
    let p = main_only(
        vec![param("i", u8t())],
        Some(u8t()),
        vec![ret(index(array(vec![u8v(10), u8v(20), u8v(30)]), var("i")))],
    );
    run(
        p,
        inputs(
            vec![input("i", u8t(), InputValue::Integer(IntegerType::U8, index_value))],
            vec![register("r", u8t())],
        ),
    )
}

#[test]
fn arrays_are_indexed_by_wires() {
    for (i, expected) in [(0, "10"), (1, "20"), (2, "30")] {
        let (result, ledger) = indexed_by_input(i);
        assert_eq!(result.unwrap(), format!("[registers]\nr: u8 = {};\n", expected));
        assert!(ledger.is_satisfied(MODULUS));
    }
    // Every position costs the same: the chain selects over all elements.
    let counts: Vec<usize> = (0..3).map(|i| indexed_by_input(i).1.num_constraints()).collect();
    assert_eq!(counts[0], counts[1]);
    assert_eq!(counts[1], counts[2]);
}

#[test]
fn an_index_on_a_wire_outside_the_array_is_a_violation() {
    let (result, ledger) = indexed_by_input(3);
    match result.unwrap_err() {
        CompilerError::FunctionError(FunctionError::IntegerError(IntegerError::Error(f))) => {
            assert_eq!(f.reason, Reason::Overflow)
        }
        other => panic!("{:?}", other),
    }
    assert!(!ledger.is_satisfied(MODULUS));
}

#[test]
fn tuples_are_accessed_by_position() {
    let pair = || Expression::Tuple(vec![u8v(1), boolean(true)], span());
    assert_eq!(value_of(u8t(), Expression::TupleAccess(Box::new(pair()), 0, span())).unwrap(), "1");
    assert_eq!(
        value_of(Type::Boolean, Expression::TupleAccess(Box::new(pair()), 1, span())).unwrap(),
        "true"
    );
    assert_eq!(
        value_of(Type::Tuple(vec![u8t(), Type::Boolean]), pair()).unwrap(),
        "(1, true)"
    );
    assert_eq!(
        plain_reason(expression_error(value_of(u8t(), Expression::TupleAccess(Box::new(pair()), 2, span())))),
        Reason::IndexOutOfBounds
    );
    assert_eq!(
        plain_reason(expression_error(value_of(u8t(), Expression::TupleAccess(Box::new(u8v(1)), 0, span())))),
        Reason::NotTuple
    );
}

fn point() -> Circuit {
    Circuit {
        name: id("Point"),
        members: vec![
            CircuitMember { name: id("x"), ty: u8t() },
            CircuitMember { name: id("flag"), ty: Type::Boolean },
        ],
    }
}

fn point_value(x: Expression, flag: Expression) -> Expression {
    Expression::Circuit(
        id("Point"),
        vec![
            CircuitVariable { name: id("x"), expression: x },
            CircuitVariable { name: id("flag"), expression: flag },
        ],
        span(),
    )
}

fn member(instance: Expression, name: &str) -> Expression {
    Expression::CircuitMember(Box::new(instance), id(name), span())
}

#[test]
fn circuits_hold_named_members() {
    assert_eq!(
        value_in(vec![point()], u8t(), member(point_value(u8v(4), boolean(true)), "x")).unwrap(),
        "4"
    );
    assert_eq!(
        value_in(vec![point()], Type::Boolean, member(point_value(number(4), boolean(true)), "flag"))
            .unwrap(),
        "true"
    );
    assert_eq!(
        value_in(vec![point()], Type::Circuit("Point".to_string()), point_value(u8v(4), boolean(false)))
            .unwrap(),
        "Point { x: 4, flag: false }"
    );
}

#[test]
fn circuit_errors() {
    let e = expression_error(value_in(vec![], u8t(), member(point_value(u8v(4), boolean(true)), "x")));
    assert_eq!(circuit_reason(e), Reason::UndefinedCircuit);
    let e = expression_error(value_in(vec![point()], u8t(), member(point_value(u8v(4), boolean(true)), "y")));
    assert_eq!(circuit_reason(e), Reason::UndefinedMember);
    let e = expression_error(value_in(vec![point()], u8t(), member(u8v(1), "x")));
    assert_eq!(circuit_reason(e), Reason::NotCircuit);
    let e = expression_error(value_in(vec![point()], u8t(), member(point_value(boolean(true), boolean(true)), "x")));
    assert_eq!(circuit_reason(e), Reason::MemberMismatch);
    let one_member = Expression::Circuit(
        id("Point"),
        vec![CircuitVariable { name: id("x"), expression: u8v(1) }],
        span(),
    );
    let e = expression_error(value_in(vec![point()], u8t(), member(one_member, "x")));
    assert_eq!(circuit_reason(e), Reason::MemberMismatch);
    let wrong_name = Expression::Circuit(
        id("Point"),
        vec![
            CircuitVariable { name: id("y"), expression: u8v(1) },
            CircuitVariable { name: id("flag"), expression: boolean(true) },
        ],
        span(),
    );
    let e = expression_error(value_in(vec![point()], u8t(), member(wrong_name, "x")));
    assert_eq!(circuit_reason(e), Reason::MemberMismatch);
}

// Statements

#[test]
fn definitions_shadow_and_assignments_replace() {
    let p = main_only(
        vec![],
        Some(u8t()),
        vec![
            declare("x", u8v(1)),
            declare("x", u8v(2)),
            assign("x", add(var("x"), u8v(5))),
            ret(var("x")),
        ],
    );
    assert_eq!(run(p, inputs(vec![], vec![register("r", u8t())])).0.unwrap(), "[registers]\nr: u8 = 7;\n");
}

#[test]
fn assignments_reach_into_arrays_and_circuits() {
    let mut p = main_only(
        vec![],
        Some(Type::Array(Box::new(Type::Circuit("Point".to_string())), 2)),
        vec![
            declare(
                "a",
                array(vec![point_value(u8v(1), boolean(true)), point_value(u8v(2), boolean(true))]),
            ),
            Statement::Assign(
                Assignee {
                    identifier: id("a"),
                    accesses: vec![Access::Index(u32v(1)), Access::Member(id("x"))],
                },
                u8v(9),
                span(),
            ),
            Statement::Assign(
                Assignee {
                    identifier: id("a"),
                    accesses: vec![Access::Index(number(0)), Access::Member(id("flag"))],
                },
                boolean(false),
                span(),
            ),
            ret(var("a")),
        ],
    );
    p.circuits = vec![point()];
    let r = register("r", Type::Array(Box::new(Type::Circuit("Point".to_string())), 2));
    assert_eq!(
        run(p, inputs(vec![], vec![r])).0.unwrap(),
        "[registers]\nr: [Point; 2] = [Point { x: 1, flag: false }, Point { x: 9, flag: true }];\n"
    );
}

#[test]
fn assignment_errors() {
    let assign_to = |accesses: Vec<Access>, value: Expression| {
        let mut p = main_only(
            vec![param("i", u8t())],
            None,
            vec![
                declare("a", array(vec![u8v(1), u8v(2)])),
                declare("p", point_value(u8v(1), boolean(true))),
                Statement::Assign(Assignee { identifier: id(if accesses.is_empty() || matches!(accesses[0], Access::Index(_)) { "a" } else { "p" }), accesses }, value, span()),
            ],
        );
        p.circuits = vec![point()];
        run(p, inputs(vec![], vec![])).0
    };
    assert_eq!(statement_reason(assign_to(vec![], u8v(1))), Reason::AssignmentMismatch);
    assert_eq!(statement_reason(assign_to(vec![Access::Index(u32v(0))], boolean(true))), Reason::AssignmentMismatch);
    assert_eq!(statement_reason(assign_to(vec![Access::Index(var("i"))], u8v(1))), Reason::IndexNotConstant);
    assert_eq!(array_reason(expression_error(assign_to(vec![Access::Index(u32v(2))], u8v(1)))), Reason::IndexOutOfBounds);
    assert_eq!(array_reason(expression_error(assign_to(vec![Access::Index(u32v(0)), Access::Index(u32v(0))], u8v(1)))), Reason::NotArray);
    assert_eq!(circuit_reason(expression_error(assign_to(vec![Access::Member(id("y"))], u8v(1)))), Reason::UndefinedMember);
    assert_eq!(circuit_reason(expression_error(assign_to(vec![Access::Index(u32v(0)), Access::Member(id("x"))], u8v(1)))), Reason::NotCircuit);
}

#[test]
fn a_definition_is_held_to_its_declared_type() {
    let p = main_only(vec![], None, vec![declare_as("x", u8t(), boolean(true))]);
    assert_eq!(statement_reason(run(p, inputs(vec![], vec![])).0), Reason::DefinitionMismatch);
}

/// `function main(c: bool) -> u8 { let x = 1u8; if c { x = 2u8 } else { x = 3u8 } return x }`
fn branching() -> Program {
    main_only(
        vec![param("c", Type::Boolean)],
        Some(u8t()),
        vec![
            declare("x", u8v(1)),
            Statement::Conditional(
                var("c"),
                vec![assign("x", u8v(2))],
                vec![assign("x", add(u8v(1), u8v(2)))],
                span(),
            ),
            ret(var("x")),
        ],
    )
}

fn condition(value: bool) -> Inputs {
    inputs(
        vec![input("c", Type::Boolean, InputValue::Boolean(value))],
        vec![register("r", u8t())],
    )
}

#[test]
fn a_conditional_selects_between_its_branches() {
    let (result, ledger) = run(branching(), condition(true));
    assert_eq!(result.unwrap(), "[registers]\nr: u8 = 2;\n");
    assert!(ledger.is_satisfied(MODULUS));
    let (result, ledger) = run(branching(), condition(false));
    assert_eq!(result.unwrap(), "[registers]\nr: u8 = 3;\n");
    assert!(ledger.is_satisfied(MODULUS));
}

#[test]
fn both_branches_are_synthesized_whatever_the_condition_is() {
    let taken = run(branching(), condition(true)).1;
    let not_taken = run(branching(), condition(false)).1;
    assert_eq!(taken.num_constraints(), not_taken.num_constraints());
    assert_eq!(taken.num_variables(), not_taken.num_variables());

    // The conditional costs more than either branch alone.
    let first_only = main_only(
        vec![param("c", Type::Boolean)],
        Some(u8t()),
        vec![declare("x", u8v(1)), assign("x", u8v(2)), ret(var("x"))],
    );
    let second_only = main_only(
        vec![param("c", Type::Boolean)],
        Some(u8t()),
        vec![declare("x", u8v(1)), assign("x", add(u8v(1), u8v(2))), ret(var("x"))],
    );
    let base = main_only(
        vec![param("c", Type::Boolean)],
        Some(u8t()),
        vec![declare("x", u8v(1)), ret(var("x"))],
    );
    let count = |p: Program| run(p, condition(true)).1.num_constraints();
    let base_count = count(base);
    let first_cost = count(first_only) - base_count;
    let second_cost = count(second_only) - base_count;
    assert!(first_cost > 0);
    assert!(second_cost > first_cost);
    assert!(taken.num_constraints() - base_count >= first_cost + second_cost);
}

#[test]
fn a_conditional_returns_the_selection_of_what_its_branches_return() {
    let p = |c: bool| {
        run(
            main_only(
                vec![param("c", Type::Boolean)],
                Some(u8t()),
                vec![Statement::Conditional(var("c"), vec![ret(u8v(10))], vec![ret(u8v(20))], span())],
            ),
            condition(c),
        )
        .0
        .unwrap()
    };
    assert_eq!(p(true), "[registers]\nr: u8 = 10;\n");
    assert_eq!(p(false), "[registers]\nr: u8 = 20;\n");
}

#[test]
fn branches_that_do_not_agree_fail() {
    let one_returns = main_only(
        vec![param("c", Type::Boolean)],
        Some(u8t()),
        vec![Statement::Conditional(var("c"), vec![ret(u8v(10))], vec![], span()), ret(u8v(1))],
    );
    assert_eq!(statement_reason(run(one_returns, condition(true)).0), Reason::BranchMismatch);
    let different_kinds = main_only(
        vec![param("c", Type::Boolean)],
        Some(u8t()),
        vec![Statement::Conditional(var("c"), vec![ret(u8v(10))], vec![ret(boolean(true))], span())],
    );
    assert_eq!(statement_reason(run(different_kinds, condition(true)).0), Reason::BranchMismatch);
    let not_boolean = main_only(
        vec![],
        None,
        vec![Statement::Conditional(u8v(1), vec![], vec![], span())],
    );
    match expression_error(run(not_boolean, inputs(vec![], vec![])).0) {
        ExpressionError::BooleanError(BooleanError::Error(f)) => assert_eq!(f.reason, Reason::NotBoolean),
        other => panic!("{:?}", other),
    }
}

#[test]
fn definitions_of_a_branch_end_with_the_branch() {
    let p = main_only(
        vec![param("c", Type::Boolean)],
        Some(u8t()),
        vec![
            Statement::Conditional(var("c"), vec![declare("y", u8v(2))], vec![], span()),
            ret(var("y")),
        ],
    );
    match expression_error(run(p, condition(true)).0) {
        ExpressionError::UndefinedIdentifier(_) => {}
        other => panic!("{:?}", other),
    }
}

fn summing(lower: Expression, upper: Expression) -> Program {
    // let sum = 0u8; for i in lower..upper { sum = sum + i } return sum
    main_only(
        vec![param("n", u8t())],
        Some(u8t()),
        vec![
            declare("sum", u8v(0)),
            Statement::Iteration(
                id("i"),
                lower,
                upper,
                vec![assign("sum", add(var("sum"), var("i")))],
                span(),
            ),
            ret(var("sum")),
        ],
    )
}

fn n_is(value: i128) -> Inputs {
    inputs(
        vec![input("n", u8t(), InputValue::Integer(IntegerType::U8, value))],
        vec![register("r", u8t())],
    )
}

#[test]
fn a_loop_is_unrolled_over_its_constant_bounds() {
    assert_eq!(run(summing(u8v(0), u8v(4)), n_is(0)).0.unwrap(), "[registers]\nr: u8 = 6;\n");
    assert_eq!(run(summing(u8v(2), u8v(5)), n_is(0)).0.unwrap(), "[registers]\nr: u8 = 9;\n");
    assert_eq!(run(summing(number(1), u8v(3)), n_is(0)).0.unwrap(), "[registers]\nr: u8 = 3;\n");
    assert_eq!(run(summing(u8v(4), u8v(4)), n_is(0)).0.unwrap(), "[registers]\nr: u8 = 0;\n");
    assert_eq!(run(summing(u8v(5), u8v(4)), n_is(0)).0.unwrap(), "[registers]\nr: u8 = 0;\n");
    // Each iteration adds the same constraints.
    let count = |upper: i128| run(summing(u8v(0), u8v(upper)), n_is(0)).1.num_constraints();
    assert_eq!(count(3) - count(2), count(2) - count(1));
    assert!(count(2) > count(1));
}

#[test]
fn a_long_loop_is_unrolled_without_nesting() {
    // for i in 0u16..20000u16 { } return true
    let bound = |n: i128| Expression::Integer(IntegerType::U16, n, span());
    let p = main_only(
        vec![],
        Some(Type::Boolean),
        vec![
            Statement::Iteration(id("i"), bound(0), bound(20000), vec![], span()),
            ret(boolean(true)),
        ],
    );
    let (result, ledger) = run(p, inputs(vec![], vec![register("r", Type::Boolean)]));
    assert_eq!(result.unwrap(), "[registers]\nr: bool = true;\n");
    // Sixteen bits and their sum for each of the two bounds and for each value
    // of the loop variable, and the literal returned.
    assert_eq!(ledger.num_constraints(), 20002 * 17 + 1);
    assert_eq!(ledger.num_variables(), 1 + 20002 * 16 + 1);
    assert!(ledger.is_satisfied(MODULUS));
}

#[test]
fn the_bounds_of_a_loop_must_be_constants() {
    assert_eq!(
        statement_reason(run(summing(u8v(0), var("n")), n_is(3)).0),
        Reason::LoopBoundNotConstant
    );
    assert_eq!(
        statement_reason(run(summing(boolean(true), u8v(1)), n_is(3)).0),
        Reason::LoopBoundNotConstant
    );
    // The loop variable has the type of the bounds; a bound without a type makes a `u32`.
    let e = expression_error(run(summing(number(0), number(2)), n_is(0)).0);
    assert_eq!(integer_reason(e), Reason::IntegerTypesDiffer);
}

#[test]
fn a_return_inside_a_loop_ends_the_function() {
    let p = main_only(
        vec![],
        Some(u8t()),
        vec![
            Statement::Iteration(id("i"), u8v(3), u8v(9), vec![ret(var("i"))], span()),
            ret(u8v(0)),
        ],
    );
    assert_eq!(run(p, inputs(vec![], vec![register("r", u8t())])).0.unwrap(), "[registers]\nr: u8 = 3;\n");
}

#[test]
fn assertions_hold_or_leave_the_ledger_unsatisfied() {
    let asserting = |value: Expression| {
        let p = main_only(vec![], None, vec![Statement::Assert(value, span())]);
        let (result, ledger) = run(p, inputs(vec![], vec![]));
        (result, ledger.is_satisfied(MODULUS))
    };
    let (result, satisfied) = asserting(boolean(true));
    assert_eq!(result.unwrap(), "[registers]\n");
    assert!(satisfied);
    let (result, satisfied) = asserting(binary(BinaryOperator::Lt, u8v(2), u8v(1)));
    assert!(result.is_ok());
    assert!(!satisfied);
    match expression_error(asserting(u8v(1)).0) {
        ExpressionError::BooleanError(BooleanError::Error(f)) => assert_eq!(f.reason, Reason::NotBoolean),
        other => panic!("{:?}", other),
    }
}

#[test]
fn assert_eq_compares_values_of_one_shape() {
    let asserting = |left: Expression, right: Expression| {
        let p = main_only(vec![], None, vec![assert_eq_stmt(left, right)]);
        let (result, ledger) = run(p, inputs(vec![], vec![]));
        (result, ledger.is_satisfied(MODULUS))
    };
    assert!(asserting(u8v(3), add(u8v(1), u8v(2))).1);
    assert!(!asserting(u8v(4), add(u8v(1), u8v(2))).1);
    assert!(asserting(u8v(3), number(3)).1);
    assert!(asserting(number(3), u8v(3)).1);
    assert!(asserting(array(vec![u8v(1), u8v(2)]), array(vec![u8v(1), u8v(2)])).1);
    assert!(!asserting(array(vec![u8v(1), u8v(2)]), array(vec![u8v(1), u8v(3)])).1);
    assert!(asserting(Expression::Field(5, span()), Expression::Field(5, span())).1);
    assert!(!asserting(Expression::Field(5, span()), Expression::Field(6, span())).1);
    assert_eq!(
        plain_reason(expression_error(asserting(u8v(1), boolean(true)).0)),
        Reason::IncompatibleTypes
    );
    assert_eq!(
        plain_reason(expression_error(asserting(number(1), number(1)).0)),
        Reason::UnresolvedNumber
    );
}

// Whole programs

fn lt(left: Expression, right: Expression) -> Expression {
    binary(BinaryOperator::Lt, left, right)
}

fn when(condition: Expression, first: Vec<Statement>, second: Vec<Statement>) -> Statement {
    Statement::Conditional(condition, first, second, span())
}

fn u8_input(name: &str, value: i128) -> Input {
    input(name, u8t(), InputValue::Integer(IntegerType::U8, value))
}

#[test]
fn nested_conditionals_select_the_right_value() {
    // let m = a; if a < b { m = b } else { if a == b { m = 0u8 } else { } } return m
    let p = || {
        main_only(
            vec![param("a", u8t()), param("b", u8t())],
            Some(u8t()),
            vec![
                declare("m", var("a")),
                when(
                    lt(var("a"), var("b")),
                    vec![assign("m", var("b"))],
                    vec![when(
                        binary(BinaryOperator::Eq, var("a"), var("b")),
                        vec![assign("m", u8v(0))],
                        vec![],
                    )],
                ),
                ret(var("m")),
            ],
        )
    };
    let mut counts = vec![];
    for (a, b, expected) in [(1, 2, 2), (2, 1, 2), (7, 7, 0), (0, 255, 255), (255, 0, 255)] {
        let (result, ledger) = run(p(), a_and_b(a, b));
        assert_eq!(result.unwrap(), format!("[registers]\nr: u8 = {};\n", expected));
        assert!(ledger.is_satisfied(MODULUS));
        counts.push(ledger.num_constraints());
    }
    assert!(counts.iter().all(|c| *c == counts[0]));
}

#[test]
fn a_loop_over_an_array_counts_with_conditionals() {
    // let c = 0u8; for i in 0..4 { if t < v[i] { c = c + 1u8 } else { } } return c
    let p = || {
        main_only(
            vec![param("v", Type::Array(Box::new(u8t()), 4)), param("t", u8t())],
            Some(u8t()),
            vec![
                declare("c", u8v(0)),
                Statement::Iteration(
                    id("i"),
                    number(0),
                    number(4),
                    vec![when(
                        lt(var("t"), index(var("v"), var("i"))),
                        vec![assign("c", add(var("c"), u8v(1)))],
                        vec![],
                    )],
                    span(),
                ),
                ret(var("c")),
            ],
        )
    };
    let given = |values: [i128; 4], t: i128| {
        inputs(
            vec![
                input(
                    "v",
                    Type::Array(Box::new(u8t()), 4),
                    InputValue::Array(
                        values.iter().map(|v| InputValue::Integer(IntegerType::U8, *v)).collect(),
                    ),
                ),
                u8_input("t", t),
            ],
            vec![register("r", u8t())],
        )
    };
    for (values, t, expected) in [
        ([1, 2, 3, 4], 2, 2),
        ([1, 2, 3, 4], 0, 4),
        ([1, 2, 3, 4], 4, 0),
        ([9, 0, 9, 0], 8, 2),
        ([255, 255, 255, 255], 254, 4),
    ] {
        let (result, ledger) = run(p(), given(values, t));
        assert_eq!(result.unwrap(), format!("[registers]\nr: u8 = {};\n", expected));
        assert!(ledger.is_satisfied(MODULUS));
    }
}

#[test]
fn calls_inside_branches_and_branches_inside_calls() {
    // function larger(a: u8, b: u8) -> u8 { if a < b { return b } else { return a } }
    // function main(a: u8, b: u8) -> u8 {
    //     let r = 0u8; if a == b { r = larger(a, 1u8) } else { r = larger(a, b) - 1u8 } return r
    // }
    let p = || {
        program(vec![
            function(
                "larger",
                vec![param("a", u8t()), param("b", u8t())],
                Some(u8t()),
                vec![when(lt(var("a"), var("b")), vec![ret(var("b"))], vec![ret(var("a"))])],
            ),
            function(
                "main",
                vec![param("a", u8t()), param("b", u8t())],
                Some(u8t()),
                vec![
                    declare("r", u8v(0)),
                    when(
                        binary(BinaryOperator::Eq, var("a"), var("b")),
                        vec![assign("r", call("larger", vec![var("a"), u8v(1)]))],
                        vec![assign(
                            "r",
                            binary(
                                BinaryOperator::Sub,
                                call("larger", vec![var("a"), var("b")]),
                                u8v(1),
                            ),
                        )],
                    ),
                    ret(var("r")),
                ],
            ),
        ])
    };
    for (a, b, expected) in [(3, 3, 3), (3, 9, 8), (9, 3, 8), (1, 0, 0)] {
        let (result, ledger) = run(p(), a_and_b(a, b));
        assert_eq!(result.unwrap(), format!("[registers]\nr: u8 = {};\n", expected));
        assert!(ledger.is_satisfied(MODULUS));
    }
    // Both branches are synthesized: where the larger of the two is zero, the
    // subtraction leaves the type, though its branch is not the one taken.
    let (result, ledger) = run(p(), a_and_b(0, 0));
    assert!(result.is_err());
    assert!(ledger.is_violated());
    let q = main_only(
        vec![param("a", u8t()), param("b", u8t())],
        Some(u8t()),
        vec![
            declare("r", u8v(0)),
            when(
                binary(BinaryOperator::Eq, var("a"), var("b")),
                vec![],
                vec![assign("r", binary(BinaryOperator::Sub, var("a"), var("b")))],
            ),
            ret(var("r")),
        ],
    );
    match run(q, a_and_b(1, 2)).0.unwrap_err() {
        CompilerError::FunctionError(FunctionError::IntegerError(IntegerError::Error(f))) => {
            assert_eq!(f.reason, Reason::Overflow)
        }
        other => panic!("{:?}", other),
    }
}

#[test]
fn conditionals_merge_arrays_and_circuits() {
    // let p = Point { x: a, flag: false }; let v = [a, b];
    // if a < b { p.x = b; v[0] = b } else { p.flag = true; v[1] = a }
    // return (p, v)
    let build = || {
        let mut p = main_only(
            vec![param("a", u8t()), param("b", u8t())],
            Some(Type::Tuple(vec![
                Type::Circuit("Point".to_string()),
                Type::Array(Box::new(u8t()), 2),
            ])),
            vec![
                declare("p", point_value(var("a"), boolean(false))),
                declare("v", array(vec![var("a"), var("b")])),
                when(
                    lt(var("a"), var("b")),
                    vec![
                        Statement::Assign(
                            Assignee { identifier: id("p"), accesses: vec![Access::Member(id("x"))] },
                            var("b"),
                            span(),
                        ),
                        Statement::Assign(
                            Assignee { identifier: id("v"), accesses: vec![Access::Index(number(0))] },
                            var("b"),
                            span(),
                        ),
                    ],
                    vec![
                        Statement::Assign(
                            Assignee {
                                identifier: id("p"),
                                accesses: vec![Access::Member(id("flag"))],
                            },
                            boolean(true),
                            span(),
                        ),
                        Statement::Assign(
                            Assignee { identifier: id("v"), accesses: vec![Access::Index(number(1))] },
                            var("a"),
                            span(),
                        ),
                    ],
                ),
                ret(Expression::Tuple(vec![var("p"), var("v")], span())),
            ],
        );
        p.circuits = vec![point()];
        p
    };
    let registers = || {
        vec![
            register("p", Type::Circuit("Point".to_string())),
            register("v", Type::Array(Box::new(u8t()), 2)),
        ]
    };
    let given = |a: i128, b: i128| inputs(vec![u8_input("a", a), u8_input("b", b)], registers());
    let (result, ledger) = run(build(), given(1, 2));
    assert_eq!(
        result.unwrap(),
        "[registers]\np: Point = Point { x: 2, flag: false };\nv: [u8; 2] = [2, 2];\n"
    );
    assert!(ledger.is_satisfied(MODULUS));
    let (result, ledger) = run(build(), given(5, 3));
    assert_eq!(
        result.unwrap(),
        "[registers]\np: Point = Point { x: 5, flag: true };\nv: [u8; 2] = [5, 5];\n"
    );
    assert!(ledger.is_satisfied(MODULUS));
}

#[test]
fn signed_inputs_are_compared_and_added() {
    // function main(a: i16, b: i16) -> (i16, bool) { return (a + b, a < b) }
    let i16t = || Type::Integer(IntegerType::I16);
    let p = || {
        main_only(
            vec![param("a", i16t()), param("b", i16t())],
            Some(Type::Tuple(vec![i16t(), Type::Boolean])),
            vec![ret(Expression::Tuple(
                vec![add(var("a"), var("b")), lt(var("a"), var("b"))],
                span(),
            ))],
        )
    };
    let given = |a: i128, b: i128| {
        inputs(
            vec![
                input("a", i16t(), InputValue::Integer(IntegerType::I16, a)),
                input("b", i16t(), InputValue::Integer(IntegerType::I16, b)),
            ],
            vec![register("sum", i16t()), register("less", Type::Boolean)],
        )
    };
    for (a, b) in [(-32768, 32767), (32767, -32768), (-1, -1), (-300, 200), (0, 0), (-32768, 0)] {
        let (result, ledger) = run(p(), given(a, b));
        assert_eq!(
            result.unwrap(),
            format!("[registers]\nsum: i16 = {};\nless: bool = {};\n", a + b, a < b)
        );
        assert!(ledger.is_satisfied(MODULUS));
    }
    for (a, b) in [(-32768, -1), (32767, 1), (20000, 20000)] {
        let (result, ledger) = run(p(), given(a, b));
        assert!(result.is_err());
        assert!(ledger.is_violated());
    }
}

#[test]
fn an_assertion_on_inputs_decides_whether_the_witness_is_accepted() {
    // function main(a: u8, b: u8) { assert(a * a == b); assert_eq(a + 1u8, 4u8) }
    let p = || {
        main_only(
            vec![param("a", u8t()), param("b", u8t())],
            None,
            vec![
                Statement::Assert(
                    binary(
                        BinaryOperator::Eq,
                        binary(BinaryOperator::Mul, var("a"), var("a")),
                        var("b"),
                    ),
                    span(),
                ),
                assert_eq_stmt(add(var("a"), u8v(1)), u8v(4)),
            ],
        )
    };
    let accepted = |a: i128, b: i128| {
        let (result, ledger) = run(p(), inputs(vec![u8_input("a", a), u8_input("b", b)], vec![]));
        assert!(result.is_ok());
        ledger.is_satisfied(MODULUS)
    };
    assert!(accepted(3, 9));
    assert!(!accepted(3, 8));
    assert!(!accepted(2, 4));
    assert!(!accepted(4, 16));
}

// Functions

fn doubling() -> Function {
    function("double", vec![param("x", u8t())], Some(u8t()), vec![ret(add(var("x"), var("x")))])
}

#[test]
fn a_call_binds_arguments_and_returns_the_value_of_the_body() {
    let p = program(vec![
        doubling(),
        function("main", vec![], Some(u8t()), vec![ret(call("double", vec![call("double", vec![number(4)])]))]),
    ]);
    assert_eq!(run(p, inputs(vec![], vec![register("r", u8t())])).0.unwrap(), "[registers]\nr: u8 = 16;\n");
}

#[test]
fn the_scope_of_a_call_holds_the_parameters_only() {
    let p = program(vec![
        function("peek", vec![], Some(u8t()), vec![ret(var("hidden"))]),
        function("main", vec![], Some(u8t()), vec![declare("hidden", u8v(1)), ret(call("peek", vec![]))]),
    ]);
    let e = expression_error(run(p, inputs(vec![], vec![register("r", u8t())])).0);
    match e {
        ExpressionError::FunctionError(inner) => match *inner {
            FunctionError::StatementError(StatementError::ExpressionError(
                ExpressionError::UndefinedIdentifier(_),
            )) => {}
            other => panic!("{:?}", other),
        },
        other => panic!("{:?}", other),
    }
}

#[test]
fn call_errors() {
    let calling = |functions: Vec<Function>, arguments: Vec<Expression>| {
        let mut all = functions;
        all.push(function("main", vec![], Some(u8t()), vec![ret(call("double", arguments))]));
        expression_error(run(program(all), inputs(vec![], vec![register("r", u8t())])).0)
    };
    assert_eq!(call_reason(calling(vec![doubling()], vec![])), Reason::ArityMismatch);
    assert_eq!(call_reason(calling(vec![doubling()], vec![u8v(1), u8v(2)])), Reason::ArityMismatch);
    assert_eq!(call_reason(calling(vec![doubling()], vec![boolean(true)])), Reason::ArgumentMismatch);
    match calling(vec![], vec![u8v(1)]) {
        ExpressionError::UndefinedIdentifier(_) => {}
        other => panic!("{:?}", other),
    }
    let bad_return = function("double", vec![param("x", u8t())], Some(u8t()), vec![ret(boolean(true))]);
    assert_eq!(call_reason(calling(vec![bad_return], vec![u8v(1)])), Reason::ReturnMismatch);
    let no_return = function("double", vec![param("x", u8t())], Some(u8t()), vec![]);
    assert_eq!(call_reason(calling(vec![no_return], vec![u8v(1)])), Reason::MissingReturn);
    let stray_return = function("double", vec![param("x", u8t())], None, vec![ret(var("x"))]);
    assert_eq!(call_reason(calling(vec![stray_return], vec![u8v(1)])), Reason::ReturnMismatch);

    let p = main_only(vec![], Some(u8t()), vec![declare("double", u8v(1)), ret(call("double", vec![u8v(1)]))]);
    let e = expression_error(run(p, inputs(vec![], vec![register("r", u8t())])).0);
    assert_eq!(call_reason(e), Reason::NotFunction);
}

#[test]
fn a_function_that_calls_itself_runs_out_of_depth() {
    let p = program(vec![
        function("forever", vec![], Some(u8t()), vec![ret(call("forever", vec![]))]),
        function("main", vec![], Some(u8t()), vec![ret(call("forever", vec![]))]),
    ]);
    let mut e = run(p, inputs(vec![], vec![register("r", u8t())])).0.unwrap_err();
    // The failure is wrapped once by each call that it passed.
    let mut depth = 0;
    let reason = loop {
        let inner = match e {
            CompilerError::FunctionError(f) => f,
            other => panic!("{:?}", other),
        };
        match inner {
            FunctionError::StatementError(StatementError::ExpressionError(
                ExpressionError::FunctionError(next),
            )) => {
                depth += 1;
                e = CompilerError::FunctionError(*next);
            }
            FunctionError::Error(f) => break f.reason,
            other => panic!("{:?}", other),
        }
    };
    assert_eq!(reason, Reason::CallDepthExceeded);
    assert_eq!(depth, 65);
}

#[test]
fn a_function_without_a_return_type_returns_nothing() {
    let p = program(vec![
        function("check", vec![param("x", u8t())], None, vec![assert_eq_stmt(var("x"), u8v(1))]),
        function("main", vec![], None, vec![Statement::Expression(call("check", vec![u8v(1)]), span())]),
    ]);
    let (result, ledger) = run(p, inputs(vec![], vec![]));
    assert_eq!(result.unwrap(), "[registers]\n");
    assert!(ledger.is_satisfied(MODULUS));
}

// The driver

#[test]
fn a_program_needs_a_main_function() {
    let p = program(vec![doubling()]);
    let e = run(p, inputs(vec![], vec![])).0;
    assert_eq!(function_reason(e), Reason::MissingEntry);
}

#[test]
fn registers_receive_the_value_returned() {
    let pair = main_only(
        vec![],
        Some(Type::Tuple(vec![u8t(), Type::Boolean])),
        vec![ret(Expression::Tuple(vec![u8v(7), boolean(true)], span()))],
    );
    let two = inputs(vec![], vec![register("a", u8t()), register("b", Type::Boolean)]);
    assert_eq!(run(pair, two).0.unwrap(), "[registers]\na: u8 = 7;\nb: bool = true;\n");

    let mismatch = |registers: Vec<Register>| {
        let p = main_only(vec![], Some(u8t()), vec![ret(u8v(7))]);
        function_reason(run(p, inputs(vec![], registers)).0)
    };
    assert_eq!(mismatch(vec![register("r", Type::Boolean)]), Reason::RegisterMismatch);
    assert_eq!(mismatch(vec![register("a", u8t()), register("b", u8t())]), Reason::RegisterMismatch);
}

#[test]
fn inputs_of_every_type_reach_the_registers() {
    let everything = Type::Tuple(vec![
        Type::Boolean,
        Type::Integer(IntegerType::I16),
        Type::Field,
        Type::Group,
        Type::Array(Box::new(u8t()), 2),
    ]);
    let value = InputValue::Tuple(vec![
        InputValue::Boolean(true),
        InputValue::Integer(IntegerType::I16, -300),
        InputValue::Field(99),
        InputValue::Group(3, 4),
        InputValue::Array(vec![
            InputValue::Integer(IntegerType::U8, 1),
            InputValue::Integer(IntegerType::U8, 2),
        ]),
    ]);
    let p = main_only(vec![param("v", copy_type(&everything))], Some(copy_type(&everything)), vec![ret(var("v"))]);
    let (result, ledger) = run(
        p,
        inputs(vec![input("v", copy_type(&everything), value)], vec![register("r", copy_type(&everything))]),
    );
    assert_eq!(
        result.unwrap(),
        "[registers]\nr: (bool, i16, field, group, [u8; 2]) = (true, -300, 99, (3, 4), [1, 2]);\n"
    );
    assert!(ledger.is_satisfied(MODULUS));
}

#[test]
fn an_input_that_does_not_fit_its_parameter_fails() {
    let p = main_only(vec![param("a", u8t())], None, vec![]);
    let e = run(p, inputs(vec![input("a", Type::Boolean, InputValue::Boolean(true))], vec![])).0;
    match e.unwrap_err() {
        CompilerError::FunctionError(FunctionError::Error(f)) => assert_eq!(f.reason, Reason::InputMismatch),
        other => panic!("{:?}", other),
    }
    let p = main_only(vec![param("a", Type::Circuit("Point".to_string()))], None, vec![]);
    assert_eq!(function_reason(run(p, inputs(vec![], vec![])).0), Reason::InputMismatch);
}

#[test]
fn inputs_are_checked_before_synthesis() {
    let parse = |entries: Vec<Input>, state: Vec<Input>| {
        let mut c = Compiler::new("test".to_string(), PathBuf::new(), PathBuf::new());
        c.parse_inputs(inputs(entries, vec![]), inputs(state, vec![register("r", u8t())])).map(|_| c)
    };
    let c = parse(
        vec![input("a", u8t(), InputValue::Integer(IntegerType::U8, 255))],
        vec![input("b", Type::Boolean, InputValue::Boolean(true))],
    )
    .unwrap();
    assert_eq!(c.inputs().entries.len(), 2);
    assert_eq!(c.inputs().entries[0].name, "a");
    assert_eq!(c.inputs().entries[1].name, "b");
    assert_eq!(c.inputs().registers.len(), 1);

    let out_of_range = parse(vec![input("a", u8t(), InputValue::Integer(IntegerType::U8, 256))], vec![]);
    assert_eq!(
        out_of_range.unwrap_err(),
        CompilerError::InputError(Fault { reason: Reason::InputMismatch, span: Span { line: 0, start: 0, end: 0 } })
    );
    let wrong_type = parse(vec![input("a", u8t(), InputValue::Integer(IntegerType::U16, 1))], vec![]);
    assert!(wrong_type.is_err());
    let wrong_length = parse(
        vec![input("a", Type::Array(Box::new(Type::Boolean), 2), InputValue::Array(vec![InputValue::Boolean(true)]))],
        vec![],
    );
    assert!(wrong_length.is_err());

    // Where both sources declare a name, the declaration of the second stands.
    let mut twice = Compiler::new("test".to_string(), PathBuf::new(), PathBuf::new());
    twice
        .parse_inputs(
            inputs(vec![input("a", Type::Boolean, InputValue::Boolean(true))], vec![]),
            inputs(
                vec![input("a", Type::Boolean, InputValue::Boolean(false))],
                vec![register("r", Type::Boolean)],
            ),
        )
        .unwrap();
    assert_eq!(twice.inputs().entries.len(), 2);
    twice
        .parse_program(
            main_only(vec![param("a", Type::Boolean)], Some(Type::Boolean), vec![ret(var("a"))]),
            vec![],
        )
        .unwrap();
    let mut ledger = ConstraintLedger::new();
    let text = twice.generate_constraints_helper(&mut ledger).unwrap();
    assert_eq!(text.bytes().as_slice(), b"[registers]\nr: bool = false;\n");
}

/// `function main(a: u8, b: u8) -> u8 { return a + b }`
fn adding() -> Program {
    main_only(vec![param("a", u8t()), param("b", u8t())], Some(u8t()), vec![ret(add(var("a"), var("b")))])
}

fn a_and_b(a: i128, b: i128) -> Inputs {
    inputs(
        vec![
            input("a", u8t(), InputValue::Integer(IntegerType::U8, a)),
            input("b", u8t(), InputValue::Integer(IntegerType::U8, b)),
        ],
        vec![register("r", u8t())],
    )
}

#[test]
fn a_witness_that_leaves_its_type_never_wraps() {
    let (result, ledger) = run(adding(), a_and_b(200, 55));
    assert_eq!(result.unwrap(), "[registers]\nr: u8 = 255;\n");
    assert!(ledger.is_satisfied(MODULUS));

    let (result, ledger) = run(adding(), a_and_b(200, 56));
    match result.unwrap_err() {
        CompilerError::FunctionError(FunctionError::IntegerError(IntegerError::Error(f))) => {
            assert_eq!(f, Fault { reason: Reason::Overflow, span: at(7) })
        }
        other => panic!("{:?}", other),
    }
    assert!(ledger.is_violated());
    assert!(!ledger.is_satisfied(MODULUS));
}

#[test]
fn a_program_without_assertions_is_satisfied_by_its_witness() {
    for (a, b) in [(0, 0), (1, 2), (100, 155), (255, 0)] {
        let (result, ledger) = run(adding(), a_and_b(a, b));
        assert!(result.is_ok());
        assert!(ledger.is_satisfied(MODULUS));
        assert!(ledger.is_satisfied(2147483647));
    }
}

#[test]
fn synthesis_is_deterministic() {
    let (first, first_ledger) = run(branching(), condition(true));
    let (second, second_ledger) = run(branching(), condition(true));
    assert_eq!(first.unwrap(), second.unwrap());
    assert_eq!(first_ledger.num_constraints(), second_ledger.num_constraints());
    assert_eq!(first_ledger.num_variables(), second_ledger.num_variables());
    for w in 0..first_ledger.num_variables() {
        assert_eq!(first_ledger.value(w), second_ledger.value(w));
    }
}

#[test]
fn synthesis_without_a_witness_gives_the_same_shape() {
    let mut blind = ConstraintLedger::new();
    let text = compiler(adding(), a_and_b(1, 2)).compile_constraints(&mut blind).unwrap();
    assert_eq!(text.bytes().as_slice(), b"[registers]\nr: u8 = [allocated];\n");
    assert!(!blind.is_satisfied(MODULUS));

    let (_, sighted) = run(adding(), a_and_b(1, 2));
    assert_eq!(blind.num_constraints(), sighted.num_constraints());
    assert_eq!(blind.num_variables(), sighted.num_variables());

    // An input that is not given at all is left open as well.
    let (result, open) = run(adding(), inputs(vec![], vec![register("r", u8t())]));
    assert_eq!(result.unwrap(), "[registers]\nr: u8 = [allocated];\n");
    assert_eq!(open.num_constraints(), sighted.num_constraints());
}

#[test]
fn the_other_entries_of_the_compiler() {
    let mut ledger = ConstraintLedger::new();
    assert_eq!(compiler(adding(), a_and_b(1, 2)).compile_test_constraints(&mut ledger), Ok(()));
    assert!(ledger.is_satisfied(MODULUS));

    let mut ledger = ConstraintLedger::new();
    let text = compiler(adding(), a_and_b(1, 2)).generate_constraints(&mut ledger).unwrap();
    assert_eq!(text.bytes().as_slice(), b"[registers]\nr: u8 = 3;\n");

    let mut ledger = ConstraintLedger::new();
    let failed = compiler(adding(), a_and_b(255, 1)).generate_constraints(&mut ledger);
    match failed.unwrap_err() {
        SynthesisError::Malformed(CompilerError::FunctionError(FunctionError::IntegerError(
            IntegerError::Error(f),
        ))) => assert_eq!(f.reason, Reason::Overflow),
        other => panic!("{:?}", other),
    }

    let mut ledger = ConstraintLedger::new();
    let failed = compiler(program(vec![]), inputs(vec![], vec![])).compile_test_constraints(&mut ledger);
    assert!(failed.is_err());
}

// Parsing and linking

fn package(name: &str, functions: Vec<Function>, circuits: Vec<Circuit>) -> Program {
    Program { name: name.to_string(), imports: vec![], circuits, functions }
}

fn import(package: &str, symbol: &str) -> Import {
    Import { package: package.to_string(), symbol: symbol.to_string(), span: at(2) }
}

fn linking(imports: Vec<Import>, packages: Vec<Program>) -> Result<Compiler, CompilerError> {
    let mut p = main_only(vec![], Some(u8t()), vec![ret(call("double", vec![u8v(21)]))]);
    p.imports = imports;
    Compiler::parse_program_without_inputs(
        "name".to_string(),
        PathBuf::from("main.leo"),
        PathBuf::from("outputs"),
        p,
        packages,
    )
}

#[test]
fn imports_bring_the_definitions_of_their_package() {
    let c = linking(
        vec![import("math", "double"), import("shapes", "Point")],
        vec![package("shapes", vec![], vec![point()]), package("math", vec![doubling()], vec![])],
    )
    .unwrap();
    assert_eq!(c.package_name(), "name");
    assert_eq!(c.program().name, "name");
    assert_eq!(c.main_file_path(), &PathBuf::from("main.leo"));
    assert_eq!(c.outputs_directory(), &PathBuf::from("outputs"));
    let names: Vec<&str> = c.program().functions.iter().map(|f| f.name.name.as_str()).collect();
    assert_eq!(names, vec!["double", "main"]);
    assert_eq!(c.program().circuits.len(), 1);
    assert_eq!(c.program().imports.len(), 2);

    let mut ledger = ConstraintLedger::new();
    let mut c = c;
    c.parse_inputs(inputs(vec![], vec![register("r", u8t())]), inputs(vec![], vec![])).unwrap();
    let text = c.generate_constraints_helper(&mut ledger).unwrap();
    assert_eq!(text.bytes().as_slice(), b"[registers]\nr: u8 = 42;\n");
}

#[test]
fn import_errors() {
    let unresolved = linking(vec![import("math", "double")], vec![]).unwrap_err();
    assert_eq!(unresolved, CompilerError::ImportError(Fault { reason: Reason::UnresolvedImport, span: at(2) }));
    let unknown = linking(vec![import("math", "triple")], vec![package("math", vec![doubling()], vec![])]).unwrap_err();
    assert_eq!(unknown, CompilerError::ImportError(Fault { reason: Reason::UnknownSymbol, span: at(2) }));
}

fn function_names(c: &Compiler) -> Vec<&str> {
    c.program().functions.iter().map(|f| f.name.name.as_str()).collect()
}

/// The text of the register `r: u8` that the compiler leaves.
fn result_of(mut c: Compiler) -> String {
    c.parse_inputs(inputs(vec![], vec![register("r", u8t())]), inputs(vec![], vec![])).unwrap();
    let mut ledger = ConstraintLedger::new();
    let text = c.generate_constraints_helper(&mut ledger).unwrap();
    String::from_utf8(text.bytes().clone()).unwrap()
}

/// `function triple(x: u8) -> u8 { return x + x + x }`
fn tripling() -> Function {
    function(
        "triple",
        vec![param("x", u8t())],
        Some(u8t()),
        vec![ret(add(add(var("x"), var("x")), var("x")))],
    )
}

/// A function `main` of a package, which returns 7.
fn their_main() -> Function {
    function("main", vec![], Some(u8t()), vec![ret(u8v(7))])
}

#[test]
fn many_imports_may_name_one_package() {
    // Two symbols of one package, which is given once.
    let mut p = main_only(
        vec![],
        Some(u8t()),
        vec![ret(add(call("double", vec![u8v(1)]), call("triple", vec![u8v(1)])))],
    );
    p.imports = vec![import("math", "double"), import("math", "triple"), import("math", "Point")];
    let c = Compiler::parse_program_without_inputs(
        "name".to_string(),
        PathBuf::new(),
        PathBuf::new(),
        p,
        vec![package("math", vec![doubling(), their_main(), tripling()], vec![point()])],
    )
    .unwrap();
    assert_eq!(function_names(&c), vec!["double", "triple", "main"]);
    assert_eq!(c.program().circuits.len(), 1);
    assert_eq!(result_of(c), "[registers]\nr: u8 = 5;\n");

    // One symbol that is imported twice is brought once.
    let c = linking(
        vec![import("math", "double"), import("math", "double")],
        vec![package("math", vec![doubling()], vec![])],
    )
    .unwrap();
    assert_eq!(function_names(&c), vec!["double", "main"]);
    assert_eq!(result_of(c), "[registers]\nr: u8 = 42;\n");
}

#[test]
fn an_import_brings_what_it_names_and_nothing_else() {
    // The package has a `main` of its own and a circuit that nothing imports.
    let c = linking(
        vec![import("math", "double")],
        vec![
            package("unused", vec![tripling()], vec![]),
            package("math", vec![their_main(), doubling(), tripling()], vec![point()]),
        ],
    )
    .unwrap();
    assert_eq!(function_names(&c), vec!["double", "main"]);
    assert!(c.program().circuits.is_empty());
    assert_eq!(result_of(c), "[registers]\nr: u8 = 42;\n");
}

#[test]
fn a_definition_of_the_program_stands_before_an_imported_one() {
    // function double(x: u8) -> u8 { return x }, beside an imported `double`.
    let own = function("double", vec![param("x", u8t())], Some(u8t()), vec![ret(var("x"))]);
    let mut p = program(vec![
        own,
        function("main", vec![], Some(u8t()), vec![ret(call("double", vec![u8v(21)]))]),
    ]);
    p.imports = vec![import("math", "double")];
    let c = Compiler::parse_program_without_inputs(
        "name".to_string(),
        PathBuf::new(),
        PathBuf::new(),
        p,
        vec![package("math", vec![doubling()], vec![])],
    )
    .unwrap();
    assert_eq!(function_names(&c), vec!["double", "double", "main"]);
    assert_eq!(result_of(c), "[registers]\nr: u8 = 21;\n");

    // Of two packages that give one name, the one given later stands.
    let c = linking(
        vec![import("math", "double"), import("more", "double")],
        vec![
            package("math", vec![doubling()], vec![]),
            package(
                "more",
                vec![function("double", vec![param("x", u8t())], Some(u8t()), vec![ret(u8v(0))])],
                vec![],
            ),
        ],
    )
    .unwrap();
    assert_eq!(function_names(&c), vec!["double", "double", "main"]);
    assert_eq!(result_of(c), "[registers]\nr: u8 = 0;\n");

    // Of two packages of one name, imports are resolved to the later one.
    let c = linking(
        vec![import("math", "double")],
        vec![
            package("math", vec![tripling()], vec![]),
            package("math", vec![doubling()], vec![]),
        ],
    )
    .unwrap();
    assert_eq!(function_names(&c), vec!["double", "main"]);
}

#[test]
fn parsing_again_replaces_the_program() {
    let first = || {
        let mut p = main_only(vec![], Some(u8t()), vec![ret(call("double", vec![u8v(21)]))]);
        p.imports = vec![import("math", "double")];
        p
    };
    let second = || {
        let mut p = main_only(vec![], Some(u8t()), vec![ret(call("triple", vec![u8v(2)]))]);
        p.imports = vec![import("math", "triple"), import("math", "double")];
        p
    };
    let math = || vec![package("math", vec![doubling(), tripling()], vec![])];
    let fresh = || Compiler::new("name".to_string(), PathBuf::new(), PathBuf::new());

    let mut c = fresh();
    assert_eq!(c.parse_program(first(), math()), Ok(()));
    assert_eq!(function_names(&c), vec!["double", "main"]);
    assert_eq!(c.parse_program(second(), math()), Ok(()));
    let mut only_second = fresh();
    assert_eq!(only_second.parse_program(second(), math()), Ok(()));
    assert_eq!(format!("{:?}", c.program()), format!("{:?}", only_second.program()));
    assert_eq!(function_names(&c), vec!["double", "triple", "main"]);
    assert_eq!(result_of(c), "[registers]\nr: u8 = 6;\n");

    // The same program again leaves the compiler as it was.
    let mut c = fresh();
    assert_eq!(c.parse_program(first(), math()), Ok(()));
    let before = format!("{:?}", c.program());
    assert_eq!(c.parse_program(first(), math()), Ok(()));
    assert_eq!(format!("{:?}", c.program()), before);

    // A program whose import cannot be resolved leaves the compiler as it was.
    assert_eq!(
        c.parse_program(second(), vec![]),
        Err(CompilerError::ImportError(Fault { reason: Reason::UnresolvedImport, span: at(2) }))
    );
    assert_eq!(format!("{:?}", c.program()), before);
}

#[test]
fn a_new_compiler_holds_an_empty_program() {
    let c = Compiler::new("fresh".to_string(), PathBuf::new(), PathBuf::new());
    assert_eq!(c.package_name(), "fresh");
    assert_eq!(c.program().name, "fresh");
    assert!(c.program().functions.is_empty());
    assert!(c.program().circuits.is_empty());
    assert!(c.program().imports.is_empty());
    assert!(c.inputs().entries.is_empty());
    assert!(c.inputs().registers.is_empty());
    let mut ledger = ConstraintLedger::new();
    match c.compile_constraints(&mut ledger).unwrap_err() {
        CompilerError::InFile(path, cause) => {
            assert_eq!(path, PathBuf::new());
            match *cause {
                CompilerError::FunctionError(FunctionError::Error(f)) => {
                    assert_eq!(f.reason, Reason::MissingEntry)
                }
                other => panic!("{:?}", other),
            }
        }
        other => panic!("{:?}", other),
    }
}

fn not_boolean() -> ExpressionError {
    ExpressionError::BooleanError(BooleanError::Error(Fault {
        reason: Reason::NotBoolean,
        span: span(),
    }))
}

fn not(operand: Expression) -> Expression {
    Expression::Not(Box::new(operand), span())
}

#[test]
fn a_number_without_a_type_is_no_operand_of_a_boolean_operator() {
    let and = |left, right| expression_error(value_of(Type::Boolean, binary(BinaryOperator::And, left, right)));
    let or = |left, right| expression_error(value_of(Type::Boolean, binary(BinaryOperator::Or, left, right)));
    assert_eq!(and(boolean(true), number(1)), not_boolean());
    assert_eq!(and(number(1), boolean(true)), not_boolean());
    assert_eq!(and(number(1), number(0)), not_boolean());
    assert_eq!(and(u32v(1), number(1)), not_boolean());
    assert_eq!(or(boolean(true), number(1)), not_boolean());
    assert_eq!(or(number(0), boolean(false)), not_boolean());
    assert_eq!(or(number(1), number(1)), not_boolean());
    assert_eq!(or(boolean(false), u32v(0)), not_boolean());
    assert_eq!(expression_error(value_of(Type::Boolean, not(number(1)))), not_boolean());
    assert_eq!(expression_error(value_of(Type::Boolean, not(u32v(1)))), not_boolean());
    // Every other operator gives the number the type of the other operand.
    assert_eq!(value_of(u8t(), add(u8v(1), number(2))).unwrap(), "3");
    // Facing a boolean it takes no type, and the operator refuses the pair.
    let e = expression_error(value_of(u8t(), add(boolean(true), number(1))));
    assert_eq!(integer_reason(e), Reason::NotInteger);
    let e = expression_error(value_of(u8t(), add(number(1), boolean(true))));
    assert_eq!(integer_reason(e), Reason::NotInteger);
    let e = expression_error(value_of(Type::Boolean, binary(BinaryOperator::Lt, number(1), boolean(true))));
    assert_eq!(integer_reason(e), Reason::NotInteger);
    let e = expression_error(value_of(Type::Boolean, binary(BinaryOperator::Eq, boolean(true), number(1))));
    assert_eq!(plain_reason(e), Reason::IncompatibleTypes);
    // Booleans are still combined.
    let both = value_of(Type::Boolean, binary(BinaryOperator::And, boolean(true), boolean(false)));
    assert_eq!(both.unwrap(), "false");
}

/// `function main(a: bool, b: bool) { assert_eq(a, b) }`
fn equal_inputs(a: bool, b: bool) -> Compiler {
    let p = main_only(
        vec![param("a", Type::Boolean), param("b", Type::Boolean)],
        None,
        vec![assert_eq_stmt(var("a"), var("b"))],
    );
    let given = inputs(
        vec![
            input("a", Type::Boolean, InputValue::Boolean(a)),
            input("b", Type::Boolean, InputValue::Boolean(b)),
        ],
        vec![],
    );
    compiler(p, given)
}

#[test]
fn a_program_that_cannot_be_synthesized_is_not_unsatisfiable() {
    // A malformed program: the cause and its place reach the caller.
    let p = main_only(vec![], Some(Type::Boolean), vec![ret(not(u32v(1)))]);
    let mut ledger = ConstraintLedger::new();
    let failed = compiler(p, inputs(vec![], vec![register("r", Type::Boolean)]))
        .generate_constraints(&mut ledger)
        .unwrap_err();
    assert_ne!(failed, SynthesisError::Unsatisfiable);
    assert_eq!(
        failed,
        SynthesisError::Malformed(CompilerError::FunctionError(FunctionError::StatementError(
            StatementError::ExpressionError(not_boolean())
        )))
    );
    let p = main_only(vec![], Some(u8t()), vec![ret(var("nothing"))]);
    let mut ledger = ConstraintLedger::new();
    match compiler(p, inputs(vec![], vec![])).generate_constraints(&mut ledger).unwrap_err() {
        SynthesisError::Malformed(CompilerError::FunctionError(FunctionError::StatementError(
            StatementError::ExpressionError(ExpressionError::UndefinedIdentifier(f)),
        ))) => assert_eq!(f, Fault { reason: Reason::UndefinedIdentifier, span: span() }),
        other => panic!("{:?}", other),
    }

    // A well-formed program whose witness fails its assertion: the synthesis
    // succeeds, and the finished ledger is unsatisfiable.
    let mut ledger = ConstraintLedger::new();
    assert!(equal_inputs(true, false).generate_constraints(&mut ledger).is_ok());
    assert_eq!(ledger.verdict(MODULUS), Err(SynthesisError::Unsatisfiable));
    assert!(!ledger.is_satisfied(MODULUS));

    // The same program with a witness that fulfils it.
    let mut ledger = ConstraintLedger::new();
    assert!(equal_inputs(true, true).generate_constraints(&mut ledger).is_ok());
    assert_eq!(ledger.verdict(MODULUS), Ok(()));
    assert_eq!(ledger.verdict(2), Ok(()));
    // No field has the modulus zero.
    assert_eq!(ledger.verdict(0), Err(SynthesisError::Unsatisfiable));
}

#[test]
fn only_an_assertion_that_is_reached_can_fail() {
    // function never() { assert(false) }
    let never = || function("never", vec![], None, vec![Statement::Assert(boolean(false), span())]);
    let returning = |body: Vec<Statement>| {
        let mut body = body;
        body.push(ret(add(u8v(1), u8v(2))));
        program(vec![never(), function("main", vec![], Some(u8t()), body)])
    };
    let registers = || inputs(vec![], vec![register("r", u8t())]);

    let demands = |ledger: &ConstraintLedger| {
        (0..ledger.num_constraints()).filter(|i| ledger.is_demand(*i)).count()
    };

    // The assertion stands in a function that nothing calls.
    let (result, ledger) = run(returning(vec![]), registers());
    assert_eq!(result.unwrap(), "[registers]\nr: u8 = 3;\n");
    assert!(!ledger.is_asserted());
    assert_eq!(demands(&ledger), 0);
    assert_eq!(ledger.verdict(MODULUS), Ok(()));

    // The function is called: the assertion is reached, and fails.
    let called = vec![Statement::Expression(call("never", vec![]), span())];
    let (result, ledger) = run(returning(called), registers());
    assert!(result.is_ok());
    assert!(ledger.is_asserted());
    assert_eq!(demands(&ledger), 1);
    assert_eq!(ledger.verdict(MODULUS), Err(SynthesisError::Unsatisfiable));
    // The one constraint that does not hold is the demand of the assertion:
    // the wire of `false`, which is pinned by the constraint before it.
    assert!(ledger.is_demand(1));
    assert!(!ledger.is_demand(0));

    // It is reached in the branch that the condition does not select, too.
    let guarded = vec![Statement::Conditional(
        boolean(false),
        vec![Statement::Expression(call("never", vec![]), span())],
        vec![],
        span(),
    )];
    let (result, ledger) = run(returning(guarded), registers());
    assert!(result.is_ok());
    assert!(ledger.is_asserted());

    // An assertion that holds is reached as well, and the ledger is satisfied.
    let holding = vec![assert_eq_stmt(u8v(1), u8v(1)), Statement::Assert(boolean(true), span())];
    let (result, ledger) = run(returning(holding), registers());
    assert!(result.is_ok());
    assert!(ledger.is_asserted());
    assert_eq!(demands(&ledger), 8 + 1);
    assert_eq!(ledger.verdict(MODULUS), Ok(()));

    // Whether one is reached does not depend on the inputs.
    assert!(!ConstraintLedger::new().is_asserted());
    let mut with = ConstraintLedger::new();
    let mut without = ConstraintLedger::new();
    assert!(equal_inputs(true, false).generate_constraints(&mut with).is_ok());
    assert!(equal_inputs(true, true).compile_constraints(&mut without).is_ok());
    assert!(with.is_asserted() && without.is_asserted());
}

#[test]
fn a_program_without_assertions_is_never_unsatisfiable() {
    for (a, b) in [(0, 0), (1, 2), (200, 55), (17, 4)] {
        let mut ledger = ConstraintLedger::new();
        assert!(compiler(adding(), a_and_b(a, b)).generate_constraints(&mut ledger).is_ok());
        assert_eq!(ledger.verdict(MODULUS), Ok(()));
    }
    let mut ledger = ConstraintLedger::new();
    let p = main_only(vec![], Some(Type::Boolean), vec![ret(boolean(true))]);
    let c = compiler(p, inputs(vec![], vec![register("r", Type::Boolean)]));
    assert!(c.compile_constraints(&mut ledger).is_ok());
    assert_eq!(ledger.verdict(MODULUS), Ok(()));
}

#[test]
fn an_error_of_compile_constraints_names_the_main_file() {
    let p = main_only(vec![], Some(Type::Boolean), vec![ret(not(u32v(1)))]);
    let c = Compiler::parse_program_without_inputs(
        "test".to_string(),
        PathBuf::from("/a/main.leo"),
        PathBuf::from("/a/out"),
        p,
        vec![],
    )
    .unwrap();
    let mut ledger = ConstraintLedger::new();
    match c.compile_constraints(&mut ledger).unwrap_err() {
        CompilerError::InFile(path, cause) => {
            assert_eq!(path, PathBuf::from("/a/main.leo"));
            assert_eq!(
                *cause,
                CompilerError::FunctionError(FunctionError::StatementError(
                    StatementError::ExpressionError(not_boolean())
                ))
            );
        }
        other => panic!("{:?}", other),
    }
}

#[test]
fn a_compiler_for_a_compiled_program_takes_its_name_from_the_program() {
    let c = Compiler::from_program(adding(), PathBuf::new(), PathBuf::new());
    assert_eq!(c.package_name(), "test");
    assert_eq!(format!("{:?}", c.program()), format!("{:?}", adding()));
    assert_eq!(c.main_file_path(), &PathBuf::new());
    assert_eq!(c.outputs_directory(), &PathBuf::new());
    assert!(c.inputs().entries.is_empty());
    assert!(c.inputs().registers.is_empty());

    let c = Compiler::from_program(adding(), PathBuf::from("/b/main.leo"), PathBuf::from("/b/out"));
    assert_eq!(c.main_file_path(), &PathBuf::from("/b/main.leo"));
    assert_eq!(c.outputs_directory(), &PathBuf::from("/b/out"));
    assert_eq!(format!("{:?}", c.into_program()), format!("{:?}", adding()));
}

#[test]
fn the_program_of_a_compiler_bears_the_name_of_the_package() {
    let syntax = || Program { name: "other".to_string(), imports: vec![], circuits: vec![], functions: vec![doubling()] };
    let c = Compiler::parse_program_without_inputs(
        "package".to_string(),
        PathBuf::from("/a/main.leo"),
        PathBuf::from("/a/out"),
        syntax(),
        vec![],
    )
    .unwrap();
    assert_eq!(c.package_name(), "package");
    assert_eq!(c.program().name, "package");
    assert_eq!(c.main_file_path(), &PathBuf::from("/a/main.leo"));
    assert_eq!(c.outputs_directory(), &PathBuf::from("/a/out"));
    assert_eq!(c.program().functions.len(), 1);
    assert!(c.inputs().entries.is_empty());

    let c = Compiler::parse_program_with_inputs(
        "package".to_string(),
        PathBuf::new(),
        PathBuf::new(),
        a_and_b(1, 2),
        inputs(vec![], vec![]),
        syntax(),
        vec![],
    )
    .unwrap();
    assert_eq!(c.program().name, "package");
    assert_eq!(c.inputs().entries.len(), 2);
}

#[test]
fn an_error_of_the_branch_that_is_not_taken_is_raised() {
    let failing = || vec![Statement::Expression(not(u32v(1)), span())];
    let sound = || vec![Statement::Expression(not(boolean(true)), span())];
    let with = |condition: bool, first: Vec<Statement>, second: Vec<Statement>| {
        let p = main_only(
            vec![],
            None,
            vec![Statement::Conditional(boolean(condition), first, second, span())],
        );
        run(p, inputs(vec![], vec![])).0
    };
    assert_eq!(expression_error(with(false, failing(), sound())), not_boolean());
    assert_eq!(expression_error(with(true, sound(), failing())), not_boolean());
    assert_eq!(expression_error(with(true, failing(), sound())), not_boolean());
    assert_eq!(expression_error(with(false, sound(), failing())), not_boolean());
    assert!(with(false, sound(), sound()).is_ok());
    assert!(with(true, sound(), sound()).is_ok());
}

#[test]
fn a_number_outside_the_declared_type_is_not_bound() {
    for (ty, value) in [
        (IntegerType::U8, 256),
        (IntegerType::U8, -1),
        (IntegerType::U16, 65536),
        (IntegerType::I8, 128),
    ] {
        let p = main_only(
            vec![],
            Some(Type::Integer(ty)),
            vec![declare_as("x", Type::Integer(ty), number(value)), ret(var("x"))],
        );
        let (result, ledger) = run(p, inputs(vec![], vec![register("r", Type::Integer(ty))]));
        assert_eq!(integer_reason(expression_error(result)), Reason::OutOfRange);
        assert_eq!(ledger.num_constraints(), 0);
    }
    let p = main_only(
        vec![],
        Some(u8t()),
        vec![declare_as("x", u8t(), number(255)), ret(var("x"))],
    );
    let (result, ledger) = run(p, inputs(vec![], vec![register("r", u8t())]));
    assert_eq!(result.unwrap(), "[registers]\nr: u8 = 255;\n");
    assert_eq!(ledger.verdict(MODULUS), Ok(()));
}

#[test]
fn the_checksum_is_the_sha256_digest_in_hexadecimal() {
    let c = Compiler::new("test".to_string(), PathBuf::new(), PathBuf::new());
    assert_eq!(
        c.checksum(""),
        "e3b0c44298fc1c149afbf4c8996fb92427ae41e4649b934ca495991b7852b855"
    );
    assert_eq!(
        c.checksum("abc"),
        "ba7816bf8f01cfea414140de5dae2223b00361a396177a9cb410ff61f20015ad"
    );
    assert_eq!(
        c.checksum("function main() {}\n").len(),
        64
    );
    assert_ne!(c.checksum("function main() {}\n"), c.checksum("function main() {}"));
}

#[test]
fn nodes_know_their_span() {
    let mut e = add(u8v(1), u8v(2));
    assert_eq!(e.span(), span());
    e.set_span(at(9));
    assert_eq!(e.span(), at(9));
    let mut s = ret(boolean(true));
    s.set_span(at(3));
    assert_eq!(s.span(), at(3));
    let mut i = id("x");
    i.set_span(at(4));
    assert_eq!(i.span(), at(4));
    assert_eq!(i.name, "x");
    let mut f = doubling();
    assert_eq!(f.span(), at(7));
    f.set_span(at(5));
    assert_eq!(f.span(), at(5));
    for (mut e, line) in [
        (var("x"), 11),
        (boolean(true), 12),
        (number(1), 13),
        (Expression::Field(1, span()), 14),
        (array(vec![]), 15),
        (call("f", vec![]), 16),
    ] {
        e.set_span(at(line));
        assert_eq!(e.span(), at(line));
    }
}

#[test]
fn every_reason_has_a_message() {
    assert_eq!(Reason::NotBoolean.message(), "expected a boolean operand");
    assert_eq!(Reason::Overflow.message(), "a witness value left the range of its integer type");
    assert_eq!(Reason::MissingEntry.message(), "the program has no function named main");
    for reason in [
        Reason::NotInteger,
        Reason::IntegerTypesDiffer,
        Reason::OutOfRange,
        Reason::IncompatibleTypes,
        Reason::UnresolvedNumber,
        Reason::Unrepresentable,
        Reason::UndefinedIdentifier,
        Reason::NotArray,
        Reason::InvalidIndex,
        Reason::IndexOutOfBounds,
        Reason::EmptyArray,
        Reason::NotTuple,
        Reason::NotCircuit,
        Reason::UndefinedCircuit,
        Reason::UndefinedMember,
        Reason::MemberMismatch,
        Reason::NotFunction,
        Reason::ArityMismatch,
        Reason::ArgumentMismatch,
        Reason::ReturnMismatch,
        Reason::MissingReturn,
        Reason::CallDepthExceeded,
        Reason::DefinitionMismatch,
        Reason::AssignmentMismatch,
        Reason::BranchMismatch,
        Reason::LoopBoundNotConstant,
        Reason::IndexNotConstant,
        Reason::InputMismatch,
        Reason::RegisterMismatch,
        Reason::UnresolvedImport,
        Reason::UnknownSymbol,
    ] {
        assert!(!reason.message().is_empty());
    }
}
