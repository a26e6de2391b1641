//! The program driver: binds the inputs to the parameters of the entry
//! function, synthesizes its body and collects the output registers.

use crate::calls::{enter_spec, find_function, function_position};
use crate::errors::{
    CompilerError, ExpressionError, Fault, FunctionError, IntegerError, Reason, StatementError,
};
use crate::inputs::{
    allocate, allocate_spec, allocation_holds, input_fits, input_position, is_supported,
    supported, Input, InputValue, Inputs,
};
use crate::ledger::{
    terms_known, terms_within, wire_known, ConstraintLedger, LedgerModel, Term,
};
use crate::operators::outcome;
use crate::output::{output_spec, write_registers, OutputBytes};
use crate::program::{Function, Parameter, Program, Span, Statement, Type};
use crate::scope::{scope_push, ScopeModel};
use crate::synthesizer::{
    assertion_free, block_spec, call, call_spec, evaluate_spec, leading,
    lemma_branch_error_surfaces, lemma_definition_refused, lemma_leading_error, statement_spec,
    MAX_CALL_DEPTH,
};
use crate::value::{
    lemma_models_push, lemma_values_ok_extends, models, no_values, value_ok, values_ok, Scalar,
    Value, ValueModel,
};
use vstd::prelude::*;

verus! {

/// The place of what has no place in the source.
pub open spec fn nowhere() -> Span {
    Span { line: 0, start: 0, end: 0 }
}

pub open spec fn input_fault(span: Span) -> FunctionError {
    FunctionError::Error(Fault { reason: Reason::InputMismatch, span })
}

/// The value that the inputs give for a parameter, if they give one and
/// `witness` says to use it.
pub open spec fn input_for(entries: Seq<Input>, parameter: Parameter, witness: bool) -> Option<
    InputValue,
> {
    match input_position(entries, parameter.name.name@, entries.len()) {
        Some(k) => if witness {
            entries[k as int].value
        } else {
            None
        },
        None => None,
    }
}

/// The inputs give a value for every parameter.
pub open spec fn inputs_given(entries: Seq<Input>, parameters: Seq<Parameter>, witness: bool) -> bool {
    forall|i: int|
        0 <= i < parameters.len() ==> input_for(entries, #[trigger] parameters[i], witness) is Some
}

/// The arguments of the entry function from parameter `index` on: each
/// parameter gets fresh wires, with the witness that the inputs give for it or
/// without one. A parameter of a type that names a circuit, and an input that
/// does not have the type of its parameter, are errors.
pub open spec fn arguments_spec(
    ledger: LedgerModel,
    parameters: Seq<Parameter>,
    entries: Seq<Input>,
    witness: bool,
    index: nat,
    done: Seq<ValueModel>,
) -> (Result<Seq<ValueModel>, FunctionError>, LedgerModel)
    decreases parameters.len() - index,
{
    if index >= parameters.len() {
        (Ok(done), ledger)
    } else {
        let parameter = parameters[index as int];
        let value = input_for(entries, parameter, witness);
        if !supported(parameter.ty) {
            (Err(input_fault(parameter.name.span)), ledger)
        } else if value matches Some(v) && !input_fits(v, parameter.ty) {
            (Err(input_fault(parameter.name.span)), ledger)
        } else {
            let r = allocate_spec(ledger, parameter.ty, value);
            arguments_spec(r.1, parameters, entries, witness, index + 1, done.push(r.0))
        }
    }
}

/// The error of a call, as the caller of the entry function sees it.
pub open spec fn surfaced(error: ExpressionError) -> FunctionError {
    match error {
        ExpressionError::FunctionError(inner) => *inner,
        other => FunctionError::ExpressionError(other),
    }
}

/// What the synthesis of a program gives: the text of its output registers
/// and the ledger. The entry function is the function named `main`. Where
/// `witness` is not set, the values of the inputs are left aside and every
/// parameter gets wires without a witness.
pub open spec fn synthesize_spec(
    program: Program,
    inputs: Inputs,
    witness: bool,
    ledger: LedgerModel,
) -> (Result<Seq<u8>, CompilerError>, LedgerModel) {
    match function_position(program.functions@, "main"@, program.functions@.len()) {
        None => (
            Err(
                CompilerError::FunctionError(
                    FunctionError::Error(Fault { reason: Reason::MissingEntry, span: nowhere() }),
                ),
            ),
            ledger,
        ),
        Some(entry) => {
            let function = program.functions@[entry as int];
            let a = arguments_spec(
                ledger,
                function.parameters@,
                inputs.entries@,
                witness,
                0,
                Seq::empty(),
            );
            match a.0 {
                Err(e) => (Err(CompilerError::FunctionError(e)), a.1),
                Ok(arguments) => {
                    let c = call_spec(
                        program,
                        a.1,
                        ValueModel::Scalar(Scalar::Function(entry as usize)),
                        arguments,
                        MAX_CALL_DEPTH as nat,
                        function.span,
                    );
                    match c.0 {
                        Err(e) => (Err(CompilerError::FunctionError(surfaced(e))), c.1),
                        Ok(value) => if c.1.violated {
                            (
                                Err(
                                    CompilerError::FunctionError(
                                        FunctionError::IntegerError(
                                            IntegerError::Error(
                                                Fault {
                                                    reason: Reason::Overflow,
                                                    span: function.span,
                                                },
                                            ),
                                        ),
                                    ),
                                ),
                                c.1,
                            )
                        } else {
                            match output_spec(inputs.registers@, value, c.1) {
                                Some(text) => (Ok(text), c.1),
                                None => (
                                    Err(
                                        CompilerError::FunctionError(
                                            FunctionError::Error(
                                                Fault {
                                                    reason: Reason::RegisterMismatch,
                                                    span: function.span,
                                                },
                                            ),
                                        ),
                                    ),
                                    c.1,
                                ),
                            }
                        },
                    }
                },
            }
        },
    }
}

/// The inputs give a value for every parameter of the entry function, and
/// `witness` says to use them.
pub open spec fn witness_given(program: Program, inputs: Inputs, witness: bool) -> bool {
    match function_position(program.functions@, "main"@, program.functions@.len()) {
        Some(entry) => inputs_given(
            inputs.entries@,
            program.functions@[entry as int].parameters@,
            witness,
        ),
        None => true,
    }
}

/// Synthesis is deterministic: two syntheses of one program with the same
/// inputs, each into a fresh ledger of its own, give the same outcome, the
/// same output registers and ledgers of the same wires and constraints.
pub proof fn lemma_synthesis_deterministic(
    program: Program,
    inputs: Inputs,
    witness: bool,
    first: LedgerModel,
    second: LedgerModel,
)
    requires
        first == LedgerModel::empty(),
        second == LedgerModel::empty(),
    ensures
        synthesize_spec(program, inputs, witness, first).0 == synthesize_spec(
            program,
            inputs,
            witness,
            second,
        ).0,
        synthesize_spec(program, inputs, witness, first).1.constraints.len() == synthesize_spec(
            program,
            inputs,
            witness,
            second,
        ).1.constraints.len(),
        synthesize_spec(program, inputs, witness, first).1 == synthesize_spec(
            program,
            inputs,
            witness,
            second,
        ).1,
{
}

/// The scope and the ledger in which the body of the entry function starts:
/// the parameters are bound to fresh wires. `None` where the program has no
/// entry function or its parameters cannot be bound.
pub open spec fn entry_state(
    program: Program,
    inputs: Inputs,
    witness: bool,
    ledger: LedgerModel,
) -> Option<(ScopeModel, LedgerModel)> {
    match function_position(program.functions@, "main"@, program.functions@.len()) {
        None => None,
        Some(entry) => {
            let function = program.functions@[entry as int];
            let a = arguments_spec(
                ledger,
                function.parameters@,
                inputs.entries@,
                witness,
                0,
                Seq::empty(),
            );
            match a.0 {
                Err(_) => None,
                Ok(arguments) => match enter_spec(
                    program,
                    a.1,
                    ValueModel::Scalar(Scalar::Function(entry as usize)),
                    arguments,
                    function.span,
                ).0 {
                    Ok((_, scope)) => Some(
                        (
                            scope,
                            enter_spec(
                                program,
                                a.1,
                                ValueModel::Scalar(Scalar::Function(entry as usize)),
                                arguments,
                                function.span,
                            ).1,
                        ),
                    ),
                    Err(_) => None,
                },
            }
        },
    }
}

/// The body of the entry function, where the program has one.
pub open spec fn entry_body(program: Program) -> Vec<Statement> {
    program.functions@[function_position(
        program.functions@,
        "main"@,
        program.functions@.len(),
    )->Some_0 as int].body
}

/// The scope and the ledger in which the statement at `index` of a block is
/// synthesized: every statement before it succeeded without returning.
pub open spec fn reached(
    program: Program,
    scope: ScopeModel,
    ledger: LedgerModel,
    statements: Vec<Statement>,
    index: nat,
    depth: nat,
) -> Option<(ScopeModel, LedgerModel)>
    decreases index,
{
    if index == 0 {
        Some((scope, ledger))
    } else {
        match reached(program, scope, ledger, statements, (index - 1) as nat, depth) {
            Some((s, l)) => if index - 1 < statements@.len() {
                let r = statement_spec(program, s, l, statements@[index - 1], depth);
                match r.0 {
                    Ok(None) => Some((r.1, r.2)),
                    _ => None,
                }
            } else {
                None
            },
            None => None,
        }
    }
}

/// An error of a statement is the error of its block: where the statement
/// at `index` is reached and fails, the block fails with the same error.
pub proof fn lemma_block_error(
    program: Program,
    scope: ScopeModel,
    ledger: LedgerModel,
    statements: Vec<Statement>,
    index: nat,
    depth: nat,
    error: StatementError,
)
    requires
        index < statements@.len(),
        reached(program, scope, ledger, statements, index, depth) matches Some(at)
            && statement_spec(program, at.0, at.1, statements@[index as int], depth).0 == Err::<
            Option<ValueModel>,
            StatementError,
        >(error),
    ensures
        block_spec(program, scope, ledger, statements, 0, depth).0 == Err::<
            Option<ValueModel>,
            StatementError,
        >(error),
{
    lemma_reached(program, scope, ledger, statements, index, depth);
}

proof fn lemma_reached(
    program: Program,
    scope: ScopeModel,
    ledger: LedgerModel,
    statements: Vec<Statement>,
    index: nat,
    depth: nat,
)
    requires
        reached(program, scope, ledger, statements, index, depth) is Some,
    ensures
        ({
            let state = reached(program, scope, ledger, statements, index, depth)->Some_0;
            block_spec(program, scope, ledger, statements, 0, depth) == block_spec(
                program,
                state.0,
                state.1,
                statements,
                index,
                depth,
            )
        }),
    decreases index,
{
    if index > 0 {
        lemma_reached(program, scope, ledger, statements, (index - 1) as nat, depth);
    }
}

proof fn lemma_position_bound(functions: Seq<Function>, name: Seq<char>, upto: nat)
    ensures
        function_position(functions, name, upto) matches Some(k) ==> k < functions.len(),
    decreases upto,
{
    if upto > 0 && upto <= functions.len() {
        lemma_position_bound(functions, name, (upto - 1) as nat);
    }
}

/// An error surfaces with its cause and place intact. Whichever statement
/// of the entry function is the first to fail, and whatever it fails with, the
/// synthesis fails with that error, as the error of a statement of a
/// function: nothing after it is synthesized, and nothing replaces the error.
pub proof fn lemma_error_surfaces(
    program: Program,
    inputs: Inputs,
    witness: bool,
    ledger: LedgerModel,
    index: nat,
    error: StatementError,
)
    requires
        entry_state(program, inputs, witness, ledger) is Some,
        index < entry_body(program)@.len(),
        ({
            let start = entry_state(program, inputs, witness, ledger)->Some_0;
            let state = reached(
                program,
                start.0,
                start.1,
                entry_body(program),
                index,
                MAX_CALL_DEPTH as nat,
            );
            state matches Some(at) && statement_spec(
                program,
                at.0,
                at.1,
                entry_body(program)@[index as int],
                MAX_CALL_DEPTH as nat,
            ).0 == Err::<Option<ValueModel>, StatementError>(error)
        }),
    ensures
        synthesize_spec(program, inputs, witness, ledger).0 == Err::<Seq<u8>, CompilerError>(
            CompilerError::FunctionError(FunctionError::StatementError(error)),
        ),
{
    let depth = MAX_CALL_DEPTH as nat;
    let entry = function_position(program.functions@, "main"@, program.functions@.len())->Some_0;
    let function = program.functions@[entry as int];
    let callee = ValueModel::Scalar(Scalar::Function(entry as usize));
    let a = arguments_spec(ledger, function.parameters@, inputs.entries@, witness, 0, Seq::empty());
    let arguments = a.0->Ok_0;
    let e = enter_spec(program, a.1, callee, arguments, function.span);
    let start = entry_state(program, inputs, witness, ledger)->Some_0;
    lemma_position_bound(program.functions@, "main"@, program.functions@.len());
    vstd::std_specs::vec::axiom_spec_len(&program.functions);
    assert(e.0 is Ok);
    assert(e.0->Ok_0.0 == entry);
    assert(start == (e.0->Ok_0.1, e.1));
    let body = function.body;
    assert(body == entry_body(program));
    lemma_block_error(program, start.0, start.1, body, index, depth, error);
    let b = block_spec(program, start.0, start.1, body, 0, depth);
    assert(b.0 == Err::<Option<ValueModel>, StatementError>(error));
    let c = call_spec(program, a.1, callee, arguments, depth, function.span);
    assert(c.0 == Err::<ValueModel, ExpressionError>(crate::synthesizer::call_failure(error)));
}

/// An error of an expression surfaces: where the expression that a
/// statement of the entry function evaluates first has no value, the
/// synthesis fails with the error of that expression, nested in the error of
/// the statement and in the error of the function.
pub proof fn lemma_expression_error_surfaces(
    program: Program,
    inputs: Inputs,
    witness: bool,
    ledger: LedgerModel,
    index: nat,
    error: ExpressionError,
)
    requires
        entry_state(program, inputs, witness, ledger) is Some,
        index < entry_body(program)@.len(),
        ({
            let start = entry_state(program, inputs, witness, ledger)->Some_0;
            let state = reached(
                program,
                start.0,
                start.1,
                entry_body(program),
                index,
                MAX_CALL_DEPTH as nat,
            );
            state matches Some(at) && evaluate_spec(
                program,
                at.0,
                at.1,
                leading(entry_body(program)@[index as int]),
                MAX_CALL_DEPTH as nat,
            ).0 == Err::<ValueModel, ExpressionError>(error)
        }),
    ensures
        synthesize_spec(program, inputs, witness, ledger).0 == Err::<Seq<u8>, CompilerError>(
            CompilerError::FunctionError(
                FunctionError::StatementError(StatementError::ExpressionError(error)),
            ),
        ),
{
    let depth = MAX_CALL_DEPTH as nat;
    let start = entry_state(program, inputs, witness, ledger)->Some_0;
    let at = reached(program, start.0, start.1, entry_body(program), index, depth)->Some_0;
    lemma_leading_error(program, at.0, at.1, entry_body(program)@[index as int], depth);
    lemma_error_surfaces(
        program,
        inputs,
        witness,
        ledger,
        index,
        StatementError::ExpressionError(error),
    );
}

/// An error of a branch surfaces whatever the condition is: where a
/// conditional of the entry function is reached and its condition is a
/// boolean, an error of its first branch is the error of the synthesis, and so
/// is an error of its second branch where the first has none. The value of
/// the condition plays no part: the branch that it does not select is
/// synthesized all the same.
pub proof fn lemma_branch_error_reaches_caller(
    program: Program,
    inputs: Inputs,
    witness: bool,
    ledger: LedgerModel,
    index: nat,
    error: StatementError,
)
    requires
        entry_state(program, inputs, witness, ledger) is Some,
        index < entry_body(program)@.len(),
        ({
            let depth = MAX_CALL_DEPTH as nat;
            let start = entry_state(program, inputs, witness, ledger)->Some_0;
            let state = reached(program, start.0, start.1, entry_body(program), index, depth);
            &&& state is Some
            &&& entry_body(program)@[index as int] matches Statement::Conditional(
                condition,
                first,
                second,
                _,
            ) && ({
                let at = state->Some_0;
                let r = evaluate_spec(program, at.0, at.1, condition, depth);
                let a = block_spec(program, scope_push(at.0), r.1, first, 0, depth);
                let b = block_spec(program, scope_push(at.0), a.2, second, 0, depth);
                &&& r.0 matches Ok(ValueModel::Scalar(Scalar::Boolean { .. }))
                &&& a.0 == Err::<Option<ValueModel>, StatementError>(error) || (a.0 is Ok && b.0
                    == Err::<Option<ValueModel>, StatementError>(error))
            })
        }),
    ensures
        synthesize_spec(program, inputs, witness, ledger).0 == Err::<Seq<u8>, CompilerError>(
            CompilerError::FunctionError(FunctionError::StatementError(error)),
        ),
{
    let depth = MAX_CALL_DEPTH as nat;
    let start = entry_state(program, inputs, witness, ledger)->Some_0;
    let at = reached(program, start.0, start.1, entry_body(program), index, depth)->Some_0;
    match entry_body(program)@[index as int] {
        Statement::Conditional(condition, first, second, span) => {
            lemma_branch_error_surfaces(
                program,
                at.0,
                at.1,
                condition,
                first,
                second,
                span,
                depth,
            );
        },
        _ => {},
    }
    lemma_error_surfaces(program, inputs, witness, ledger, index, error);
}

/// A number outside the declared type surfaces as an error: where a
/// definition of the entry function declares an integer type and its value
/// is a number outside that type, the synthesis fails. It never succeeds
/// with the variable bound to another number.
pub proof fn lemma_definition_out_of_range(
    program: Program,
    inputs: Inputs,
    witness: bool,
    ledger: LedgerModel,
    index: nat,
    number: i128,
)
    requires
        entry_state(program, inputs, witness, ledger) is Some,
        index < entry_body(program)@.len(),
        ({
            let depth = MAX_CALL_DEPTH as nat;
            let start = entry_state(program, inputs, witness, ledger)->Some_0;
            let state = reached(program, start.0, start.1, entry_body(program), index, depth);
            &&& state is Some
            &&& entry_body(program)@[index as int] matches Statement::Definition(
                _,
                Some(Type::Integer(ty)),
                expression,
                _,
            ) && !ty.contains(number as int) && evaluate_spec(
                program,
                state->Some_0.0,
                state->Some_0.1,
                expression,
                depth,
            ).0 == Ok::<ValueModel, ExpressionError>(
                ValueModel::Scalar(Scalar::Unresolved(number)),
            )
        }),
    ensures
        synthesize_spec(program, inputs, witness, ledger).0 matches Err(
            CompilerError::FunctionError(
                FunctionError::StatementError(
                    StatementError::ExpressionError(
                        ExpressionError::IntegerError(IntegerError::Error(fault)),
                    ),
                ),
            ),
        ) && fault.reason == Reason::OutOfRange,
{
    let depth = MAX_CALL_DEPTH as nat;
    let start = entry_state(program, inputs, witness, ledger)->Some_0;
    let at = reached(program, start.0, start.1, entry_body(program), index, depth)->Some_0;
    match entry_body(program)@[index as int] {
        Statement::Definition(name, Some(Type::Integer(ty)), expression, span) => {
            lemma_definition_refused(
                program,
                at.0,
                at.1,
                name,
                ty,
                expression,
                span,
                depth,
                number,
            );
            lemma_error_surfaces(
                program,
                inputs,
                witness,
                ledger,
                index,
                StatementError::ExpressionError(
                    crate::errors::integer_fault(Reason::OutOfRange, span),
                ),
            );
        },
        _ => {},
    }
}

/// A synthesis that recorded a violation, a witness value that left the
/// range of its integer type, does not succeed.
pub proof fn lemma_violation_refused(
    program: Program,
    inputs: Inputs,
    witness: bool,
    ledger: LedgerModel,
)
    requires
        synthesize_spec(program, inputs, witness, ledger).1.violated,
    ensures
        synthesize_spec(program, inputs, witness, ledger).0 is Err,
{
}

/// What is left to the witness. In a ledger that is well-formed, sound and
/// complete, and in which no violation was recorded, every constraint holds
/// that is no demand of an assertion: the ledger is satisfied if and only if
/// the witness meets the demands of the assertions. Where no assertion was
/// recorded, it is satisfied.
pub proof fn lemma_satisfied(ledger: LedgerModel)
    requires
        ledger.wf(),
        ledger.sound(),
        ledger.complete(),
        !ledger.violated,
    ensures
        ledger.satisfied() <==> ledger.demands_met(),
        !ledger.asserted ==> ledger.satisfied(),
{
    assert forall|i: int| 0 <= i < ledger.constraints.len() && !ledger.is_demand(i) implies (
    #[trigger] ledger.constraints[i]).holds(ledger.values) by {
        let k = ledger.constraints[i];
        assert(k.within(ledger.values.len()));
        lemma_known(k.a, ledger);
        lemma_known(k.b, ledger);
        lemma_known(k.c, ledger);
    }
    if !ledger.asserted {
        assert forall|i: int| 0 <= i < ledger.constraints.len() implies !ledger.is_demand(i) by {
            if ledger.is_demand(i) {
                assert(ledger.demands[i]);
            }
        }
    }
}

proof fn lemma_known(terms: Seq<Term>, ledger: LedgerModel)
    requires
        terms_within(terms, ledger.values.len()),
        ledger.complete(),
    ensures
        terms_known(terms, ledger.values),
{
    assert forall|i: int| 0 <= i < terms.len() implies wire_known(
        ledger.values,
        (#[trigger] terms[i]).variable,
    ) by {
        assert(ledger.values[terms[i].variable as int] is Some);
    }
}

fn arguments(
    ledger: &mut ConstraintLedger,
    parameters: &Vec<Parameter>,
    inputs: &Inputs,
    witness: bool,
    index: usize,
    done: Vec<Value>,
) -> (r: Result<Vec<Value>, FunctionError>)
    requires
        old(ledger)@.wf(),
        values_ok(models(done@), old(ledger)@),
    ensures
        (match r {
            Ok(v) => Ok(models(v@)),
            Err(e) => Err(e),
        }, final(ledger)@) == arguments_spec(
            old(ledger)@,
            parameters@,
            inputs.entries@,
            witness,
            index as nat,
            models(done@),
        ),
        allocation_holds(
            old(ledger)@,
            final(ledger)@,
            inputs_given(inputs.entries@, parameters@, witness),
        ),
        r matches Ok(v) ==> values_ok(models(v@), final(ledger)@),
    decreases parameters.len() - index,
{
    if index >= parameters.len() {
        return Ok(done);
    }
    let parameter = &parameters[index];
    let value: Option<&InputValue> = match inputs.find(&parameter.name.name) {
        Some(k) => match &inputs.entries[k].value {
            Some(v) => if witness {
                Some(v)
            } else {
                None
            },
            None => None,
        },
        None => None,
    };
    assert(crate::inputs::copied(value) == input_for(inputs.entries@, *parameter, witness));
    if !is_supported(&parameter.ty) {
        return Err(FunctionError::Error(Fault { reason: Reason::InputMismatch, span: parameter.name.span }));
    }
    match value {
        Some(v) => {
            if !v.fits(&parameter.ty) {
                return Err(
                    FunctionError::Error(
                        Fault { reason: Reason::InputMismatch, span: parameter.name.span },
                    ),
                );
            }
        },
        None => {},
    }
    let v = allocate(ledger, &parameter.ty, value);
    let ghost middle = ledger@;
    let ghost earlier = done@;
    let mut done = done;
    proof {
        lemma_values_ok_extends(models(earlier), old(ledger)@, middle);
        lemma_models_push(earlier, v);
        assert(inputs_given(inputs.entries@, parameters@, witness) ==> input_for(
            inputs.entries@,
            parameters@[index as int],
            witness,
        ) is Some);
    }
    done.push(v);
    proof {
        assert forall|i: int| 0 <= i < models(done@).len() implies value_ok(
            #[trigger] models(done@)[i],
            middle,
        ) by {
            if i < earlier.len() {
                assert(models(done@)[i] == models(earlier)[i]);
            }
        }
    }
    arguments(ledger, parameters, inputs, witness, index + 1, done)
}

fn surface(error: ExpressionError) -> (r: FunctionError)
    ensures
        r == surfaced(error),
{
    match error {
        ExpressionError::FunctionError(inner) => *inner,
        other => FunctionError::ExpressionError(other),
    }
}

/// Synthesizes the program into the ledger: binds the inputs to the
/// parameters of the function `main`, synthesizes its body, and writes the
/// output registers from the value it returned. Where `witness` is not set,
/// the values of the inputs are left aside.
///
/// Where the synthesis succeeds with a value for every input, the ledger
/// that it leaves is satisfied if and only if the witness meets the demands
/// of the assertions that the synthesis reached: nothing else can fail.
/// Where it reached none, the ledger is satisfied. A program that holds no
/// assertion reaches none.
pub fn synthesize(
    ledger: &mut ConstraintLedger,
    program: &Program,
    inputs: &Inputs,
    witness: bool,
) -> (r: Result<OutputBytes, CompilerError>)
    requires
        old(ledger)@.wf(),
    ensures
        (match r {
            Ok(bytes) => Ok(bytes@),
            Err(e) => Err(e),
        }, final(ledger)@) == synthesize_spec(*program, *inputs, witness, old(ledger)@),
        final(ledger)@.wf(),
        final(ledger)@.extends(old(ledger)@),
        old(ledger)@.sound() ==> final(ledger)@.sound(),
        witness_given(*program, *inputs, witness) && old(ledger)@.complete() ==> final(ledger)@.complete(),
        assertion_free(*program) ==> final(ledger)@.asserted == old(ledger)@.asserted,
        r is Ok ==> !final(ledger)@.violated,
        r is Ok && witness_given(*program, *inputs, witness) && old(ledger)@.sound()
            && old(ledger)@.complete() ==> (final(ledger)@.satisfied()
            <==> final(ledger)@.demands_met()),
        r is Ok && !final(ledger)@.asserted && witness_given(*program, *inputs, witness)
            && old(ledger)@.sound() && old(ledger)@.complete() ==> final(ledger)@.satisfied(),
{
    let name = String::from_str("main");
    let entry = match find_function(program, &name) {
        Some(entry) => entry,
        None => {
            return Err(
                CompilerError::FunctionError(
                    FunctionError::Error(
                        Fault {
                            reason: Reason::MissingEntry,
                            span: Span { line: 0, start: 0, end: 0 },
                        },
                    ),
                ),
            );
        },
    };
    let function = &program.functions[entry];
    let ghost start = old(ledger)@;
    let values = match arguments(ledger, &function.parameters, inputs, witness, 0, no_values()) {
        Ok(values) => values,
        Err(e) => {
            return Err(CompilerError::FunctionError(e));
        },
    };
    let callee = Value::Scalar(Scalar::Function(entry));
    let value = match call(program, ledger, &callee, &values, MAX_CALL_DEPTH, function.span) {
        Ok(value) => value,
        Err(e) => {
            return Err(CompilerError::FunctionError(surface(e)));
        },
    };
    if ledger.is_violated() {
        return Err(
            CompilerError::FunctionError(
                FunctionError::IntegerError(
                    IntegerError::Error(Fault { reason: Reason::Overflow, span: function.span }),
                ),
            ),
        );
    }
    proof {
        if witness_given(*program, *inputs, witness) && start.sound() && start.complete() {
            lemma_satisfied(ledger@);
        }
    }
    match write_registers(&inputs.registers, &value, ledger) {
        Some(bytes) => Ok(bytes),
        None => Err(
            CompilerError::FunctionError(
                FunctionError::Error(
                    Fault { reason: Reason::RegisterMismatch, span: function.span },
                ),
            ),
        ),
    }
}

/// Synthesizes the program with the values of its inputs.
pub fn generate_constraints(ledger: &mut ConstraintLedger, program: &Program, inputs: &Inputs) -> (r:
    Result<OutputBytes, CompilerError>)
    requires
        old(ledger)@.wf(),
    ensures
        (match r {
            Ok(bytes) => Ok(bytes@),
            Err(e) => Err(e),
        }, final(ledger)@) == synthesize_spec(*program, *inputs, true, old(ledger)@),
        final(ledger)@.wf(),
        final(ledger)@.extends(old(ledger)@),
        assertion_free(*program) ==> final(ledger)@.asserted == old(ledger)@.asserted,
        r is Ok ==> !final(ledger)@.violated,
        r is Ok && witness_given(*program, *inputs, true) && old(ledger)@.sound()
            && old(ledger)@.complete() ==> (final(ledger)@.satisfied()
            <==> final(ledger)@.demands_met()),
        r is Ok && !final(ledger)@.asserted && witness_given(*program, *inputs, true)
            && old(ledger)@.sound() && old(ledger)@.complete() ==> final(ledger)@.satisfied(),
{
    synthesize(ledger, program, inputs, true)
}

/// Synthesizes the program with the values of its inputs, as
/// [`generate_constraints`] does, and drops the output registers.
pub fn generate_test_constraints(
    ledger: &mut ConstraintLedger,
    program: &Program,
    inputs: &Inputs,
) -> (r: Result<(), CompilerError>)
    requires
        old(ledger)@.wf(),
    ensures
        (match r {
            Ok(_) => Ok(()),
            Err(e) => Err(e),
        }, final(ledger)@) == (match synthesize_spec(*program, *inputs, true, old(ledger)@).0 {
            Ok(_) => Ok::<(), CompilerError>(()),
            Err(e) => Err(e),
        }, synthesize_spec(*program, *inputs, true, old(ledger)@).1),
        final(ledger)@.wf(),
        final(ledger)@.extends(old(ledger)@),
        assertion_free(*program) ==> final(ledger)@.asserted == old(ledger)@.asserted,
        r is Ok ==> !final(ledger)@.violated,
        r is Ok && witness_given(*program, *inputs, true) && old(ledger)@.sound()
            && old(ledger)@.complete() ==> (final(ledger)@.satisfied()
            <==> final(ledger)@.demands_met()),
        r is Ok && !final(ledger)@.asserted && witness_given(*program, *inputs, true)
            && old(ledger)@.sound() && old(ledger)@.complete() ==> final(ledger)@.satisfied(),
{
    match synthesize(ledger, program, inputs, true) {
        Ok(_) => Ok(()),
        Err(e) => Err(e),
    }
}

} // verus!
