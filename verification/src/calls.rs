//! Names, calls and circuit instances: how an identifier finds its value, how
//! the arguments of a call are bound to the parameters of the function, how
//! the value returned is held to the declared type, and how the members of a
//! circuit expression are held to the declaration of the circuit.

use crate::errors::{
    circuit_error, circuit_fault, function_error, function_fault, ExpressionError, Fault, Reason,
};
use crate::ledger::{lemma_follows_transitive, ConstraintLedger, LedgerModel};
use crate::operators::{evaluated_ok, outcome, resolve, resolve_spec, Evaluated};
use crate::program::{Circuit, CircuitMember, Function, Identifier, Parameter, Program, Span, Type};
use crate::scope::{
    lemma_define_ok, lemma_lookup_ok, lemma_scope_ok_extends, scope_define, scope_lookup,
    scope_ok, scope_push, ScopeModel, SymbolScope,
};
use crate::value::{
    lemma_models_push, lemma_values_ok_extends, lemma_view, models, no_values, texts, unit,
    value_matches, value_ok, values_ok, Scalar, Value, ValueModel,
};
use vstd::prelude::*;

verus! {

/// The index of the latest of the first `upto` functions that has the name `name`.
pub open spec fn function_position(functions: Seq<Function>, name: Seq<char>, upto: nat) -> Option<
    nat,
>
    decreases upto,
{
    if upto == 0 || upto > functions.len() {
        None
    } else if functions[upto - 1].name.name@ == name {
        Some((upto - 1) as nat)
    } else {
        function_position(functions, name, (upto - 1) as nat)
    }
}

/// The index of the latest of the first `upto` circuits that has the name `name`.
pub open spec fn circuit_position(circuits: Seq<Circuit>, name: Seq<char>, upto: nat) -> Option<
    nat,
>
    decreases upto,
{
    if upto == 0 || upto > circuits.len() {
        None
    } else if circuits[upto - 1].name.name@ == name {
        Some((upto - 1) as nat)
    } else {
        circuit_position(circuits, name, (upto - 1) as nat)
    }
}

/// What an identifier stands for: the value that the scope binds to it, else
/// the function of the program that has its name.
pub open spec fn resolve_name_spec(program: Program, scope: ScopeModel, identifier: Identifier) -> Result<
    ValueModel,
    ExpressionError,
> {
    match scope_lookup(scope, identifier.name@) {
        Some(v) => Ok(v),
        None => match function_position(
            program.functions@,
            identifier.name@,
            program.functions@.len(),
        ) {
            Some(i) => Ok(ValueModel::Scalar(Scalar::Function(i as usize))),
            None => Err(
                ExpressionError::UndefinedIdentifier(
                    Fault { reason: Reason::UndefinedIdentifier, span: identifier.span },
                ),
            ),
        },
    }
}

/// The scope of a call after the arguments from `index` on were bound: each
/// must have, or take, the type of its parameter.
pub open spec fn bind_spec(
    ledger: LedgerModel,
    parameters: Seq<Parameter>,
    arguments: Seq<ValueModel>,
    index: nat,
    scope: ScopeModel,
    span: Span,
) -> (Result<ScopeModel, ExpressionError>, LedgerModel)
    decreases parameters.len() - index,
{
    if index >= parameters.len() || index >= arguments.len() {
        (Ok(scope), ledger)
    } else {
        let r = resolve_spec(ledger, arguments[index as int], parameters[index as int].ty@, span);
        match r.0 {
            Err(e) => (Err(e), r.1),
            Ok(v) => if value_matches(v, parameters[index as int].ty@) {
                bind_spec(
                    r.1,
                    parameters,
                    arguments,
                    index + 1,
                    scope_define(scope, parameters[index as int].name.name@, v),
                    span,
                )
            } else {
                (Err(function_fault(Reason::ArgumentMismatch, span)), r.1)
            },
        }
    }
}

/// The function that a call enters and the scope that its body starts in.
pub open spec fn enter_spec(
    program: Program,
    ledger: LedgerModel,
    callee: ValueModel,
    arguments: Seq<ValueModel>,
    span: Span,
) -> (Result<(usize, ScopeModel), ExpressionError>, LedgerModel) {
    match callee {
        ValueModel::Scalar(Scalar::Function(i)) => {
            if i >= program.functions@.len() {
                (Err(function_fault(Reason::NotFunction, span)), ledger)
            } else if arguments.len() != program.functions@[i as int].parameters@.len() {
                (Err(function_fault(Reason::ArityMismatch, span)), ledger)
            } else {
                let b = bind_spec(
                    ledger,
                    program.functions@[i as int].parameters@,
                    arguments,
                    0,
                    scope_push(Seq::empty()),
                    span,
                );
                match b.0 {
                    Ok(s) => (Ok((i, s)), b.1),
                    Err(e) => (Err(e), b.1),
                }
            }
        },
        _ => (Err(function_fault(Reason::NotFunction, span)), ledger),
    }
}

/// The value of a call: what the body returned, held to the declared type.
/// A function without a declared type returns the empty tuple.
pub open spec fn finish_spec(
    ledger: LedgerModel,
    output: Option<Type>,
    returned: Option<ValueModel>,
    span: Span,
) -> Evaluated {
    match (output, returned) {
        (None, None) => (Ok(unit()), ledger),
        (None, Some(_)) => (Err(function_fault(Reason::ReturnMismatch, span)), ledger),
        (Some(_), None) => (Err(function_fault(Reason::MissingReturn, span)), ledger),
        (Some(ty), Some(v)) => {
            let r = resolve_spec(ledger, v, ty@, span);
            match r.0 {
                Err(_) => r,
                Ok(w) => if value_matches(w, ty@) {
                    r
                } else {
                    (Err(function_fault(Reason::ReturnMismatch, span)), r.1)
                },
            }
        },
    }
}

/// The members of a circuit instance from `index` on: each value given must
/// carry the name of the member declared at its place and have, or take, its type.
pub open spec fn members_spec(
    ledger: LedgerModel,
    declared: Seq<CircuitMember>,
    names: Seq<Seq<char>>,
    values: Seq<ValueModel>,
    index: nat,
    done: Seq<ValueModel>,
    span: Span,
) -> (Result<Seq<ValueModel>, ExpressionError>, LedgerModel)
    decreases declared.len() - index,
{
    if index >= declared.len() || index >= names.len() || index >= values.len() {
        (Ok(done), ledger)
    } else if declared[index as int].name.name@ != names[index as int] {
        (Err(circuit_fault(Reason::MemberMismatch, span)), ledger)
    } else {
        let r = resolve_spec(ledger, values[index as int], declared[index as int].ty@, span);
        match r.0 {
            Err(e) => (Err(e), r.1),
            Ok(v) => if value_matches(v, declared[index as int].ty@) {
                members_spec(r.1, declared, names, values, index + 1, done.push(v), span)
            } else {
                (Err(circuit_fault(Reason::MemberMismatch, span)), r.1)
            },
        }
    }
}

/// An instance of the circuit `name` with the members given.
pub open spec fn instantiate_spec(
    program: Program,
    ledger: LedgerModel,
    name: Seq<char>,
    names: Seq<Seq<char>>,
    values: Seq<ValueModel>,
    span: Span,
) -> Evaluated {
    match circuit_position(program.circuits@, name, program.circuits@.len()) {
        None => (Err(circuit_fault(Reason::UndefinedCircuit, span)), ledger),
        Some(c) => {
            let declared = program.circuits@[c as int].members@;
            if declared.len() != values.len() || names.len() != values.len() {
                (Err(circuit_fault(Reason::MemberMismatch, span)), ledger)
            } else {
                let r = members_spec(ledger, declared, names, values, 0, Seq::empty(), span);
                match r.0 {
                    Ok(members) => (Ok(ValueModel::Circuit(name, names, members)), r.1),
                    Err(e) => (Err(e), r.1),
                }
            }
        },
    }
}

pub open spec fn scope_outcome(r: Result<SymbolScope, ExpressionError>) -> Result<
    ScopeModel,
    ExpressionError,
> {
    match r {
        Ok(s) => Ok(s@),
        Err(e) => Err(e),
    }
}

/// The index of the function named `name`.
pub fn find_function(program: &Program, name: &String) -> (r: Option<usize>)
    ensures
        r matches Some(i) ==> function_position(
            program.functions@,
            name@,
            program.functions@.len(),
        ) == Some(i as nat) && i < program.functions.len(),
        r is None ==> function_position(program.functions@, name@, program.functions@.len())
            is None,
{
    let mut upto = program.functions.len();
    while upto > 0
        invariant
            upto <= program.functions.len(),
            function_position(program.functions@, name@, program.functions@.len())
                == function_position(program.functions@, name@, upto as nat),
        decreases upto,
    {
        if program.functions[upto - 1].name.name.eq(name) {
            return Some(upto - 1);
        }
        upto = upto - 1;
    }
    None
}

/// The index of the circuit named `name`.
pub fn find_circuit(program: &Program, name: &String) -> (r: Option<usize>)
    ensures
        r matches Some(i) ==> circuit_position(program.circuits@, name@, program.circuits@.len())
            == Some(i as nat) && i < program.circuits.len(),
        r is None ==> circuit_position(program.circuits@, name@, program.circuits@.len()) is None,
{
    let mut upto = program.circuits.len();
    while upto > 0
        invariant
            upto <= program.circuits.len(),
            circuit_position(program.circuits@, name@, program.circuits@.len())
                == circuit_position(program.circuits@, name@, upto as nat),
        decreases upto,
    {
        if program.circuits[upto - 1].name.name.eq(name) {
            return Some(upto - 1);
        }
        upto = upto - 1;
    }
    None
}

/// What an identifier stands for.
pub fn resolve_name(program: &Program, scope: &SymbolScope, identifier: &Identifier) -> (r: Result<
    Value,
    ExpressionError,
>)
    ensures
        outcome(r) == resolve_name_spec(*program, scope@, *identifier),
        forall|ledger: LedgerModel|
            #[trigger] scope_ok(scope@, ledger) && outcome(r) is Ok ==> value_ok(
                outcome(r)->Ok_0,
                ledger,
            ),
{
    match scope.lookup(&identifier.name) {
        Some(v) => {
            proof {
                assert forall|ledger: LedgerModel| #[trigger]
                    scope_ok(scope@, ledger) implies value_ok(v@, ledger) by {
                    lemma_lookup_ok(scope@, identifier.name@, ledger);
                }
            }
            Ok(v)
        },
        None => match find_function(program, &identifier.name) {
            Some(i) => Ok(Value::Scalar(Scalar::Function(i))),
            None => Err(
                ExpressionError::UndefinedIdentifier(
                    Fault { reason: Reason::UndefinedIdentifier, span: identifier.span },
                ),
            ),
        },
    }
}

fn bind(
    ledger: &mut ConstraintLedger,
    parameters: &Vec<Parameter>,
    arguments: &Vec<Value>,
    index: usize,
    scope: SymbolScope,
    span: Span,
) -> (r: Result<SymbolScope, ExpressionError>)
    requires
        old(ledger)@.wf(),
        values_ok(models(arguments@), old(ledger)@),
        scope_ok(scope@, old(ledger)@),
        scope@.len() == 1,
    ensures
        (scope_outcome(r), final(ledger)@) == bind_spec(
            old(ledger)@,
            parameters@,
            models(arguments@),
            index as nat,
            scope@,
            span,
        ),
        final(ledger)@.follows(old(ledger)@),
        final(ledger)@.wf(),
        r matches Ok(s) ==> scope_ok(s@, final(ledger)@) && s@.len() == 1,
    decreases parameters.len() - index,
{
    if index >= parameters.len() || index >= arguments.len() {
        return Ok(scope);
    }
    assert(models(arguments@)[index as int] == arguments@[index as int]@);
    assert(value_ok(models(arguments@)[index as int], old(ledger)@));
    let argument = arguments[index].duplicate();
    let value = match resolve(ledger, argument, &parameters[index].ty, span) {
        Ok(v) => v,
        Err(e) => {
            return Err(e);
        },
    };
    if !value.matches(&parameters[index].ty) {
        return Err(function_error(Reason::ArgumentMismatch, span));
    }
    let ghost middle = ledger@;
    let mut scope = scope;
    proof {
        lemma_scope_ok_extends(scope@, old(ledger)@, middle);
        lemma_values_ok_extends(models(arguments@), old(ledger)@, middle);
        lemma_define_ok(scope@, parameters@[index as int].name.name@, value@, middle);
    }
    scope.define(parameters[index].name.name.clone(), value);
    let r = bind(ledger, parameters, arguments, index + 1, scope, span);
    proof {
        lemma_follows_transitive(old(ledger)@, middle, ledger@);
    }
    r
}

/// Enters a call: finds the function, and binds the arguments to its
/// parameters in a scope of one frame. Returns the index of the function and the scope.
pub fn enter(
    program: &Program,
    ledger: &mut ConstraintLedger,
    callee: &Value,
    arguments: &Vec<Value>,
    span: Span,
) -> (r: Result<(usize, SymbolScope), ExpressionError>)
    requires
        old(ledger)@.wf(),
        values_ok(models(arguments@), old(ledger)@),
    ensures
        (match r {
            Ok((i, s)) => Ok((i, s@)),
            Err(e) => Err(e),
        }, final(ledger)@) == enter_spec(
            *program,
            old(ledger)@,
            callee@,
            models(arguments@),
            span,
        ),
        final(ledger)@.follows(old(ledger)@),
        final(ledger)@.wf(),
        r matches Ok((i, s)) ==> scope_ok(s@, final(ledger)@) && i < program.functions@.len(),
{
    match callee {
        Value::Scalar(Scalar::Function(i)) => {
            if *i >= program.functions.len() {
                return Err(function_error(Reason::NotFunction, span));
            }
            let function = &program.functions[*i];
            if arguments.len() != function.parameters.len() {
                return Err(function_error(Reason::ArityMismatch, span));
            }
            let scope = SymbolScope::new();
            assert(scope_ok(scope@, old(ledger)@)) by {
                assert(scope@[0].len() == 0);
            }
            match bind(ledger, &function.parameters, arguments, 0, scope, span) {
                Ok(s) => Ok((*i, s)),
                Err(e) => Err(e),
            }
        },
        _ => Err(function_error(Reason::NotFunction, span)),
    }
}

/// Holds what the body of a function returned to the declared type.
pub fn finish(
    ledger: &mut ConstraintLedger,
    output: &Option<Type>,
    returned: Option<Value>,
    span: Span,
) -> (r: Result<Value, ExpressionError>)
    requires
        old(ledger)@.wf(),
        returned matches Some(v) ==> value_ok(v@, old(ledger)@),
    ensures
        (outcome(r), final(ledger)@) == finish_spec(
            old(ledger)@,
            *output,
            crate::value::option_model(returned),
            span,
        ),
        evaluated_ok(old(ledger)@, (outcome(r), final(ledger)@)),
{
    match (output, returned) {
        (None, None) => {
            let r = Value::Tuple(no_values());
            proof {
                lemma_view(&r);
            }
            Ok(r)
        },
        (None, Some(_)) => Err(function_error(Reason::ReturnMismatch, span)),
        (Some(_), None) => Err(function_error(Reason::MissingReturn, span)),
        (Some(ty), Some(v)) => {
            match resolve(ledger, v, ty, span) {
                Err(e) => Err(e),
                Ok(w) => if w.matches(ty) {
                    Ok(w)
                } else {
                    Err(function_error(Reason::ReturnMismatch, span))
                },
            }
        },
    }
}

fn members(
    ledger: &mut ConstraintLedger,
    declared: &Vec<CircuitMember>,
    names: &Vec<String>,
    values: &Vec<Value>,
    index: usize,
    done: Vec<Value>,
    span: Span,
) -> (r: Result<Vec<Value>, ExpressionError>)
    requires
        old(ledger)@.wf(),
        values_ok(models(values@), old(ledger)@),
        values_ok(models(done@), old(ledger)@),
        done@.len() == index,
        index <= values.len(),
        declared.len() == values.len(),
        names.len() == values.len(),
    ensures
        (match r {
            Ok(v) => Ok(models(v@)),
            Err(e) => Err(e),
        }, final(ledger)@) == members_spec(
            old(ledger)@,
            declared@,
            texts(names@),
            models(values@),
            index as nat,
            models(done@),
            span,
        ),
        final(ledger)@.follows(old(ledger)@),
        final(ledger)@.wf(),
        r matches Ok(v) ==> values_ok(models(v@), final(ledger)@) && v@.len() == values@.len(),
    decreases declared.len() - index,
{
    if index >= declared.len() || index >= names.len() || index >= values.len() {
        return Ok(done);
    }
    assert(texts(names@)[index as int] == names@[index as int]@);
    assert(models(values@)[index as int] == values@[index as int]@);
    assert(value_ok(models(values@)[index as int], old(ledger)@));
    if !declared[index].name.name.eq(&names[index]) {
        return Err(circuit_error(Reason::MemberMismatch, span));
    }
    let given = values[index].duplicate();
    let value = match resolve(ledger, given, &declared[index].ty, span) {
        Ok(v) => v,
        Err(e) => {
            return Err(e);
        },
    };
    if !value.matches(&declared[index].ty) {
        return Err(circuit_error(Reason::MemberMismatch, span));
    }
    let ghost middle = ledger@;
    let ghost earlier = done@;
    let mut done = done;
    proof {
        lemma_values_ok_extends(models(values@), old(ledger)@, middle);
        lemma_values_ok_extends(models(earlier), old(ledger)@, middle);
        lemma_models_push(earlier, value);
    }
    done.push(value);
    proof {
        assert forall|i: int| 0 <= i < models(done@).len() implies value_ok(
            #[trigger] models(done@)[i],
            middle,
        ) by {
            if i < index {
                assert(models(done@)[i] == models(earlier)[i]);
            }
        }
    }
    let r = members(ledger, declared, names, values, index + 1, done, span);
    proof {
        lemma_follows_transitive(old(ledger)@, middle, ledger@);
    }
    r
}

/// An instance of the circuit `name` with the members given.
pub fn instantiate(
    program: &Program,
    ledger: &mut ConstraintLedger,
    name: &String,
    names: Vec<String>,
    values: &Vec<Value>,
    span: Span,
) -> (r: Result<Value, ExpressionError>)
    requires
        old(ledger)@.wf(),
        values_ok(models(values@), old(ledger)@),
    ensures
        (outcome(r), final(ledger)@) == instantiate_spec(
            *program,
            old(ledger)@,
            name@,
            texts(names@),
            models(values@),
            span,
        ),
        final(ledger)@.follows(old(ledger)@),
        final(ledger)@.wf(),
        r matches Ok(v) ==> value_ok(v@, final(ledger)@),
{
    match find_circuit(program, name) {
        None => Err(circuit_error(Reason::UndefinedCircuit, span)),
        Some(c) => {
            let declared = &program.circuits[c].members;
            if declared.len() != values.len() || names.len() != values.len() {
                return Err(circuit_error(Reason::MemberMismatch, span));
            }
            match members(ledger, declared, &names, values, 0, no_values(), span) {
                Ok(members) => {
                    let r = Value::Circuit(name.clone(), names, members);
                    proof {
                        lemma_view(&r);
                    }
                    Ok(r)
                },
                Err(e) => Err(e),
            }
        },
    }
}

} // verus!
