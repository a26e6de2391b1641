//! The compiler: holds a program and its inputs, and synthesizes the program
//! into a constraint ledger.

use crate::calls::{circuit_position, find_circuit, find_function, function_position};
use crate::constraints::{
    generate_constraints, generate_test_constraints, nowhere, synthesize, synthesize_spec,
    witness_given,
};
use crate::digest::{checksum_of, hex_text, sha256};
use crate::errors::{in_file, CompilerError, Fault, Reason, SynthesisError};
use crate::inputs::{input_fits, Input, Inputs};
use crate::ledger::ConstraintLedger;
use crate::output::{OutputBytes, Register};
use crate::program::{Circuit, Function, Import, Program, Span};
use crate::synthesizer::assertion_free;
use std::path::PathBuf;
use vstd::prelude::*;
use vstd::utf8::encode_utf8;

verus! {

/// A path of the file system. Nothing is known of what it holds.
#[verifier::external_type_specification]
#[verifier::external_body]
pub struct ExPathBuf(PathBuf);

/// Every input that has a value has a value of its declared type.
pub open spec fn inputs_fit(entries: Seq<Input>) -> bool {
    forall|i: int|
        0 <= i < entries.len() ==> ((#[trigger] entries[i]).value matches Some(v) ==> input_fits(
            v,
            entries[i].ty,
        ))
}

/// The position of the latest of the first `upto` packages that has the name `name`.
pub open spec fn package_position(packages: Seq<Program>, name: Seq<char>, upto: nat) -> Option<
    nat,
>
    decreases upto,
{
    if upto == 0 || upto > packages.len() {
        None
    } else if packages[upto - 1].name@ == name {
        Some((upto - 1) as nat)
    } else {
        package_position(packages, name, (upto - 1) as nat)
    }
}

/// Whether a package defines a function or a circuit of the name `symbol`.
pub open spec fn defines(package: Program, symbol: Seq<char>) -> bool {
    function_position(package.functions@, symbol, package.functions@.len()) is Some
        || circuit_position(package.circuits@, symbol, package.circuits@.len()) is Some
}

/// The first import from `index` on that cannot be resolved out of
/// `packages`, with the reason: no package of its name is among them, or the
/// package does not define the imported symbol.
pub open spec fn unresolved(imports: Seq<Import>, packages: Seq<Program>, index: nat) -> Option<
    Fault,
>
    decreases imports.len() - index,
{
    if index >= imports.len() {
        None
    } else {
        let import = imports[index as int];
        match package_position(packages, import.package@, packages.len()) {
            None => Some(Fault { reason: Reason::UnresolvedImport, span: import.span }),
            Some(k) => if defines(packages[k as int], import.symbol@) {
                unresolved(imports, packages, index + 1)
            } else {
                Some(Fault { reason: Reason::UnknownSymbol, span: import.span })
            },
        }
    }
}

/// Whether some import names the symbol `symbol` of the package `package`.
pub open spec fn imported(imports: Seq<Import>, package: Seq<char>, symbol: Seq<char>) -> bool {
    exists|i: int|
        0 <= i < imports.len() && (#[trigger] imports[i]).package@ == package && imports[i].symbol@
            == symbol
}

/// Whether the package at `k` is the one that imports of its name are
/// resolved to: the latest package of that name.
pub open spec fn chosen(packages: Seq<Program>, k: int) -> bool {
    package_position(packages, packages[k].name@, packages.len()) == Some(k as nat)
}

/// Those of the first `upto` functions of the package `package` that an
/// import names, in their order.
pub open spec fn kept_functions(
    functions: Seq<Function>,
    imports: Seq<Import>,
    package: Seq<char>,
    upto: nat,
) -> Seq<Function>
    decreases upto,
{
    if upto == 0 || upto > functions.len() {
        Seq::empty()
    } else {
        let rest = kept_functions(functions, imports, package, (upto - 1) as nat);
        if imported(imports, package, functions[upto - 1].name.name@) {
            rest.push(functions[upto - 1])
        } else {
            rest
        }
    }
}

/// Those of the first `upto` circuits of the package `package` that an
/// import names, in their order.
pub open spec fn kept_circuits(
    circuits: Seq<Circuit>,
    imports: Seq<Import>,
    package: Seq<char>,
    upto: nat,
) -> Seq<Circuit>
    decreases upto,
{
    if upto == 0 || upto > circuits.len() {
        Seq::empty()
    } else {
        let rest = kept_circuits(circuits, imports, package, (upto - 1) as nat);
        if imported(imports, package, circuits[upto - 1].name.name@) {
            rest.push(circuits[upto - 1])
        } else {
            rest
        }
    }
}

/// The functions that the imports bring: of each of the first `upto`
/// packages that imports are resolved to, the functions that an import names.
/// A package is not used up by an import, and what no import names stays out.
pub open spec fn imported_functions(imports: Seq<Import>, packages: Seq<Program>, upto: nat) -> Seq<
    Function,
>
    decreases upto,
{
    if upto == 0 || upto > packages.len() {
        Seq::empty()
    } else {
        let rest = imported_functions(imports, packages, (upto - 1) as nat);
        let package = packages[upto - 1];
        if chosen(packages, upto - 1) {
            rest + kept_functions(
                package.functions@,
                imports,
                package.name@,
                package.functions@.len(),
            )
        } else {
            rest
        }
    }
}

/// The circuits that the imports bring, as [`imported_functions`] gives
/// the functions.
pub open spec fn imported_circuits(imports: Seq<Import>, packages: Seq<Program>, upto: nat) -> Seq<
    Circuit,
>
    decreases upto,
{
    if upto == 0 || upto > packages.len() {
        Seq::empty()
    } else {
        let rest = imported_circuits(imports, packages, (upto - 1) as nat);
        let package = packages[upto - 1];
        if chosen(packages, upto - 1) {
            rest + kept_circuits(package.circuits@, imports, package.name@, package.circuits@.len())
        } else {
            rest
        }
    }
}

/// What linking gives. It fails where an import cannot be resolved, and
/// only there. Else the program holds what its imports name, followed by its
/// own functions and circuits: a name is looked up from the end, so that a
/// definition of the program stands before an imported one of the same name.
pub open spec fn linked(syntax: Program, packages: Seq<Program>) -> Result<
    (Seq<Function>, Seq<Circuit>),
    Fault,
> {
    match unresolved(syntax.imports@, packages, 0) {
        Some(e) => Err(e),
        None => Ok(
            (
                imported_functions(syntax.imports@, packages, packages.len()) + syntax.functions@,
                imported_circuits(syntax.imports@, packages, packages.len()) + syntax.circuits@,
            ),
        ),
    }
}

/// Whether the import is resolved by the packages: a package of its name is
/// among them, and the one that is chosen defines the imported symbol.
pub open spec fn resolves(import: Import, packages: Seq<Program>) -> bool {
    match package_position(packages, import.package@, packages.len()) {
        Some(k) => defines(packages[k as int], import.symbol@),
        None => false,
    }
}

/// Linking succeeds if and only if every import is resolved: it fails for no
/// other reason, however many imports name one package and whatever else the
/// packages define.
pub proof fn lemma_linking_succeeds(syntax: Program, packages: Seq<Program>)
    ensures
        linked(syntax, packages) is Ok <==> forall|i: int|
            0 <= i < syntax.imports@.len() ==> resolves(#[trigger] syntax.imports@[i], packages),
{
    lemma_unresolved(syntax.imports@, packages, 0);
}

proof fn lemma_unresolved(imports: Seq<Import>, packages: Seq<Program>, index: nat)
    ensures
        unresolved(imports, packages, index) is None <==> forall|i: int|
            index <= i < imports.len() ==> resolves(#[trigger] imports[i], packages),
    decreases imports.len() - index,
{
    if index < imports.len() {
        lemma_unresolved(imports, packages, index + 1);
    }
}

/// The package that a name is resolved to has that name, and is the
/// package chosen for it.
proof fn lemma_package_position(packages: Seq<Program>, name: Seq<char>, upto: nat)
    requires
        upto <= packages.len(),
    ensures
        package_position(packages, name, upto) matches Some(k) ==> k < upto && packages[k as int].name@
            == name && package_position(packages, packages[k as int].name@, upto) == Some(k),
    decreases upto,
{
    if upto > 0 {
        lemma_package_position(packages, name, (upto - 1) as nat);
    }
}

/// Whether one of the functions has the name `name`.
pub open spec fn has_function(functions: Seq<Function>, name: Seq<char>) -> bool {
    exists|j: int| 0 <= j < functions.len() && (#[trigger] functions[j]).name.name@ == name
}

proof fn lemma_function_found(functions: Seq<Function>, name: Seq<char>, upto: nat)
    requires
        upto <= functions.len(),
    ensures
        function_position(functions, name, upto) is Some <==> exists|j: int|
            0 <= j < upto && (#[trigger] functions[j]).name.name@ == name,
    decreases upto,
{
    if upto > 0 {
        lemma_function_found(functions, name, (upto - 1) as nat);
        if functions[upto - 1].name.name@ == name {
        } else {
            if exists|j: int| 0 <= j < upto && (#[trigger] functions[j]).name.name@ == name {
                let j = choose|j: int| 0 <= j < upto && (#[trigger] functions[j]).name.name@ == name;
                assert(j < upto - 1);
            }
        }
    }
}

proof fn lemma_function_kept(
    functions: Seq<Function>,
    imports: Seq<Import>,
    package: Seq<char>,
    upto: nat,
    j: int,
)
    requires
        0 <= j < upto <= functions.len(),
        imported(imports, package, functions[j].name.name@),
    ensures
        has_function(kept_functions(functions, imports, package, upto), functions[j].name.name@),
    decreases upto,
{
    let rest = kept_functions(functions, imports, package, (upto - 1) as nat);
    let all = kept_functions(functions, imports, package, upto);
    if j == upto - 1 {
        assert(all == rest.push(functions[j]));
        assert(all[rest.len() as int] == functions[j]);
    } else {
        lemma_function_kept(functions, imports, package, (upto - 1) as nat, j);
        let k = choose|k: int|
            0 <= k < rest.len() && (#[trigger] rest[k]).name.name@ == functions[j].name.name@;
        if imported(imports, package, functions[upto - 1].name.name@) {
            assert(all == rest.push(functions[upto - 1]));
            assert(all[k] == rest[k]);
        } else {
            assert(all == rest);
        }
    }
}

proof fn lemma_function_imported(
    imports: Seq<Import>,
    packages: Seq<Program>,
    upto: nat,
    k: int,
    name: Seq<char>,
)
    requires
        0 <= k < upto <= packages.len(),
        chosen(packages, k),
        has_function(
            kept_functions(
                packages[k].functions@,
                imports,
                packages[k].name@,
                packages[k].functions@.len(),
            ),
            name,
        ),
    ensures
        has_function(imported_functions(imports, packages, upto), name),
    decreases upto,
{
    let rest = imported_functions(imports, packages, (upto - 1) as nat);
    let all = imported_functions(imports, packages, upto);
    let package = packages[upto - 1];
    let theirs = kept_functions(package.functions@, imports, package.name@, package.functions@.len());
    if k == upto - 1 {
        let j = choose|j: int| 0 <= j < theirs.len() && (#[trigger] theirs[j]).name.name@ == name;
        assert(all == rest + theirs);
        assert(all[rest.len() + j] == theirs[j]);
    } else {
        lemma_function_imported(imports, packages, (upto - 1) as nat, k, name);
        let j = choose|j: int| 0 <= j < rest.len() && (#[trigger] rest[j]).name.name@ == name;
        if chosen(packages, upto - 1) {
            assert(all == rest + theirs);
            assert(all[j] == rest[j]);
        } else {
            assert(all == rest);
        }
    }
}

/// An import brings what it names: where linking succeeds, a function that an
/// import names, and that the package of the import defines, is defined in
/// the linked program under its name.
pub proof fn lemma_import_brings_function(syntax: Program, packages: Seq<Program>, i: int)
    requires
        0 <= i < syntax.imports@.len(),
        linked(syntax, packages) is Ok,
        package_position(packages, syntax.imports@[i].package@, packages.len()) matches Some(k)
            && function_position(
            packages[k as int].functions@,
            syntax.imports@[i].symbol@,
            packages[k as int].functions@.len(),
        ) is Some,
    ensures
        function_position(
            linked(syntax, packages)->Ok_0.0,
            syntax.imports@[i].symbol@,
            linked(syntax, packages)->Ok_0.0.len(),
        ) is Some,
{
    let import = syntax.imports@[i];
    let k = package_position(packages, import.package@, packages.len())->Some_0 as int;
    lemma_package_position(packages, import.package@, packages.len());
    let theirs = packages[k].functions@;
    lemma_function_found(theirs, import.symbol@, theirs.len());
    let j = choose|j: int| 0 <= j < theirs.len() && (#[trigger] theirs[j]).name.name@ == import.symbol@;
    assert(imported(syntax.imports@, packages[k].name@, theirs[j].name.name@));
    lemma_function_kept(theirs, syntax.imports@, packages[k].name@, theirs.len(), j);
    lemma_function_imported(syntax.imports@, packages, packages.len(), k, import.symbol@);
    let brought = imported_functions(syntax.imports@, packages, packages.len());
    let all = linked(syntax, packages)->Ok_0.0;
    assert(all == brought + syntax.functions@);
    let m = choose|m: int| 0 <= m < brought.len() && (#[trigger] brought[m]).name.name@ == import.symbol@;
    assert(all[m] == brought[m]);
    lemma_function_found(all, import.symbol@, all.len());
}

/// Whether one of the circuits has the name `name`.
pub open spec fn has_circuit(circuits: Seq<Circuit>, name: Seq<char>) -> bool {
    exists|j: int| 0 <= j < circuits.len() && (#[trigger] circuits[j]).name.name@ == name
}

proof fn lemma_circuit_found(circuits: Seq<Circuit>, name: Seq<char>, upto: nat)
    requires
        upto <= circuits.len(),
    ensures
        circuit_position(circuits, name, upto) is Some <==> exists|j: int|
            0 <= j < upto && (#[trigger] circuits[j]).name.name@ == name,
    decreases upto,
{
    if upto > 0 {
        lemma_circuit_found(circuits, name, (upto - 1) as nat);
        if circuits[upto - 1].name.name@ == name {
        } else {
            if exists|j: int| 0 <= j < upto && (#[trigger] circuits[j]).name.name@ == name {
                let j = choose|j: int| 0 <= j < upto && (#[trigger] circuits[j]).name.name@ == name;
                assert(j < upto - 1);
            }
        }
    }
}

proof fn lemma_circuit_kept(
    circuits: Seq<Circuit>,
    imports: Seq<Import>,
    package: Seq<char>,
    upto: nat,
    j: int,
)
    requires
        0 <= j < upto <= circuits.len(),
        imported(imports, package, circuits[j].name.name@),
    ensures
        has_circuit(kept_circuits(circuits, imports, package, upto), circuits[j].name.name@),
    decreases upto,
{
    let rest = kept_circuits(circuits, imports, package, (upto - 1) as nat);
    let all = kept_circuits(circuits, imports, package, upto);
    if j == upto - 1 {
        assert(all == rest.push(circuits[j]));
        assert(all[rest.len() as int] == circuits[j]);
    } else {
        lemma_circuit_kept(circuits, imports, package, (upto - 1) as nat, j);
        let k = choose|k: int|
            0 <= k < rest.len() && (#[trigger] rest[k]).name.name@ == circuits[j].name.name@;
        if imported(imports, package, circuits[upto - 1].name.name@) {
            assert(all == rest.push(circuits[upto - 1]));
            assert(all[k] == rest[k]);
        } else {
            assert(all == rest);
        }
    }
}

proof fn lemma_circuit_imported(
    imports: Seq<Import>,
    packages: Seq<Program>,
    upto: nat,
    k: int,
    name: Seq<char>,
)
    requires
        0 <= k < upto <= packages.len(),
        chosen(packages, k),
        has_circuit(
            kept_circuits(
                packages[k].circuits@,
                imports,
                packages[k].name@,
                packages[k].circuits@.len(),
            ),
            name,
        ),
    ensures
        has_circuit(imported_circuits(imports, packages, upto), name),
    decreases upto,
{
    let rest = imported_circuits(imports, packages, (upto - 1) as nat);
    let all = imported_circuits(imports, packages, upto);
    let package = packages[upto - 1];
    let theirs = kept_circuits(package.circuits@, imports, package.name@, package.circuits@.len());
    if k == upto - 1 {
        let j = choose|j: int| 0 <= j < theirs.len() && (#[trigger] theirs[j]).name.name@ == name;
        assert(all == rest + theirs);
        assert(all[rest.len() + j] == theirs[j]);
    } else {
        lemma_circuit_imported(imports, packages, (upto - 1) as nat, k, name);
        let j = choose|j: int| 0 <= j < rest.len() && (#[trigger] rest[j]).name.name@ == name;
        if chosen(packages, upto - 1) {
            assert(all == rest + theirs);
            assert(all[j] == rest[j]);
        } else {
            assert(all == rest);
        }
    }
}

/// An import brings what it names: where linking succeeds, a circuit that an
/// import names, and that the package of the import defines, is defined in
/// the linked program under its name.
pub proof fn lemma_import_brings_circuit(syntax: Program, packages: Seq<Program>, i: int)
    requires
        0 <= i < syntax.imports@.len(),
        linked(syntax, packages) is Ok,
        package_position(packages, syntax.imports@[i].package@, packages.len()) matches Some(k)
            && circuit_position(
            packages[k as int].circuits@,
            syntax.imports@[i].symbol@,
            packages[k as int].circuits@.len(),
        ) is Some,
    ensures
        circuit_position(
            linked(syntax, packages)->Ok_0.1,
            syntax.imports@[i].symbol@,
            linked(syntax, packages)->Ok_0.1.len(),
        ) is Some,
{
    let import = syntax.imports@[i];
    let k = package_position(packages, import.package@, packages.len())->Some_0 as int;
    lemma_package_position(packages, import.package@, packages.len());
    let theirs = packages[k].circuits@;
    lemma_circuit_found(theirs, import.symbol@, theirs.len());
    let j = choose|j: int| 0 <= j < theirs.len() && (#[trigger] theirs[j]).name.name@ == import.symbol@;
    assert(imported(syntax.imports@, packages[k].name@, theirs[j].name.name@));
    lemma_circuit_kept(theirs, syntax.imports@, packages[k].name@, theirs.len(), j);
    lemma_circuit_imported(syntax.imports@, packages, packages.len(), k, import.symbol@);
    let brought = imported_circuits(syntax.imports@, packages, packages.len());
    let all = linked(syntax, packages)->Ok_0.1;
    assert(all == brought + syntax.circuits@);
    let m = choose|m: int| 0 <= m < brought.len() && (#[trigger] brought[m]).name.name@ == import.symbol@;
    assert(all[m] == brought[m]);
    lemma_circuit_found(all, import.symbol@, all.len());
}

/// What merging the two sources of inputs gives: the entries and the
/// registers of both, the first source first. It fails where an entry has a
/// value that is not of its declared type, and only there. An entry is looked
/// up from the end: where both sources declare a name, the declaration of the
/// second source stands.
pub open spec fn merged_inputs(inputs: Inputs, state: Inputs) -> Result<
    (Seq<Input>, Seq<Register>),
    Fault,
> {
    let entries = inputs.entries@ + state.entries@;
    if !inputs_fit(entries) {
        Err(Fault { reason: Reason::InputMismatch, span: nowhere() })
    } else {
        Ok((entries, inputs.registers@ + state.registers@))
    }
}

fn all_inputs_fit(entries: &Vec<Input>) -> (r: bool)
    ensures
        r == inputs_fit(entries@),
{
    let mut i: usize = 0;
    while i < entries.len()
        invariant
            i <= entries.len(),
            forall|k: int|
                0 <= k < i ==> ((#[trigger] entries@[k]).value matches Some(v) ==> input_fits(
                    v,
                    entries@[k].ty,
                )),
        decreases entries.len() - i,
    {
        match &entries[i].value {
            Some(v) => {
                if !v.fits(&entries[i].ty) {
                    return false;
                }
            },
            None => {},
        }
        i = i + 1;
    }
    true
}

fn find_package(packages: &Vec<Program>, name: &String) -> (r: Option<usize>)
    ensures
        r matches Some(k) ==> package_position(packages@, name@, packages@.len()) == Some(k as nat)
            && k < packages.len(),
        r is None ==> package_position(packages@, name@, packages@.len()) is None,
{
    let mut upto = packages.len();
    while upto > 0
        invariant
            upto <= packages.len(),
            package_position(packages@, name@, packages@.len()) == package_position(
                packages@,
                name@,
                upto as nat,
            ),
        decreases upto,
    {
        if packages[upto - 1].name.eq(name) {
            return Some(upto - 1);
        }
        upto = upto - 1;
    }
    None
}

/// The first import that cannot be resolved.
fn first_unresolved(imports: &Vec<Import>, packages: &Vec<Program>) -> (r: Option<Fault>)
    ensures
        r == unresolved(imports@, packages@, 0),
{
    let mut index: usize = 0;
    while index < imports.len()
        invariant
            index <= imports.len(),
            unresolved(imports@, packages@, 0) == unresolved(imports@, packages@, index as nat),
        decreases imports.len() - index,
    {
        let import = &imports[index];
        let k = match find_package(packages, &import.package) {
            Some(k) => k,
            None => {
                return Some(Fault { reason: Reason::UnresolvedImport, span: import.span });
            },
        };
        let defined = find_function(&packages[k], &import.symbol).is_some() || find_circuit(
            &packages[k],
            &import.symbol,
        ).is_some();
        if !defined {
            return Some(Fault { reason: Reason::UnknownSymbol, span: import.span });
        }
        index = index + 1;
    }
    None
}

/// Whether some import names the symbol of the package.
fn is_imported(imports: &Vec<Import>, package: &String, symbol: &String) -> (r: bool)
    ensures
        r == imported(imports@, package@, symbol@),
{
    let mut i: usize = 0;
    while i < imports.len()
        invariant
            i <= imports.len(),
            forall|j: int|
                0 <= j < i ==> !((#[trigger] imports@[j]).package@ == package@ && imports@[j].symbol@
                    == symbol@),
        decreases imports.len() - i,
    {
        if imports[i].package.eq(package) && imports[i].symbol.eq(symbol) {
            return true;
        }
        i = i + 1;
    }
    false
}

/// For each package, whether imports of its name are resolved to it.
fn choose_packages(packages: &Vec<Program>) -> (r: Vec<bool>)
    ensures
        r@.len() == packages@.len(),
        forall|k: int| 0 <= k < packages@.len() ==> r@[k] == chosen(packages@, k),
{
    let mut r: Vec<bool> = Vec::new();
    let mut k: usize = 0;
    while k < packages.len()
        invariant
            k <= packages.len(),
            r@.len() == k,
            forall|j: int| 0 <= j < k ==> r@[j] == chosen(packages@, j),
        decreases packages.len() - k,
    {
        let latest = match find_package(packages, &packages[k].name) {
            Some(j) => j == k,
            None => false,
        };
        r.push(latest);
        k = k + 1;
    }
    r
}

/// Moves those functions of a package that an import names to the end of `out`.
fn keep_functions(
    out: &mut Vec<Function>,
    functions: Vec<Function>,
    imports: &Vec<Import>,
    package: &String,
)
    ensures
        final(out)@ == old(out)@ + kept_functions(
            functions@,
            imports@,
            package@,
            functions@.len(),
        ),
{
    let mut rest = functions;
    let mut i: usize = 0;
    let count = rest.len();
    while i < count
        invariant
            i <= count,
            count == functions@.len(),
            rest@ =~= functions@.skip(i as int),
            out@ == old(out)@ + kept_functions(functions@, imports@, package@, i as nat),
        decreases count - i,
    {
        let function = rest.remove(0);
        assert(function == functions@[i as int]);
        if is_imported(imports, package, &function.name.name) {
            out.push(function);
        }
        i = i + 1;
        assert(out@ =~= old(out)@ + kept_functions(functions@, imports@, package@, i as nat));
    }
}

/// Moves those circuits of a package that an import names to the end of `out`.
fn keep_circuits(
    out: &mut Vec<Circuit>,
    circuits: Vec<Circuit>,
    imports: &Vec<Import>,
    package: &String,
)
    ensures
        final(out)@ == old(out)@ + kept_circuits(circuits@, imports@, package@, circuits@.len()),
{
    let mut rest = circuits;
    let mut i: usize = 0;
    let count = rest.len();
    while i < count
        invariant
            i <= count,
            count == circuits@.len(),
            rest@ =~= circuits@.skip(i as int),
            out@ == old(out)@ + kept_circuits(circuits@, imports@, package@, i as nat),
        decreases count - i,
    {
        let circuit = rest.remove(0);
        assert(circuit == circuits@[i as int]);
        if is_imported(imports, package, &circuit.name.name) {
            out.push(circuit);
        }
        i = i + 1;
        assert(out@ =~= old(out)@ + kept_circuits(circuits@, imports@, package@, i as nat));
    }
}

/// What the imports bring out of the packages given.
fn gather(imports: &Vec<Import>, given: Vec<Program>) -> (r: (Vec<Function>, Vec<Circuit>))
    ensures
        r.0@ == imported_functions(imports@, given@, given@.len()),
        r.1@ == imported_circuits(imports@, given@, given@.len()),
{
    let selected = choose_packages(&given);
    let mut functions: Vec<Function> = Vec::new();
    let mut circuits: Vec<Circuit> = Vec::new();
    let mut packages = given;
    let count = packages.len();
    let mut k: usize = 0;
    while k < count
        invariant
            k <= count,
            count == given@.len(),
            selected@.len() == count,
            forall|j: int| 0 <= j < count ==> selected@[j] == chosen(given@, j),
            packages@ =~= given@.skip(k as int),
            functions@ == imported_functions(imports@, given@, k as nat),
            circuits@ == imported_circuits(imports@, given@, k as nat),
        decreases count - k,
    {
        let package = packages.remove(0);
        assert(package == given@[k as int]);
        if selected[k] {
            let Program { name, imports: _, circuits: theirs, functions: those } = package;
            keep_functions(&mut functions, those, imports, &name);
            keep_circuits(&mut circuits, theirs, imports, &name);
        }
        k = k + 1;
    }
    (functions, circuits)
}

/// Compiles one program.
#[derive(Debug)]
pub struct Compiler {
    package_name: String,
    main_file_path: PathBuf,
    outputs_directory: PathBuf,
    program: Program,
    program_inputs: Inputs,
}

impl Compiler {
    /// The program that the compiler holds.
    pub closed spec fn program_of(&self) -> Program {
        self.program
    }

    /// The inputs that the compiler holds.
    pub closed spec fn inputs_of(&self) -> Inputs {
        self.program_inputs
    }

    /// The name of the package.
    pub closed spec fn name_of(&self) -> Seq<char> {
        self.package_name@
    }

    /// The path of the main file of the program.
    pub closed spec fn main_path_of(&self) -> PathBuf {
        self.main_file_path
    }

    /// The directory that the output registers are written to.
    pub closed spec fn outputs_path_of(&self) -> PathBuf {
        self.outputs_directory
    }

    /// A compiler for the package `package_name` that holds an empty program
    /// of that name and no inputs.
    pub fn new(package_name: String, main_file_path: PathBuf, outputs_directory: PathBuf) -> (r:
        Self)
        ensures
            r.name_of() == package_name@,
            r.main_path_of() == main_file_path,
            r.outputs_path_of() == outputs_directory,
            r.program_of().name@ == package_name@,
            r.program_of().imports@.len() == 0,
            r.program_of().circuits@.len() == 0,
            r.program_of().functions@.len() == 0,
            r.inputs_of().entries@.len() == 0,
            r.inputs_of().registers@.len() == 0,
    {
        Compiler {
            package_name: package_name.clone(),
            main_file_path,
            outputs_directory,
            program: Program {
                name: package_name,
                imports: Vec::new(),
                circuits: Vec::new(),
                functions: Vec::new(),
            },
            program_inputs: Inputs::new(),
        }
    }

    /// A compiler that holds the parsed program `syntax`, linked with the
    /// packages that its imports name, and no inputs.
    pub fn parse_program_without_inputs(
        package_name: String,
        main_file_path: PathBuf,
        outputs_directory: PathBuf,
        syntax: Program,
        packages: Vec<Program>,
    ) -> (r: Result<Self, CompilerError>)
        ensures
            match linked(syntax, packages@) {
                Ok((functions, circuits)) => r matches Ok(c) && c.name_of() == package_name@
                    && c.main_path_of() == main_file_path && c.outputs_path_of()
                    == outputs_directory && c.program_of().name@ == package_name@
                    && c.program_of().functions@ == functions && c.program_of().circuits@
                    == circuits && c.program_of().imports@ == syntax.imports@
                    && c.inputs_of().entries@.len() == 0 && c.inputs_of().registers@.len() == 0,
                Err(e) => r matches Err(CompilerError::ImportError(f)) && f == e,
            },
    {
        let mut compiler = Self::new(package_name, main_file_path, outputs_directory);
        match compiler.parse_program(syntax, packages) {
            Ok(()) => Ok(compiler),
            Err(e) => Err(e),
        }
    }

    /// A compiler that holds the inputs of the two sources and the parsed
    /// program `syntax`, linked with the packages that its imports name.
    pub fn parse_program_with_inputs(
        package_name: String,
        main_file_path: PathBuf,
        outputs_directory: PathBuf,
        inputs: Inputs,
        state: Inputs,
        syntax: Program,
        packages: Vec<Program>,
    ) -> (r: Result<Self, CompilerError>)
        ensures
            match merged_inputs(inputs, state) {
                Err(e) => r matches Err(CompilerError::InputError(f)) && f == e,
                Ok((entries, registers)) => match linked(syntax, packages@) {
                    Ok((functions, circuits)) => r matches Ok(c) && c.name_of() == package_name@
                        && c.main_path_of() == main_file_path && c.outputs_path_of()
                        == outputs_directory && c.program_of().name@ == package_name@
                        && c.program_of().functions@ == functions
                        && c.program_of().circuits@
                        == circuits && c.program_of().imports@ == syntax.imports@
                        && c.inputs_of().entries@ == entries && c.inputs_of().registers@
                        == registers,
                    Err(e) => r matches Err(CompilerError::ImportError(f)) && f == e,
                },
            },
    {
        let mut compiler = Self::new(package_name, main_file_path, outputs_directory);
        match compiler.parse_inputs(inputs, state) {
            Ok(()) => {},
            Err(e) => {
                return Err(e);
            },
        }
        match compiler.parse_program(syntax, packages) {
            Ok(()) => Ok(compiler),
            Err(e) => Err(e),
        }
    }

    /// Takes the inputs of the two sources, the program inputs and the
    /// program state. It fails where an input has a value that is not of its
    /// declared type, and only there; the compiler then holds what it held.
    pub fn parse_inputs(&mut self, inputs: Inputs, state: Inputs) -> (r: Result<(), CompilerError>)
        ensures
            match merged_inputs(inputs, state) {
                Ok((entries, registers)) => r is Ok && final(self).inputs_of().entries@ == entries
                    && final(self).inputs_of().registers@ == registers,
                Err(e) => r matches Err(CompilerError::InputError(f)) && f == e
                    && final(self).inputs_of() == old(self).inputs_of(),
            },
            final(self).program_of() == old(self).program_of(),
            final(self).name_of() == old(self).name_of(),
            final(self).main_path_of() == old(self).main_path_of(),
            final(self).outputs_path_of() == old(self).outputs_path_of(),
    {
        let Inputs { entries: mut entries, registers: mut registers } = inputs;
        let Inputs { entries: mut more_entries, registers: mut more_registers } = state;
        entries.append(&mut more_entries);
        registers.append(&mut more_registers);
        if !all_inputs_fit(&entries) {
            return Err(
                CompilerError::InputError(
                    Fault {
                        reason: Reason::InputMismatch,
                        span: Span { line: 0, start: 0, end: 0 },
                    },
                ),
            );
        }
        self.program_inputs = Inputs { entries, registers };
        Ok(())
    }

    /// Takes the parsed program `syntax` and resolves its imports out of
    /// `packages`, replacing the program that the compiler held. It fails
    /// where an import names a package that is not among them, or a symbol
    /// that its package does not define, and only there; the compiler then
    /// holds what it held. Any number of imports may name one package.
    pub fn parse_program(&mut self, syntax: Program, packages: Vec<Program>) -> (r: Result<
        (),
        CompilerError,
    >)
        ensures
            match linked(syntax, packages@) {
                Ok((functions, circuits)) => r is Ok && final(self).program_of().functions@
                    == functions && final(self).program_of().circuits@ == circuits
                    && final(self).program_of().imports@ == syntax.imports@
                    && final(self).program_of().name@
                    == old(self).name_of(),
                Err(e) => r matches Err(CompilerError::ImportError(f)) && f == e
                    && final(self).program_of() == old(self).program_of(),
            },
            final(self).inputs_of() == old(self).inputs_of(),
            final(self).name_of() == old(self).name_of(),
            final(self).main_path_of() == old(self).main_path_of(),
            final(self).outputs_path_of() == old(self).outputs_path_of(),
    {
        let Program { name: _, imports, circuits: mut own_circuits, functions: mut own_functions } =
            syntax;
        match first_unresolved(&imports, &packages) {
            Some(e) => {
                return Err(CompilerError::ImportError(e));
            },
            None => {},
        }
        let (mut functions, mut circuits) = gather(&imports, packages);
        functions.append(&mut own_functions);
        circuits.append(&mut own_circuits);
        self.program = Program { name: self.package_name.clone(), imports, circuits, functions };
        Ok(())
    }

    /// A compiler for a program that was compiled before: it holds the
    /// program as it is, under the name of the program, the two paths given
    /// and no inputs. Nothing of where the program was first compiled is kept.
    pub fn from_program(program: Program, main_file_path: PathBuf, outputs_directory: PathBuf) -> (r:
        Self)
        ensures
            r.program_of() == program,
            r.name_of() == program.name@,
            r.main_path_of() == main_file_path,
            r.outputs_path_of() == outputs_directory,
            r.inputs_of().entries@.len() == 0,
            r.inputs_of().registers@.len() == 0,
    {
        Compiler {
            package_name: program.name.clone(),
            main_file_path,
            outputs_directory,
            program,
            program_inputs: Inputs::new(),
        }
    }

    /// The program that the compiler holds, without the compiler.
    pub fn into_program(self) -> (r: Program)
        ensures
            r == self.program_of(),
    {
        self.program
    }

    /// The checksum of the source text of the program: its SHA-256 digest in
    /// lowercase hexadecimal.
    pub fn checksum(&self, source: &str) -> (r: String)
        ensures
            r@ == hex_text(sha256(encode_utf8(source@))),
            r@.len() == 64,
    {
        checksum_of(source)
    }

    /// Synthesizes the program without the values of its inputs, to obtain
    /// the shape of its constraint system. An error of the synthesis is
    /// returned as it was raised, with the path of the main file.
    ///
    /// Where the entry function takes no inputs and the synthesis succeeds,
    /// the ledger that it leaves is satisfied if and only if the witness
    /// meets the demands of the assertions that the synthesis reached; where
    /// it reached none, the ledger is satisfied.
    pub fn compile_constraints(self, ledger: &mut ConstraintLedger) -> (r: Result<
        OutputBytes,
        CompilerError,
    >)
        requires
            old(ledger)@.wf(),
        ensures
            (match r {
                Ok(bytes) => Ok(bytes@),
                Err(e) => Err(e),
            }, final(ledger)@) == (match synthesize_spec(
                self.program_of(),
                self.inputs_of(),
                false,
                old(ledger)@,
            ).0 {
                Ok(text) => Ok::<Seq<u8>, CompilerError>(text),
                Err(e) => Err(in_file(self.main_path_of(), e)),
            }, synthesize_spec(self.program_of(), self.inputs_of(), false, old(ledger)@).1),
            final(ledger)@.wf(),
            final(ledger)@.extends(old(ledger)@),
            assertion_free(self.program_of()) ==> final(ledger)@.asserted == old(ledger)@.asserted,
            r is Ok ==> !final(ledger)@.violated,
            r is Ok && witness_given(self.program_of(), self.inputs_of(), false) && old(
                ledger,
            )@.sound() && old(ledger)@.complete() ==> (final(ledger)@.satisfied()
                <==> final(ledger)@.demands_met()),
            r is Ok && !final(ledger)@.asserted && witness_given(
                self.program_of(),
                self.inputs_of(),
                false,
            ) && old(ledger)@.sound() && old(ledger)@.complete() ==> final(ledger)@.satisfied(),
    {
        match synthesize(ledger, &self.program, &self.program_inputs, false) {
            Ok(bytes) => Ok(bytes),
            Err(e) => Err(CompilerError::InFile(self.main_file_path, Box::new(e))),
        }
    }

    /// Synthesizes the program with the values of its inputs and drops the
    /// output registers.
    ///
    /// Where the synthesis succeeds with a value for every input, the ledger
    /// that it leaves is satisfied if and only if the witness meets the
    /// demands of the assertions that the synthesis reached; where it reached
    /// none, the ledger is satisfied.
    pub fn compile_test_constraints(self, ledger: &mut ConstraintLedger) -> (r: Result<
        (),
        CompilerError,
    >)
        requires
            old(ledger)@.wf(),
        ensures
            (match r {
                Ok(_) => Ok(()),
                Err(e) => Err(e),
            }, final(ledger)@) == (match synthesize_spec(
                self.program_of(),
                self.inputs_of(),
                true,
                old(ledger)@,
            ).0 {
                Ok(_) => Ok::<(), CompilerError>(()),
                Err(e) => Err(e),
            }, synthesize_spec(self.program_of(), self.inputs_of(), true, old(ledger)@).1),
            final(ledger)@.wf(),
            final(ledger)@.extends(old(ledger)@),
            assertion_free(self.program_of()) ==> final(ledger)@.asserted == old(ledger)@.asserted,
            r is Ok ==> !final(ledger)@.violated,
            r is Ok && witness_given(self.program_of(), self.inputs_of(), true) && old(
                ledger,
            )@.sound() && old(ledger)@.complete() ==> (final(ledger)@.satisfied()
                <==> final(ledger)@.demands_met()),
            r is Ok && !final(ledger)@.asserted && witness_given(
                self.program_of(),
                self.inputs_of(),
                true,
            ) && old(ledger)@.sound() && old(ledger)@.complete() ==> final(ledger)@.satisfied(),
    {
        generate_test_constraints(ledger, &self.program, &self.program_inputs)
    }

    /// Synthesizes the program with the values of its inputs.
    ///
    /// Where the synthesis succeeds with a value for every input, the ledger
    /// that it leaves is satisfied if and only if the witness meets the
    /// demands of the assertions that the synthesis reached; where it reached
    /// none, the ledger is satisfied.
    pub fn generate_constraints_helper(self, ledger: &mut ConstraintLedger) -> (r: Result<
        OutputBytes,
        CompilerError,
    >)
        requires
            old(ledger)@.wf(),
        ensures
            (match r {
                Ok(bytes) => Ok(bytes@),
                Err(e) => Err(e),
            }, final(ledger)@) == synthesize_spec(
                self.program_of(),
                self.inputs_of(),
                true,
                old(ledger)@,
            ),
            final(ledger)@.wf(),
            final(ledger)@.extends(old(ledger)@),
            assertion_free(self.program_of()) ==> final(ledger)@.asserted == old(ledger)@.asserted,
            r is Ok ==> !final(ledger)@.violated,
            r is Ok && witness_given(self.program_of(), self.inputs_of(), true) && old(
                ledger,
            )@.sound() && old(ledger)@.complete() ==> (final(ledger)@.satisfied()
                <==> final(ledger)@.demands_met()),
            r is Ok && !final(ledger)@.asserted && witness_given(
                self.program_of(),
                self.inputs_of(),
                true,
            ) && old(ledger)@.sound() && old(ledger)@.complete() ==> final(ledger)@.satisfied(),
    {
        generate_constraints(ledger, &self.program, &self.program_inputs)
    }

    /// Synthesizes the program with the values of its inputs, for a caller
    /// that goes on to prove the circuit. A program that cannot be synthesized
    /// is reported as malformed, with the error of the synthesis as it was
    /// raised, and never as unsatisfiable: whether the witness fulfils the
    /// constraints is known only of the finished ledger, which
    /// [`ConstraintLedger::verdict`] reads.
    ///
    /// Where the synthesis succeeds with a value for every input, the ledger
    /// that it leaves is satisfied if and only if the witness meets the
    /// demands of the assertions that the synthesis reached; where it reached
    /// none, the ledger is satisfied.
    pub fn generate_constraints(self, ledger: &mut ConstraintLedger) -> (r: Result<
        OutputBytes,
        SynthesisError,
    >)
        requires
            old(ledger)@.wf(),
        ensures
            (match r {
                Ok(bytes) => Ok(bytes@),
                Err(e) => Err(e),
            }, final(ledger)@) == (match synthesize_spec(
                self.program_of(),
                self.inputs_of(),
                true,
                old(ledger)@,
            ).0 {
                Ok(text) => Ok::<Seq<u8>, SynthesisError>(text),
                Err(e) => Err(SynthesisError::Malformed(e)),
            }, synthesize_spec(self.program_of(), self.inputs_of(), true, old(ledger)@).1),
            r matches Err(e) ==> e is Malformed,
            final(ledger)@.wf(),
            final(ledger)@.extends(old(ledger)@),
            assertion_free(self.program_of()) ==> final(ledger)@.asserted == old(ledger)@.asserted,
            r is Ok ==> !final(ledger)@.violated,
            r is Ok && witness_given(self.program_of(), self.inputs_of(), true) && old(
                ledger,
            )@.sound() && old(ledger)@.complete() ==> (final(ledger)@.satisfied()
                <==> final(ledger)@.demands_met()),
            r is Ok && !final(ledger)@.asserted && witness_given(
                self.program_of(),
                self.inputs_of(),
                true,
            ) && old(ledger)@.sound() && old(ledger)@.complete() ==> final(ledger)@.satisfied(),
    {
        match generate_constraints(ledger, &self.program, &self.program_inputs) {
            Ok(bytes) => Ok(bytes),
            Err(e) => Err(SynthesisError::Malformed(e)),
        }
    }

    /// The name of the package.
    pub fn package_name(&self) -> (r: &String)
        ensures
            r@ == self.name_of(),
    {
        &self.package_name
    }

    /// The path of the main file of the program.
    pub fn main_file_path(&self) -> (r: &PathBuf)
        ensures
            *r == self.main_path_of(),
    {
        &self.main_file_path
    }

    /// The directory that the output registers are written to.
    pub fn outputs_directory(&self) -> (r: &PathBuf)
        ensures
            *r == self.outputs_path_of(),
    {
        &self.outputs_directory
    }

    /// The program that the compiler holds.
    pub fn program(&self) -> (r: &Program)
        ensures
            *r == self.program_of(),
    {
        &self.program
    }

    /// The inputs that the compiler holds.
    pub fn inputs(&self) -> (r: &Inputs)
        ensures
            *r == self.inputs_of(),
    {
        &self.program_inputs
    }
}

} // verus!
