//! The shape of a ledger does not depend on its witness.
//!
//! The shape of a ledger is the number of its wires, the sequence of its
//! constraints, and which of them are the demands of assertions. Nothing that
//! synthesis does looks at a witness value to decide what it allocates or
//! constrains: two ledgers of one shape, whatever their witnesses are, are
//! taken by every step to two ledgers of one shape, with the same result. In
//! particular a conditional leaves the same constraints whether its condition
//! is true or false: both branches are synthesized. And whether the synthesis
//! of a program reaches an assertion is a property of the program, not of its
//! inputs.

use crate::access::{bounded_spec, index_of, index_spec, pick_spec, Index};
use crate::arithmetic::{
    arithmetic_spec, at_least_spec, constant_integer_spec, equal_run_spec,
    field_arithmetic_spec, input_integer_spec, select_run_spec, Arithmetic,
};
use crate::calls::{bind_spec, enter_spec, finish_spec, instantiate_spec, members_spec};
use crate::constraints::{arguments_spec, input_for, synthesize_spec};
use crate::errors::CompilerError;
use crate::inputs::{
    allocate_array_spec, allocate_spec, allocate_tuple_spec, element_at, elements_of, input_fits,
    supported, Input, InputValue, Inputs,
};
use crate::integer::{allocate_bits_spec, decompose_spec, IntegerType, Witness};
use crate::ledger::{LedgerModel, Term};
use crate::operators::{
    binary_spec, comparison_spec, integer_literal_spec, operate_spec, resolve_like_spec,
    resolve_spec, same_integer_spec, Evaluated,
};
use crate::program::{
    Access, BinaryOperator, Circuit, CircuitMember, CircuitVariable, Expression, Function,
    Identifier, Parameter, Program, Span, Statement, Type, TypeModel,
};
use crate::scope::{merge_frame_spec, merge_scope_spec, BindingModel, ScopeModel};
use crate::synthesizer::{
    block_spec, call_spec, evaluate_list_spec, evaluate_members_spec, evaluate_spec,
    iteration_spec, join_spec, statement_spec, update_spec, Executed,
};
use crate::value::{
    equal_list_spec, equal_value_spec, select_list_spec, select_value_spec, Scalar, ValueModel,
};
use vstd::prelude::*;

verus! {

/// Two ledgers have one shape: as many wires, the same constraints, and the
/// same of them the demands of assertions.
pub open spec fn alike(a: LedgerModel, b: LedgerModel) -> bool {
    a.values.len() == b.values.len() && a.constraints == b.constraints && a.asserted == b.asserted
        && a.demands == b.demands
}

/// Two evaluations gave the same result and ledgers of one shape.
pub open spec fn evaluated_alike(a: Evaluated, b: Evaluated) -> bool {
    a.0 == b.0 && alike(a.1, b.1)
}

/// Two executions gave the same result, the same scope and ledgers of one shape.
pub open spec fn executed_alike(a: Executed, b: Executed) -> bool {
    a.0 == b.0 && a.1 == b.1 && alike(a.2, b.2)
}

pub proof fn shape_allocate_bits(a: LedgerModel, b: LedgerModel, u: Option<int>, v: Option<int>, n: nat)
    requires
        alike(a, b),
    ensures
        alike(allocate_bits_spec(a, u, n), allocate_bits_spec(b, v, n)),
    decreases n,
{
    if n > 0 {
        shape_allocate_bits(a, b, u, v, (n - 1) as nat);
    }
}

pub proof fn shape_decompose(
    a: LedgerModel,
    b: LedgerModel,
    left: Seq<Term>,
    right: Seq<Term>,
    first: Witness,
    second: Witness,
    n: nat,
    base: i128,
)
    requires
        alike(a, b),
    ensures
        alike(
            decompose_spec(a, left, right, first, n, base).0,
            decompose_spec(b, left, right, second, n, base).0,
        ),
        decompose_spec(a, left, right, first, n, base).1 == decompose_spec(
            b,
            left,
            right,
            second,
            n,
            base,
        ).1,
{
    shape_allocate_bits(
        a,
        b,
        crate::integer::offset_of(first, n, base),
        crate::integer::offset_of(second, n, base),
        n,
    );
}

pub proof fn shape_arithmetic(
    a: LedgerModel,
    b: LedgerModel,
    op: Arithmetic,
    x: usize,
    y: usize,
    ty: IntegerType,
)
    requires
        alike(a, b),
    ensures
        alike(arithmetic_spec(a, op, x, y, ty).0, arithmetic_spec(b, op, x, y, ty).0),
        arithmetic_spec(a, op, x, y, ty).1 == arithmetic_spec(b, op, x, y, ty).1,
{
    let n = ty.spec_width() as nat;
    shape_decompose(
        a,
        b,
        crate::arithmetic::arithmetic_left(op, x, y, ty),
        crate::arithmetic::arithmetic_right(op, y, ty),
        crate::arithmetic::arithmetic_witness(
            op,
            crate::integer::bundle_value(a, x, n, ty.spec_base()),
            crate::integer::bundle_value(a, y, n, ty.spec_base()),
        ),
        crate::arithmetic::arithmetic_witness(
            op,
            crate::integer::bundle_value(b, x, n, ty.spec_base()),
            crate::integer::bundle_value(b, y, n, ty.spec_base()),
        ),
        n,
        ty.spec_base(),
    );
}

pub proof fn shape_constant_integer(a: LedgerModel, b: LedgerModel, ty: IntegerType, value: i128)
    requires
        alike(a, b),
    ensures
        alike(constant_integer_spec(a, ty, value).0, constant_integer_spec(b, ty, value).0),
        constant_integer_spec(a, ty, value).1 == constant_integer_spec(b, ty, value).1,
{
    shape_decompose(
        a,
        b,
        crate::ledger::single(value, crate::ledger::ONE),
        crate::ledger::single(1, crate::ledger::ONE),
        Witness::Known(value),
        Witness::Known(value),
        ty.spec_width() as nat,
        ty.spec_base(),
    );
}

pub proof fn shape_input_integer(
    a: LedgerModel,
    b: LedgerModel,
    ty: IntegerType,
    first: Option<i128>,
    second: Option<i128>,
)
    requires
        alike(a, b),
    ensures
        alike(input_integer_spec(a, ty, first).0, input_integer_spec(b, ty, second).0),
        input_integer_spec(a, ty, first).1 == input_integer_spec(b, ty, second).1,
{
    shape_allocate_bits(
        a,
        b,
        crate::arithmetic::offset_in(ty, first),
        crate::arithmetic::offset_in(ty, second),
        ty.spec_width() as nat,
    );
}

pub proof fn shape_at_least(a: LedgerModel, b: LedgerModel, x: usize, y: usize, ty: IntegerType)
    requires
        alike(a, b),
    ensures
        alike(at_least_spec(a, x, y, ty).0, at_least_spec(b, x, y, ty).0),
        at_least_spec(a, x, y, ty).1 == at_least_spec(b, x, y, ty).1,
{
    let n = ty.spec_width() as nat;
    shape_decompose(
        a,
        b,
        crate::arithmetic::comparison_left(x, y, ty),
        crate::ledger::single(1, crate::ledger::ONE),
        crate::arithmetic::comparison_witness(
            crate::integer::bundle_value(a, x, n, ty.spec_base()),
            crate::integer::bundle_value(a, y, n, ty.spec_base()),
            ty,
        ),
        crate::arithmetic::comparison_witness(
            crate::integer::bundle_value(b, x, n, ty.spec_base()),
            crate::integer::bundle_value(b, y, n, ty.spec_base()),
            ty,
        ),
        n + 1,
        0,
    );
}

pub proof fn shape_select_run(a: LedgerModel, b: LedgerModel, c: usize, x: usize, y: usize, n: nat)
    requires
        alike(a, b),
    ensures
        alike(select_run_spec(a, c, x, y, n).0, select_run_spec(b, c, x, y, n).0),
    decreases n,
{
    if n > 0 {
        shape_select_run(a, b, c, x, y, (n - 1) as nat);
    }
}

pub proof fn shape_equal_run(a: LedgerModel, b: LedgerModel, x: usize, y: usize, n: nat)
    requires
        alike(a, b),
    ensures
        alike(equal_run_spec(a, x, y, n), equal_run_spec(b, x, y, n)),
    decreases n,
{
    if n > 0 {
        shape_equal_run(a, b, x, y, (n - 1) as nat);
    }
}

pub proof fn shape_select_value(a: LedgerModel, b: LedgerModel, c: usize, x: ValueModel, y: ValueModel)
    requires
        alike(a, b),
    ensures
        select_value_spec(a, c, x, y).0 == select_value_spec(b, c, x, y).0,
        alike(select_value_spec(a, c, x, y).1, select_value_spec(b, c, x, y).1),
    decreases x, 0nat,
{
    match (x, y) {
        (ValueModel::Scalar(p), ValueModel::Scalar(q)) => {
            shape_select_run(
                a,
                b,
                c,
                crate::value::scalar_first(p),
                crate::value::scalar_first(q),
                crate::value::scalar_run(p),
            );
        },
        (ValueModel::Array(p), ValueModel::Array(q)) => {
            shape_select_list(a, b, c, p, q, 0, Seq::empty());
        },
        (ValueModel::Tuple(p), ValueModel::Tuple(q)) => {
            shape_select_list(a, b, c, p, q, 0, Seq::empty());
        },
        (ValueModel::Circuit(_, _, p), ValueModel::Circuit(_, _, q)) => {
            shape_select_list(a, b, c, p, q, 0, Seq::empty());
        },
        _ => {},
    }
}

pub proof fn shape_select_list(
    a: LedgerModel,
    b: LedgerModel,
    c: usize,
    x: Seq<ValueModel>,
    y: Seq<ValueModel>,
    index: nat,
    done: Seq<ValueModel>,
)
    requires
        alike(a, b),
    ensures
        select_list_spec(a, c, x, y, index, done).0 == select_list_spec(b, c, x, y, index, done).0,
        alike(
            select_list_spec(a, c, x, y, index, done).1,
            select_list_spec(b, c, x, y, index, done).1,
        ),
    decreases x, x.len() - index,
{
    if index < x.len() && index < y.len() {
        shape_select_value(a, b, c, x[index as int], y[index as int]);
        let p = select_value_spec(a, c, x[index as int], y[index as int]);
        let q = select_value_spec(b, c, x[index as int], y[index as int]);
        shape_select_list(p.1, q.1, c, x, y, index + 1, done.push(p.0));
    }
}

pub proof fn shape_equal_value(a: LedgerModel, b: LedgerModel, x: ValueModel, y: ValueModel)
    requires
        alike(a, b),
    ensures
        alike(equal_value_spec(a, x, y), equal_value_spec(b, x, y)),
    decreases x, 0nat,
{
    match (x, y) {
        (ValueModel::Scalar(p), ValueModel::Scalar(q)) => {
            shape_equal_run(
                a,
                b,
                crate::value::scalar_first(p),
                crate::value::scalar_first(q),
                crate::value::scalar_run(p),
            );
        },
        (ValueModel::Array(p), ValueModel::Array(q)) => {
            shape_equal_list(a, b, p, q, 0);
        },
        (ValueModel::Tuple(p), ValueModel::Tuple(q)) => {
            shape_equal_list(a, b, p, q, 0);
        },
        (ValueModel::Circuit(_, _, p), ValueModel::Circuit(_, _, q)) => {
            shape_equal_list(a, b, p, q, 0);
        },
        _ => {},
    }
}

pub proof fn shape_equal_list(
    a: LedgerModel,
    b: LedgerModel,
    x: Seq<ValueModel>,
    y: Seq<ValueModel>,
    index: nat,
)
    requires
        alike(a, b),
    ensures
        alike(equal_list_spec(a, x, y, index), equal_list_spec(b, x, y, index)),
    decreases x, x.len() - index,
{
    if index < x.len() && index < y.len() {
        shape_equal_value(a, b, x[index as int], y[index as int]);
        shape_equal_list(
            equal_value_spec(a, x[index as int], y[index as int]),
            equal_value_spec(b, x[index as int], y[index as int]),
            x,
            y,
            index + 1,
        );
    }
}

pub proof fn shape_merge_frame(
    a: LedgerModel,
    b: LedgerModel,
    c: usize,
    x: Seq<BindingModel>,
    y: Seq<BindingModel>,
    index: nat,
    done: Seq<BindingModel>,
)
    requires
        alike(a, b),
    ensures
        merge_frame_spec(a, c, x, y, index, done).0 == merge_frame_spec(b, c, x, y, index, done).0,
        alike(
            merge_frame_spec(a, c, x, y, index, done).1,
            merge_frame_spec(b, c, x, y, index, done).1,
        ),
    decreases x.len() - index,
{
    if index < x.len() && index < y.len() {
        shape_select_value(a, b, c, x[index as int].value, y[index as int].value);
        let p = select_value_spec(a, c, x[index as int].value, y[index as int].value);
        let q = select_value_spec(b, c, x[index as int].value, y[index as int].value);
        shape_merge_frame(
            p.1,
            q.1,
            c,
            x,
            y,
            index + 1,
            done.push(BindingModel { name: x[index as int].name, value: p.0 }),
        );
    }
}

pub proof fn shape_merge_scope(
    a: LedgerModel,
    b: LedgerModel,
    c: usize,
    x: ScopeModel,
    y: ScopeModel,
    index: nat,
    done: ScopeModel,
)
    requires
        alike(a, b),
    ensures
        merge_scope_spec(a, c, x, y, index, done).0 == merge_scope_spec(b, c, x, y, index, done).0,
        alike(
            merge_scope_spec(a, c, x, y, index, done).1,
            merge_scope_spec(b, c, x, y, index, done).1,
        ),
    decreases x.len() - index,
{
    if index < x.len() && index < y.len() {
        shape_merge_frame(a, b, c, x[index as int], y[index as int], 0, Seq::empty());
        let p = merge_frame_spec(a, c, x[index as int], y[index as int], 0, Seq::empty());
        let q = merge_frame_spec(b, c, x[index as int], y[index as int], 0, Seq::empty());
        shape_merge_scope(p.1, q.1, c, x, y, index + 1, done.push(p.0));
    }
}

pub proof fn shape_integer_literal(
    a: LedgerModel,
    b: LedgerModel,
    ty: IntegerType,
    literal: i128,
    span: Span,
)
    requires
        alike(a, b),
    ensures
        evaluated_alike(
            integer_literal_spec(a, ty, literal, span),
            integer_literal_spec(b, ty, literal, span),
        ),
{
    shape_constant_integer(a, b, ty, literal);
}

pub proof fn shape_resolve(a: LedgerModel, b: LedgerModel, value: ValueModel, ty: TypeModel, span: Span)
    requires
        alike(a, b),
    ensures
        evaluated_alike(resolve_spec(a, value, ty, span), resolve_spec(b, value, ty, span)),
{
    match value {
        ValueModel::Scalar(Scalar::Unresolved(n)) => match ty {
            TypeModel::Integer(t) => {
                shape_integer_literal(a, b, t, n, span);
            },
            _ => {},
        },
        _ => {},
    }
}

pub proof fn shape_resolve_like(
    a: LedgerModel,
    b: LedgerModel,
    value: ValueModel,
    other: ValueModel,
    span: Span,
)
    requires
        alike(a, b),
    ensures
        evaluated_alike(
            resolve_like_spec(a, value, other, span),
            resolve_like_spec(b, value, other, span),
        ),
{
    match value {
        ValueModel::Scalar(Scalar::Unresolved(n)) => match other {
            ValueModel::Scalar(Scalar::Integer { ty, .. }) => {
                shape_integer_literal(a, b, ty, n, span);
            },
            _ => {},
        },
        _ => {},
    }
}

pub proof fn shape_same_integer(a: LedgerModel, b: LedgerModel, x: usize, y: usize, ty: IntegerType)
    requires
        alike(a, b),
    ensures
        alike(same_integer_spec(a, x, y, ty).0, same_integer_spec(b, x, y, ty).0),
        same_integer_spec(a, x, y, ty).1 == same_integer_spec(b, x, y, ty).1,
{
    shape_at_least(a, b, x, y, ty);
    shape_at_least(at_least_spec(a, x, y, ty).0, at_least_spec(b, x, y, ty).0, y, x, ty);
}

pub proof fn shape_comparison(
    a: LedgerModel,
    b: LedgerModel,
    op: BinaryOperator,
    x: usize,
    y: usize,
    ty: IntegerType,
)
    requires
        alike(a, b),
    ensures
        alike(comparison_spec(a, op, x, y, ty).0, comparison_spec(b, op, x, y, ty).0),
        comparison_spec(a, op, x, y, ty).1 == comparison_spec(b, op, x, y, ty).1,
{
    shape_at_least(a, b, x, y, ty);
    shape_at_least(a, b, y, x, ty);
    shape_same_integer(a, b, x, y, ty);
}

pub proof fn shape_field_arithmetic(a: LedgerModel, b: LedgerModel, op: Arithmetic, x: usize, y: usize)
    requires
        alike(a, b),
    ensures
        alike(field_arithmetic_spec(a, op, x, y).0, field_arithmetic_spec(b, op, x, y).0),
        field_arithmetic_spec(a, op, x, y).1 == field_arithmetic_spec(b, op, x, y).1,
{
}

pub proof fn shape_operate(
    a: LedgerModel,
    b: LedgerModel,
    op: BinaryOperator,
    x: ValueModel,
    y: ValueModel,
    span: Span,
)
    requires
        alike(a, b),
    ensures
        evaluated_alike(operate_spec(a, op, x, y, span), operate_spec(b, op, x, y, span)),
{
    match (x, y) {
        (
            ValueModel::Scalar(Scalar::Integer { ty: s, first: p, .. }),
            ValueModel::Scalar(Scalar::Integer { ty: t, first: q, .. }),
        ) => {
            shape_comparison(a, b, op, p, q, s);
            shape_arithmetic(a, b, crate::operators::arithmetic_of(op), p, q, s);
        },
        (
            ValueModel::Scalar(Scalar::Field { wire: p, .. }),
            ValueModel::Scalar(Scalar::Field { wire: q, .. }),
        ) => {
            shape_field_arithmetic(a, b, crate::operators::arithmetic_of(op), p, q);
        },
        _ => {},
    }
}

pub proof fn shape_binary(
    a: LedgerModel,
    b: LedgerModel,
    op: BinaryOperator,
    x: ValueModel,
    y: ValueModel,
    span: Span,
)
    requires
        alike(a, b),
    ensures
        evaluated_alike(binary_spec(a, op, x, y, span), binary_spec(b, op, x, y, span)),
{
    shape_operate(a, b, op, x, y, span);
    shape_resolve_like(a, b, x, y, span);
    let p = resolve_like_spec(a, x, y, span);
    let q = resolve_like_spec(b, x, y, span);
    match p.0 {
        Ok(u) => {
            shape_resolve_like(p.1, q.1, y, u, span);
            let r = resolve_like_spec(p.1, y, u, span);
            let s = resolve_like_spec(q.1, y, u, span);
            match r.0 {
                Ok(v) => {
                    shape_operate(r.1, s.1, op, u, v, span);
                },
                Err(_) => {},
            }
        },
        Err(_) => {},
    }
}

pub proof fn shape_pick(
    a: LedgerModel,
    b: LedgerModel,
    elements: Seq<ValueModel>,
    ty: IntegerType,
    index: usize,
    k: nat,
    chosen: ValueModel,
    span: Span,
)
    requires
        alike(a, b),
    ensures
        evaluated_alike(
            pick_spec(a, elements, ty, index, k, chosen, span),
            pick_spec(b, elements, ty, index, k, chosen, span),
        ),
    decreases elements.len() - k,
{
    if k < elements.len() && crate::value::compatible(elements[k as int], chosen) {
        shape_constant_integer(a, b, ty, k as i128);
        let p = constant_integer_spec(a, ty, k as i128);
        let q = constant_integer_spec(b, ty, k as i128);
        shape_same_integer(p.0, q.0, index, p.1, ty);
        let r = same_integer_spec(p.0, index, p.1, ty);
        let s = same_integer_spec(q.0, index, q.1, ty);
        shape_select_value(r.0, s.0, r.1, elements[k as int], chosen);
        let u = select_value_spec(r.0, r.1, elements[k as int], chosen);
        let v = select_value_spec(s.0, s.1, elements[k as int], chosen);
        shape_pick(u.1, v.1, elements, ty, index, k + 1, u.0, span);
    }
}

pub proof fn shape_index(a: LedgerModel, b: LedgerModel, array: ValueModel, place: ValueModel, span: Span)
    requires
        alike(a, b),
    ensures
        evaluated_alike(index_spec(a, array, place, span), index_spec(b, array, place, span)),
{
    match array {
        ValueModel::Array(elements) => match index_of(place) {
            Index::Wire(ty, first) => {
                if elements.len() > 0 && ty.contains(elements.len() - 1) {
                    let top = (elements.len() - 1) as i128;
                    shape_constant_integer(a, b, ty, top);
                    let p = constant_integer_spec(a, ty, top);
                    let q = constant_integer_spec(b, ty, top);
                    shape_at_least(p.0, q.0, p.1, first, ty);
                    shape_pick(
                        bounded_spec(a, ty, first, top),
                        bounded_spec(b, ty, first, top),
                        elements,
                        ty,
                        first,
                        1,
                        elements[0],
                        span,
                    );
                }
            },
            _ => {},
        },
        _ => {},
    }
}

pub proof fn shape_bind(
    a: LedgerModel,
    b: LedgerModel,
    parameters: Seq<Parameter>,
    arguments: Seq<ValueModel>,
    index: nat,
    scope: ScopeModel,
    span: Span,
)
    requires
        alike(a, b),
    ensures
        bind_spec(a, parameters, arguments, index, scope, span).0 == bind_spec(
            b,
            parameters,
            arguments,
            index,
            scope,
            span,
        ).0,
        alike(
            bind_spec(a, parameters, arguments, index, scope, span).1,
            bind_spec(b, parameters, arguments, index, scope, span).1,
        ),
    decreases parameters.len() - index,
{
    if index < parameters.len() && index < arguments.len() {
        let ty = parameters[index as int].ty@;
        shape_resolve(a, b, arguments[index as int], ty, span);
        let p = resolve_spec(a, arguments[index as int], ty, span);
        let q = resolve_spec(b, arguments[index as int], ty, span);
        match p.0 {
            Ok(v) => {
                if crate::value::value_matches(v, ty) {
                    shape_bind(
                        p.1,
                        q.1,
                        parameters,
                        arguments,
                        index + 1,
                        crate::scope::scope_define(scope, parameters[index as int].name.name@, v),
                        span,
                    );
                }
            },
            Err(_) => {},
        }
    }
}

pub proof fn shape_enter(
    program: Program,
    a: LedgerModel,
    b: LedgerModel,
    callee: ValueModel,
    arguments: Seq<ValueModel>,
    span: Span,
)
    requires
        alike(a, b),
    ensures
        enter_spec(program, a, callee, arguments, span).0 == enter_spec(
            program,
            b,
            callee,
            arguments,
            span,
        ).0,
        alike(
            enter_spec(program, a, callee, arguments, span).1,
            enter_spec(program, b, callee, arguments, span).1,
        ),
{
    match callee {
        ValueModel::Scalar(Scalar::Function(i)) => {
            if i < program.functions@.len() {
                shape_bind(
                    a,
                    b,
                    program.functions@[i as int].parameters@,
                    arguments,
                    0,
                    crate::scope::scope_push(Seq::empty()),
                    span,
                );
            }
        },
        _ => {},
    }
}

pub proof fn shape_finish(
    a: LedgerModel,
    b: LedgerModel,
    output: Option<Type>,
    returned: Option<ValueModel>,
    span: Span,
)
    requires
        alike(a, b),
    ensures
        evaluated_alike(finish_spec(a, output, returned, span), finish_spec(b, output, returned, span)),
{
    match (output, returned) {
        (Some(ty), Some(v)) => {
            shape_resolve(a, b, v, ty@, span);
        },
        _ => {},
    }
}

pub proof fn shape_members(
    a: LedgerModel,
    b: LedgerModel,
    declared: Seq<CircuitMember>,
    names: Seq<Seq<char>>,
    values: Seq<ValueModel>,
    index: nat,
    done: Seq<ValueModel>,
    span: Span,
)
    requires
        alike(a, b),
    ensures
        members_spec(a, declared, names, values, index, done, span).0 == members_spec(
            b,
            declared,
            names,
            values,
            index,
            done,
            span,
        ).0,
        alike(
            members_spec(a, declared, names, values, index, done, span).1,
            members_spec(b, declared, names, values, index, done, span).1,
        ),
    decreases declared.len() - index,
{
    if index < declared.len() && index < names.len() && index < values.len()
        && declared[index as int].name.name@ == names[index as int] {
        let ty = declared[index as int].ty@;
        shape_resolve(a, b, values[index as int], ty, span);
        let p = resolve_spec(a, values[index as int], ty, span);
        let q = resolve_spec(b, values[index as int], ty, span);
        match p.0 {
            Ok(v) => {
                if crate::value::value_matches(v, ty) {
                    shape_members(p.1, q.1, declared, names, values, index + 1, done.push(v), span);
                }
            },
            Err(_) => {},
        }
    }
}

pub proof fn shape_instantiate(
    program: Program,
    a: LedgerModel,
    b: LedgerModel,
    name: Seq<char>,
    names: Seq<Seq<char>>,
    values: Seq<ValueModel>,
    span: Span,
)
    requires
        alike(a, b),
    ensures
        evaluated_alike(
            instantiate_spec(program, a, name, names, values, span),
            instantiate_spec(program, b, name, names, values, span),
        ),
{
    match crate::calls::circuit_position(program.circuits@, name, program.circuits@.len()) {
        Some(c) => {
            shape_members(
                a,
                b,
                program.circuits@[c as int].members@,
                names,
                values,
                0,
                Seq::empty(),
                span,
            );
        },
        None => {},
    }
}

pub proof fn shape_join(
    a: LedgerModel,
    b: LedgerModel,
    c: usize,
    scope: ScopeModel,
    first_scope: ScopeModel,
    first: Option<ValueModel>,
    second_scope: ScopeModel,
    second: Option<ValueModel>,
    span: Span,
)
    requires
        alike(a, b),
    ensures
        executed_alike(
            join_spec(a, c, scope, first_scope, first, second_scope, second, span),
            join_spec(b, c, scope, first_scope, first, second_scope, second, span),
        ),
{
    match (first, second) {
        (None, None) => {
            shape_merge_scope(a, b, c, first_scope, second_scope, 0, Seq::empty());
        },
        (Some(x), Some(y)) => {
            shape_select_value(a, b, c, x, y);
        },
        _ => {},
    }
}

/// The synthesis of an expression takes ledgers of one shape to ledgers of
/// one shape and gives the same value or the same error.
pub proof fn shape_evaluate(
    program: Program,
    scope: ScopeModel,
    a: LedgerModel,
    b: LedgerModel,
    expression: Expression,
    depth: nat,
)
    requires
        alike(a, b),
    ensures
        evaluated_alike(
            evaluate_spec(program, scope, a, expression, depth),
            evaluate_spec(program, scope, b, expression, depth),
        ),
    decreases depth, 0nat, expression, 0nat, 0nat,
{
    match expression {
        Expression::Integer(ty, literal, span) => {
            shape_integer_literal(a, b, ty, literal, span);
        },
        Expression::Not(operand, _) => {
            shape_evaluate(program, scope, a, b, *operand, depth);
        },
        Expression::Binary(op, left, right, span) => {
            shape_evaluate(program, scope, a, b, *left, depth);
            let p = evaluate_spec(program, scope, a, *left, depth);
            let q = evaluate_spec(program, scope, b, *left, depth);
            match p.0 {
                Ok(x) => {
                    shape_evaluate(program, scope, p.1, q.1, *right, depth);
                    let r = evaluate_spec(program, scope, p.1, *right, depth);
                    let s = evaluate_spec(program, scope, q.1, *right, depth);
                    match r.0 {
                        Ok(y) => {
                            shape_binary(r.1, s.1, op, x, y, span);
                        },
                        Err(_) => {},
                    }
                },
                Err(_) => {},
            }
        },
        Expression::Array(elements, _) => {
            shape_evaluate_list(program, scope, a, b, elements, 0, Seq::empty(), depth);
        },
        Expression::ArrayAccess(array, place, span) => {
            shape_evaluate(program, scope, a, b, *array, depth);
            let p = evaluate_spec(program, scope, a, *array, depth);
            let q = evaluate_spec(program, scope, b, *array, depth);
            match p.0 {
                Ok(x) => {
                    shape_evaluate(program, scope, p.1, q.1, *place, depth);
                    let r = evaluate_spec(program, scope, p.1, *place, depth);
                    let s = evaluate_spec(program, scope, q.1, *place, depth);
                    match r.0 {
                        Ok(y) => {
                            shape_index(r.1, s.1, x, y, span);
                        },
                        Err(_) => {},
                    }
                },
                Err(_) => {},
            }
        },
        Expression::Tuple(elements, _) => {
            shape_evaluate_list(program, scope, a, b, elements, 0, Seq::empty(), depth);
        },
        Expression::TupleAccess(tuple, _, _) => {
            shape_evaluate(program, scope, a, b, *tuple, depth);
        },
        Expression::Circuit(name, members, span) => {
            shape_evaluate_members(program, scope, a, b, members, 0, Seq::empty(), depth);
            let p = evaluate_members_spec(program, scope, a, members, 0, Seq::empty(), depth);
            let q = evaluate_members_spec(program, scope, b, members, 0, Seq::empty(), depth);
            match p.0 {
                Ok(values) => {
                    shape_instantiate(
                        program,
                        p.1,
                        q.1,
                        name.name@,
                        crate::synthesizer::member_names(members@),
                        values,
                        span,
                    );
                },
                Err(_) => {},
            }
        },
        Expression::CircuitMember(instance, _, _) => {
            shape_evaluate(program, scope, a, b, *instance, depth);
        },
        Expression::Call(name, arguments, span) => {
            if depth > 0 {
                match crate::calls::resolve_name_spec(program, scope, name) {
                    Ok(callee) => {
                        shape_evaluate_list(program, scope, a, b, arguments, 0, Seq::empty(), depth);
                        let p = evaluate_list_spec(
                            program,
                            scope,
                            a,
                            arguments,
                            0,
                            Seq::empty(),
                            depth,
                        );
                        let q = evaluate_list_spec(
                            program,
                            scope,
                            b,
                            arguments,
                            0,
                            Seq::empty(),
                            depth,
                        );
                        match p.0 {
                            Ok(values) => {
                                shape_call(
                                    program,
                                    p.1,
                                    q.1,
                                    callee,
                                    values,
                                    (depth - 1) as nat,
                                    span,
                                );
                            },
                            Err(_) => {},
                        }
                    },
                    Err(_) => {},
                }
            }
        },
        _ => {},
    }
}

/// A call takes ledgers of one shape to ledgers of one shape and gives the
/// same value or the same error.
pub proof fn shape_call(
    program: Program,
    a: LedgerModel,
    b: LedgerModel,
    callee: ValueModel,
    arguments: Seq<ValueModel>,
    fuel: nat,
    span: Span,
)
    requires
        alike(a, b),
    ensures
        evaluated_alike(
            call_spec(program, a, callee, arguments, fuel, span),
            call_spec(program, b, callee, arguments, fuel, span),
        ),
    decreases fuel, 3nat,
{
    shape_enter(program, a, b, callee, arguments, span);
    let p = enter_spec(program, a, callee, arguments, span);
    let q = enter_spec(program, b, callee, arguments, span);
    match p.0 {
        Ok((i, inner)) => {
            let body = program.functions@[i as int].body;
            shape_block(program, inner, p.1, q.1, body, 0, fuel);
            let r = block_spec(program, inner, p.1, body, 0, fuel);
            let s = block_spec(program, inner, q.1, body, 0, fuel);
            match r.0 {
                Ok(returned) => {
                    shape_finish(r.2, s.2, program.functions@[i as int].output, returned, span);
                },
                Err(_) => {},
            }
        },
        Err(_) => {},
    }
}

pub proof fn shape_evaluate_list(
    program: Program,
    scope: ScopeModel,
    a: LedgerModel,
    b: LedgerModel,
    expressions: Vec<Expression>,
    index: nat,
    done: Seq<ValueModel>,
    depth: nat,
)
    requires
        alike(a, b),
    ensures
        evaluate_list_spec(program, scope, a, expressions, index, done, depth).0
            == evaluate_list_spec(program, scope, b, expressions, index, done, depth).0,
        alike(
            evaluate_list_spec(program, scope, a, expressions, index, done, depth).1,
            evaluate_list_spec(program, scope, b, expressions, index, done, depth).1,
        ),
    decreases depth, 0nat, expressions, 0nat, expressions@.len() - index,
{
    if index < expressions@.len() {
        shape_evaluate(program, scope, a, b, expressions@[index as int], depth);
        let p = evaluate_spec(program, scope, a, expressions@[index as int], depth);
        let q = evaluate_spec(program, scope, b, expressions@[index as int], depth);
        match p.0 {
            Ok(v) => {
                shape_evaluate_list(
                    program,
                    scope,
                    p.1,
                    q.1,
                    expressions,
                    index + 1,
                    done.push(v),
                    depth,
                );
            },
            Err(_) => {},
        }
    }
}

pub proof fn shape_evaluate_members(
    program: Program,
    scope: ScopeModel,
    a: LedgerModel,
    b: LedgerModel,
    members: Vec<CircuitVariable>,
    index: nat,
    done: Seq<ValueModel>,
    depth: nat,
)
    requires
        alike(a, b),
    ensures
        evaluate_members_spec(program, scope, a, members, index, done, depth).0
            == evaluate_members_spec(program, scope, b, members, index, done, depth).0,
        alike(
            evaluate_members_spec(program, scope, a, members, index, done, depth).1,
            evaluate_members_spec(program, scope, b, members, index, done, depth).1,
        ),
    decreases depth, 0nat, members, 0nat, members@.len() - index,
{
    if index < members@.len() {
        shape_evaluate(program, scope, a, b, members@[index as int].expression, depth);
        let p = evaluate_spec(program, scope, a, members@[index as int].expression, depth);
        let q = evaluate_spec(program, scope, b, members@[index as int].expression, depth);
        match p.0 {
            Ok(v) => {
                shape_evaluate_members(
                    program,
                    scope,
                    p.1,
                    q.1,
                    members,
                    index + 1,
                    done.push(v),
                    depth,
                );
            },
            Err(_) => {},
        }
    }
}

pub proof fn shape_update(
    program: Program,
    scope: ScopeModel,
    a: LedgerModel,
    b: LedgerModel,
    target: ValueModel,
    accesses: Vec<Access>,
    index: nat,
    value: ValueModel,
    depth: nat,
    span: Span,
)
    requires
        alike(a, b),
    ensures
        update_spec(program, scope, a, target, accesses, index, value, depth, span).0
            == update_spec(program, scope, b, target, accesses, index, value, depth, span).0,
        alike(
            update_spec(program, scope, a, target, accesses, index, value, depth, span).1,
            update_spec(program, scope, b, target, accesses, index, value, depth, span).1,
        ),
    decreases depth, 1nat, accesses, 0nat, accesses@.len() - index,
{
    if index >= accesses@.len() {
        shape_resolve_like(a, b, value, target, span);
    } else {
        match accesses@[index as int] {
            Access::Index(place) => {
                shape_evaluate(program, scope, a, b, place, depth);
                let p = evaluate_spec(program, scope, a, place, depth);
                let q = evaluate_spec(program, scope, b, place, depth);
                match p.0 {
                    Ok(i) => match target {
                        ValueModel::Array(elements) => match index_of(i) {
                            Index::Constant(n) => {
                                if 0 <= n < elements.len() {
                                    shape_update(
                                        program,
                                        scope,
                                        p.1,
                                        q.1,
                                        elements[n as int],
                                        accesses,
                                        index + 1,
                                        value,
                                        depth,
                                        span,
                                    );
                                }
                            },
                            _ => {},
                        },
                        _ => {},
                    },
                    Err(_) => {},
                }
            },
            Access::Member(member) => match target {
                ValueModel::Circuit(_, names, values) => match crate::access::position(
                    names,
                    member.name@,
                    names.len(),
                ) {
                    Some(k) => {
                        if k < values.len() {
                            shape_update(
                                program,
                                scope,
                                a,
                                b,
                                values[k as int],
                                accesses,
                                index + 1,
                                value,
                                depth,
                                span,
                            );
                        }
                    },
                    None => {},
                },
                _ => {},
            },
        }
    }
}

/// The synthesis of a statement takes ledgers of one shape to ledgers of one
/// shape and leaves the same scope and the same result. For a conditional
/// this says that both of its branches are synthesized whatever the witness of
/// its condition is.
pub proof fn shape_statement(
    program: Program,
    scope: ScopeModel,
    a: LedgerModel,
    b: LedgerModel,
    statement: Statement,
    depth: nat,
)
    requires
        alike(a, b),
    ensures
        executed_alike(
            statement_spec(program, scope, a, statement, depth),
            statement_spec(program, scope, b, statement, depth),
        ),
    decreases depth, 2nat, statement, 0nat, 0nat,
{
    match statement {
        Statement::Return(expression, _) => {
            shape_evaluate(program, scope, a, b, expression, depth);
        },
        Statement::Definition(_, declared, expression, span) => {
            shape_evaluate(program, scope, a, b, expression, depth);
            let p = evaluate_spec(program, scope, a, expression, depth);
            let q = evaluate_spec(program, scope, b, expression, depth);
            match (p.0, declared) {
                (Ok(v), Some(ty)) => {
                    shape_resolve(p.1, q.1, v, ty@, span);
                },
                _ => {},
            }
        },
        Statement::Assign(assignee, expression, span) => {
            shape_evaluate(program, scope, a, b, expression, depth);
            let p = evaluate_spec(program, scope, a, expression, depth);
            let q = evaluate_spec(program, scope, b, expression, depth);
            match p.0 {
                Ok(v) => match crate::scope::scope_lookup(scope, assignee.identifier.name@) {
                    Some(target) => {
                        shape_update(
                            program,
                            scope,
                            p.1,
                            q.1,
                            target,
                            assignee.accesses,
                            0,
                            v,
                            depth,
                            span,
                        );
                    },
                    None => {},
                },
                Err(_) => {},
            }
        },
        Statement::Conditional(condition, first, second, span) => {
            shape_evaluate(program, scope, a, b, condition, depth);
            let p = evaluate_spec(program, scope, a, condition, depth);
            let q = evaluate_spec(program, scope, b, condition, depth);
            match p.0 {
                Ok(ValueModel::Scalar(Scalar::Boolean { wire, .. })) => {
                    let inner = crate::scope::scope_push(scope);
                    shape_block(program, inner, p.1, q.1, first, 0, depth);
                    let r = block_spec(program, inner, p.1, first, 0, depth);
                    let s = block_spec(program, inner, q.1, first, 0, depth);
                    match r.0 {
                        Ok(x) => {
                            shape_block(program, inner, r.2, s.2, second, 0, depth);
                            let u = block_spec(program, inner, r.2, second, 0, depth);
                            let v = block_spec(program, inner, s.2, second, 0, depth);
                            match u.0 {
                                Ok(y) => {
                                    shape_join(
                                        u.2,
                                        v.2,
                                        wire,
                                        scope,
                                        crate::scope::scope_pop(r.1),
                                        x,
                                        crate::scope::scope_pop(u.1),
                                        y,
                                        span,
                                    );
                                },
                                Err(_) => {},
                            }
                        },
                        Err(_) => {},
                    }
                },
                _ => {},
            }
        },
        Statement::Iteration(variable, lower, upper, body, span) => {
            shape_evaluate(program, scope, a, b, lower, depth);
            let p = evaluate_spec(program, scope, a, lower, depth);
            let q = evaluate_spec(program, scope, b, lower, depth);
            match p.0 {
                Ok(x) => {
                    shape_evaluate(program, scope, p.1, q.1, upper, depth);
                    let r = evaluate_spec(program, scope, p.1, upper, depth);
                    let s = evaluate_spec(program, scope, q.1, upper, depth);
                    match r.0 {
                        Ok(y) => match (
                            crate::synthesizer::bound_of(x),
                            crate::synthesizer::bound_of(y),
                        ) {
                            (Some((from, m)), Some((to, n))) => {
                                shape_iteration(
                                    program,
                                    scope,
                                    r.1,
                                    s.1,
                                    variable,
                                    crate::synthesizer::loop_type(m, n),
                                    from as int,
                                    to as int,
                                    body,
                                    depth,
                                    span,
                                );
                            },
                            _ => {},
                        },
                        Err(_) => {},
                    }
                },
                Err(_) => {},
            }
        },
        Statement::Assert(condition, _) => {
            shape_evaluate(program, scope, a, b, condition, depth);
        },
        Statement::AssertEq(left, right, span) => {
            shape_evaluate(program, scope, a, b, left, depth);
            let p = evaluate_spec(program, scope, a, left, depth);
            let q = evaluate_spec(program, scope, b, left, depth);
            match p.0 {
                Ok(x) => {
                    shape_evaluate(program, scope, p.1, q.1, right, depth);
                    let r = evaluate_spec(program, scope, p.1, right, depth);
                    let s = evaluate_spec(program, scope, q.1, right, depth);
                    match r.0 {
                        Ok(y) => {
                            shape_resolve_like(r.1, s.1, x, y, span);
                            let u = resolve_like_spec(r.1, x, y, span);
                            let v = resolve_like_spec(s.1, x, y, span);
                            match u.0 {
                                Ok(m) => {
                                    shape_resolve_like(u.1, v.1, y, m, span);
                                    let g = resolve_like_spec(u.1, y, m, span);
                                    let h = resolve_like_spec(v.1, y, m, span);
                                    match g.0 {
                                        Ok(n) => {
                                            shape_equal_value(g.1, h.1, m, n);
                                        },
                                        Err(_) => {},
                                    }
                                },
                                Err(_) => {},
                            }
                        },
                        Err(_) => {},
                    }
                },
                Err(_) => {},
            }
        },
        Statement::Expression(expression, _) => {
            shape_evaluate(program, scope, a, b, expression, depth);
        },
    }
}

pub proof fn shape_block(
    program: Program,
    scope: ScopeModel,
    a: LedgerModel,
    b: LedgerModel,
    statements: Vec<Statement>,
    index: nat,
    depth: nat,
)
    requires
        alike(a, b),
    ensures
        executed_alike(
            block_spec(program, scope, a, statements, index, depth),
            block_spec(program, scope, b, statements, index, depth),
        ),
    decreases depth, 2nat, statements, 0nat, statements@.len() - index,
{
    if index < statements@.len() {
        shape_statement(program, scope, a, b, statements@[index as int], depth);
        let p = statement_spec(program, scope, a, statements@[index as int], depth);
        let q = statement_spec(program, scope, b, statements@[index as int], depth);
        match p.0 {
            Ok(None) => {
                shape_block(program, p.1, p.2, q.2, statements, index + 1, depth);
            },
            _ => {},
        }
    }
}

pub proof fn shape_iteration(
    program: Program,
    scope: ScopeModel,
    a: LedgerModel,
    b: LedgerModel,
    variable: Identifier,
    ty: IntegerType,
    from: int,
    to: int,
    body: Vec<Statement>,
    depth: nat,
    span: Span,
)
    requires
        alike(a, b),
    ensures
        executed_alike(
            iteration_spec(program, scope, a, variable, ty, from, to, body, depth, span),
            iteration_spec(program, scope, b, variable, ty, from, to, body, depth, span),
        ),
    decreases depth, 2nat, body, 1nat, to - from,
{
    if from < to && ty.contains(from) {
        shape_constant_integer(a, b, ty, from as i128);
        let p = constant_integer_spec(a, ty, from as i128);
        let q = constant_integer_spec(b, ty, from as i128);
        let inner = crate::scope::scope_define(
            crate::scope::scope_push(scope),
            variable.name@,
            crate::operators::integer_value(ty, p.1, Some(from as i128)),
        );
        shape_block(program, inner, p.0, q.0, body, 0, depth);
        let r = block_spec(program, inner, p.0, body, 0, depth);
        let s = block_spec(program, inner, q.0, body, 0, depth);
        match r.0 {
            Ok(None) => {
                shape_iteration(
                    program,
                    crate::scope::scope_pop(r.1),
                    r.2,
                    s.2,
                    variable,
                    ty,
                    from + 1,
                    to,
                    body,
                    depth,
                    span,
                );
            },
            _ => {},
        }
    }
}

/// The wires of an input depend on its type alone, not on the value given.
pub proof fn shape_allocate(
    a: LedgerModel,
    b: LedgerModel,
    ty: Type,
    first: Option<InputValue>,
    second: Option<InputValue>,
)
    requires
        alike(a, b),
    ensures
        allocate_spec(a, ty, first).0 == allocate_spec(b, ty, second).0,
        alike(allocate_spec(a, ty, first).1, allocate_spec(b, ty, second).1),
    decreases ty, 0nat,
{
    match ty {
        Type::Integer(t) => {
            shape_input_integer(
                a,
                b,
                t,
                match first {
                    Some(InputValue::Integer(_, n)) => Some(n),
                    _ => None,
                },
                match second {
                    Some(InputValue::Integer(_, n)) => Some(n),
                    _ => None,
                },
            );
        },
        Type::Array(element, length) => {
            shape_allocate_array(
                a,
                b,
                *element,
                elements_of(first),
                elements_of(second),
                0,
                length as nat,
                Seq::empty(),
            );
        },
        Type::Tuple(types) => {
            shape_allocate_tuple(a, b, types, elements_of(first), elements_of(second), 0, Seq::empty());
        },
        _ => {},
    }
}

pub proof fn shape_allocate_array(
    a: LedgerModel,
    b: LedgerModel,
    element: Type,
    first: Option<Vec<InputValue>>,
    second: Option<Vec<InputValue>>,
    index: nat,
    length: nat,
    done: Seq<ValueModel>,
)
    requires
        alike(a, b),
    ensures
        allocate_array_spec(a, element, first, index, length, done).0 == allocate_array_spec(
            b,
            element,
            second,
            index,
            length,
            done,
        ).0,
        alike(
            allocate_array_spec(a, element, first, index, length, done).1,
            allocate_array_spec(b, element, second, index, length, done).1,
        ),
    decreases element, 1 + length - index,
{
    if index < length {
        shape_allocate(a, b, element, element_at(first, index), element_at(second, index));
        let p = allocate_spec(a, element, element_at(first, index));
        let q = allocate_spec(b, element, element_at(second, index));
        shape_allocate_array(p.1, q.1, element, first, second, index + 1, length, done.push(p.0));
    }
}

pub proof fn shape_allocate_tuple(
    a: LedgerModel,
    b: LedgerModel,
    types: Vec<Type>,
    first: Option<Vec<InputValue>>,
    second: Option<Vec<InputValue>>,
    index: nat,
    done: Seq<ValueModel>,
)
    requires
        alike(a, b),
    ensures
        allocate_tuple_spec(a, types, first, index, done).0 == allocate_tuple_spec(
            b,
            types,
            second,
            index,
            done,
        ).0,
        alike(
            allocate_tuple_spec(a, types, first, index, done).1,
            allocate_tuple_spec(b, types, second, index, done).1,
        ),
    decreases types, 1 + types@.len() - index,
{
    if index < types@.len() {
        shape_allocate(a, b, types@[index as int], element_at(first, index), element_at(second, index));
        let p = allocate_spec(a, types@[index as int], element_at(first, index));
        let q = allocate_spec(b, types@[index as int], element_at(second, index));
        shape_allocate_tuple(p.1, q.1, types, first, second, index + 1, done.push(p.0));
    }
}

/// Every value that the inputs give for a parameter has the type of the parameter.
pub open spec fn inputs_admissible(
    entries: Seq<Input>,
    parameters: Seq<Parameter>,
    witness: bool,
) -> bool {
    forall|i: int|
        0 <= i < parameters.len() ==> (input_for(entries, #[trigger] parameters[i], witness)
            matches Some(v) ==> input_fits(v, parameters[i].ty))
}

pub proof fn shape_arguments(
    a: LedgerModel,
    b: LedgerModel,
    parameters: Seq<Parameter>,
    first: Seq<Input>,
    second: Seq<Input>,
    first_witness: bool,
    second_witness: bool,
    index: nat,
    done: Seq<ValueModel>,
)
    requires
        alike(a, b),
        inputs_admissible(first, parameters, first_witness),
        inputs_admissible(second, parameters, second_witness),
    ensures
        arguments_spec(a, parameters, first, first_witness, index, done).0 == arguments_spec(
            b,
            parameters,
            second,
            second_witness,
            index,
            done,
        ).0,
        alike(
            arguments_spec(a, parameters, first, first_witness, index, done).1,
            arguments_spec(b, parameters, second, second_witness, index, done).1,
        ),
    decreases parameters.len() - index,
{
    if index < parameters.len() {
        let parameter = parameters[index as int];
        let u = input_for(first, parameter, first_witness);
        let v = input_for(second, parameter, second_witness);
        if supported(parameter.ty) {
            shape_allocate(a, b, parameter.ty, u, v);
            let p = allocate_spec(a, parameter.ty, u);
            let q = allocate_spec(b, parameter.ty, v);
            shape_arguments(
                p.1,
                q.1,
                parameters,
                first,
                second,
                first_witness,
                second_witness,
                index + 1,
                done.push(p.0),
            );
        }
    }
}

/// The inputs of the program give, for every parameter of the entry
/// function, either nothing or a value of its type.
pub open spec fn inputs_fit_entry(program: Program, inputs: Inputs, witness: bool) -> bool {
    match crate::calls::function_position(
        program.functions@,
        "main"@,
        program.functions@.len(),
    ) {
        Some(entry) => inputs_admissible(
            inputs.entries@,
            program.functions@[entry as int].parameters@,
            witness,
        ),
        None => true,
    }
}

/// The constraint system of a program does not depend on the values of its
/// inputs: two syntheses of one program, with whatever values of its inputs
/// or with none, leave ledgers of the same number of wires and the same
/// constraints, and reach an assertion both or neither. Nor does the outcome
/// depend on them, but for a witness value that leaves its
/// type: where the two inputs declare the same registers and neither
/// synthesis records a violation, both succeed, or both fail with the same
/// error.
pub proof fn lemma_shape_independent_of_inputs(
    program: Program,
    first: Inputs,
    second: Inputs,
    first_witness: bool,
    second_witness: bool,
    a: LedgerModel,
    b: LedgerModel,
)
    requires
        alike(a, b),
        inputs_fit_entry(program, first, first_witness),
        inputs_fit_entry(program, second, second_witness),
    ensures
        alike(
            synthesize_spec(program, first, first_witness, a).1,
            synthesize_spec(program, second, second_witness, b).1,
        ),
        synthesize_spec(program, first, first_witness, a).1.constraints.len() == synthesize_spec(
            program,
            second,
            second_witness,
            b,
        ).1.constraints.len(),
        synthesize_spec(program, first, first_witness, a).1.asserted == synthesize_spec(
            program,
            second,
            second_witness,
            b,
        ).1.asserted,
        ({
            let p = synthesize_spec(program, first, first_witness, a);
            let q = synthesize_spec(program, second, second_witness, b);
            first.registers@ == second.registers@ && !p.1.violated && !q.1.violated ==> {
                &&& p.0 is Ok <==> q.0 is Ok
                &&& p.0 matches Err(e) ==> q.0 == Err::<Seq<u8>, CompilerError>(e)
            }
        }),
{
    match crate::calls::function_position(
        program.functions@,
        "main"@,
        program.functions@.len(),
    ) {
        Some(entry) => {
            let function = program.functions@[entry as int];
            shape_arguments(
                a,
                b,
                function.parameters@,
                first.entries@,
                second.entries@,
                first_witness,
                second_witness,
                0,
                Seq::empty(),
            );
            let p = arguments_spec(
                a,
                function.parameters@,
                first.entries@,
                first_witness,
                0,
                Seq::empty(),
            );
            let q = arguments_spec(
                b,
                function.parameters@,
                second.entries@,
                second_witness,
                0,
                Seq::empty(),
            );
            match p.0 {
                Ok(arguments) => {
                    shape_call(
                        program,
                        p.1,
                        q.1,
                        ValueModel::Scalar(Scalar::Function(entry as usize)),
                        arguments,
                        crate::synthesizer::MAX_CALL_DEPTH as nat,
                        function.span,
                    );
                },
                Err(_) => {},
            }
        },
        None => {},
    }
}

} // verus!
