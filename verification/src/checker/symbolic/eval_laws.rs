//! What expressions and calls evaluate to.

use vstd::arithmetic::power2::pow2;
use vstd::prelude::*;
use crate::ast::{BinOp, ExprV, LValueV, ParamV, StmtV};
use crate::checker::symbolic::arith::{has_zero, mul_leaves};
use crate::checker::symbolic::block_laws::{
    functions_have_their_paths, is_outcome, is_path, lemma_firsts, lemma_pushed,
};
use crate::checker::symbolic::builtin_laws::{
    conjunction_of_bytes, exact, inverse_is_a_method_of_the_field, is_byte_and,
};
use crate::checker::symbolic::builtins::{is_builtin_function, max_abs, product_stays};
use crate::checker::symbolic::canonical::canonical;
use crate::checker::symbolic::context::{lookup, ClassifyError, MemoryEventKind, PathKind};
use crate::checker::symbolic::error::ExecError;
use crate::checker::symbolic::expr::{Formula, SymType, Term, FIELD_MODULUS};
use crate::checker::symbolic::index::index_of;
use crate::checker::symbolic::leaf_laws::{child, leaf, under};
use crate::checker::symbolic::meaning::{
    all_hold, as_int_is_indicator, holds, products_fit, value,
};
use crate::checker::symbolic::operator_laws::{
    op_value, operators_mean_arithmetic, reduction_is_modulo_the_field,
};
use crate::checker::symbolic::place::{
    loaded, read_of, scalar_node, stored, write_back_then_load, PlaceV,
};
use crate::checker::symbolic::range::{respects_hints, respects_sorts};
use crate::checker::symbolic::results::{OutcomeV, ValueStepV};
use crate::checker::symbolic::semantics::{
    after_call, binary_of, bind_args, builtin_of, byte_lookup, call_of, call_stmt_of, combine_each,
    discarded, eval_all, eval_of, exec_of, interp, interp_eval, interp_exec, lookup_of, map_pair_of,
    method_value, path_id, path_key, projected, returned, run_of, written_back, Flow, InterpV,
};
use crate::checker::symbolic::state::{EventV, ExecStatus, MapReadV, StateV};
use crate::checker::symbolic::state_laws::{adding_is_conjunction, sound_at};
use crate::checker::symbolic::state_ops::{cached_read, in_range, lemma_cond_keeps};
use crate::checker::symbolic::stmt_laws::{
    is_of_sort, is_sole_value, is_true, is_value, lemma_eval_follows, lemma_sole,
};
use crate::checker::symbolic::store::{node_at, NodeV};
use crate::text::lower;

verus! {

/// A literal has the value that it writes, and evaluating it changes nothing.
pub proof fn literals_have_their_value(
    n: nat,
    st: StateV,
    k: u64,
    b: bool,
    env: spec_fn(Seq<char>) -> int,
)
    ensures
        exists|v: ValueStepV| #[trigger]
            is_sole_value(interp(n + 1), ExprV::Int(k), st, v) && v.1 == st && value(v.0, env) == k,
        exists|v: ValueStepV| #[trigger]
            is_sole_value(interp(n + 1), ExprV::Bool(b), st, v) && v.1 == st && value(v.0, env) == (
            if b {
                1int
            } else {
                0
            }),
{
    reveal(eval_of);
    interp_eval(n + 1, ExprV::Int(k), st);
    interp_eval(n + 1, ExprV::Bool(b), st);
    let vi = (Term::Int(k as int), st);
    assert(is_sole_value(interp(n + 1), ExprV::Int(k), st, vi));
    assert(value(vi.0, env) == k);
    let f = Formula::Bool(b);
    let vb = (crate::checker::symbolic::expr::as_int_term(f), st);
    as_int_is_indicator(f, env);
    assert(holds(f, env) == b);
    assert(is_sole_value(interp(n + 1), ExprV::Bool(b), st, vb));
}

/// Parentheses change nothing.
pub proof fn parentheses_keep_values(n: nat, e: ExprV, st: StateV)
    ensures
        (interp(n + 1).eval)(ExprV::Paren(Box::new(e)), st) == (interp(n).eval)(e, st),
{
    reveal(eval_of);
    interp_eval(n + 1, ExprV::Paren(Box::new(e)), st);
}

/// A variable has the scalar that it is bound to; a name that is not bound has the value of the
/// constant that it refers to.
pub proof fn names_have_their_value(
    n: nat,
    segments: Seq<Seq<char>>,
    id: i64,
    st: StateV,
    v: ValueStepV,
)
    requires
        is_value(interp(n + 1), ExprV::Path { segments, ref_id: Some(id) }, st, v),
    ensures
        v.1 == st,
        st.store.contains_key(id as int) ==> st.store[id as int] is Scalar && v.0
            == st.store[id as int]->Scalar_0.surface,
        !st.store.contains_key(id as int) && st.ctx.const_ints.contains_key(id) ==> v.0 == Term::Int(
            st.ctx.const_ints[id] as int,
        ),
{
    reveal(eval_of);
    reveal(StateV::path_value);
    let e = ExprV::Path { segments, ref_id: Some(id) };
    interp_eval(n + 1, e, st);
    let vs = (interp(n + 1).eval)(e, st)->Ok_0;
    let i = choose|i: int| 0 <= i < vs.len() && vs[i] == v;
}

/// A field of a struct has the scalar at that field below the node of the struct.
pub proof fn fields_have_their_value(
    n: nat,
    base: ExprV,
    name: Seq<char>,
    ref_id: Option<i64>,
    st: StateV,
    v: ValueStepV,
)
    requires
        !(base is MapIndex),
        is_value(interp(n + 1), ExprV::Field { base: Box::new(base), name, ref_id }, st, v),
    ensures
        v.1 == st,
        exists|node: NodeV, sid: i64, fid: i64|
            st.expr_node(base) == Ok::<Option<NodeV>, ExecError>(Some(node)) && st.ctx.field(
                sid,
                name,
            ) == Some(fid) && #[trigger] is_field_of(st, base, sid, node, fid) && leaf(
                node,
                seq![fid as int],
            ) is Some && leaf(node, seq![fid as int])->0.surface == v.0,
{
    reveal(eval_of);
    reveal(StateV::field_value);
    let e = ExprV::Field { base: Box::new(base), name, ref_id };
    interp_eval(n + 1, e, st);
    let vs = (interp(n + 1).eval)(e, st)->Ok_0;
    let i = choose|i: int| 0 <= i < vs.len() && vs[i] == v;
    let node = st.expr_node(base)->Ok_0->0;
    let ty = st.expr_type(base)->Ok_0->0;
    let sid = ty->Path_ref_id->0;
    let fid = st.ctx.field(sid, name)->0;
    assert(is_field_of(st, base, sid, node, fid));
    assert(seq![fid as int].drop_first() =~= seq![]);
    reveal_with_fuel(under, 2);
}

/// The base of a field is of a struct type, and its node has the field.
pub open spec fn is_field_of(st: StateV, base: ExprV, sid: i64, node: NodeV, fid: i64) -> bool {
    &&& st.expr_type(base) is Ok
    &&& st.expr_type(base)->Ok_0 is Some
    &&& st.expr_type(base)->Ok_0->0 is Path
    &&& st.expr_type(base)->Ok_0->0->Path_ref_id == Some(sid)
    &&& child(node, fid as int) is Some
}

/// An element of an array has the scalar at that index below the node of the array.
pub proof fn elements_have_their_value(n: nat, base: ExprV, idx: ExprV, st: StateV, v: ValueStepV)
    requires
        is_value(interp(n + 1), ExprV::Index(Box::new(base), Box::new(idx)), st, v),
    ensures
        v.1 == st,
        ({
            let node = st.expr_node(base)->Ok_0->0;
            let i = index_of(st.ctx, Some(st.store), idx)->Ok_0->0;
            &&& st.expr_node(base) is Ok
            &&& st.expr_node(base)->Ok_0 is Some
            &&& index_of(st.ctx, Some(st.store), idx) is Ok
            &&& index_of(st.ctx, Some(st.store), idx)->Ok_0 is Some
            &&& leaf(node, seq![i as int]) is Some
            &&& leaf(node, seq![i as int])->0.surface == v.0
        }),
{
    reveal(eval_of);
    reveal(StateV::index_value);
    let e = ExprV::Index(Box::new(base), Box::new(idx));
    interp_eval(n + 1, e, st);
    let vs = (interp(n + 1).eval)(e, st)->Ok_0;
    let k = choose|k: int| 0 <= k < vs.len() && vs[k] == v;
    let i = index_of(st.ctx, Some(st.store), idx)->Ok_0->0;
    assert(seq![i as int].drop_first() =~= seq![]);
    reveal_with_fuel(under, 2);
}

/// A name is not both a constant and bound to a scalar.
pub open spec fn is_one_kind(st: StateV, e: ExprV) -> bool
    decreases e,
{
    match e {
        ExprV::Path { ref_id: Some(id), .. } => !(st.store.contains_key(id as int)
            && st.ctx.const_ints.contains_key(id)),
        ExprV::Paren(inner) => is_one_kind(st, *inner),
        _ => true,
    }
}

/// The index that an expression denotes is its value.
pub proof fn indices_are_values(n: nat, e: ExprV, st: StateV, v: ValueStepV, i: usize)
    requires
        index_of(st.ctx, Some(st.store), e) == Ok::<Option<usize>, ExecError>(Some(i)),
        is_value(interp(n), e, st, v),
        is_one_kind(st, e),
    ensures
        v == (Term::Int(i as int), st),
    decreases e,
{
    reveal(eval_of);
    reveal(StateV::path_value);
    interp_eval(n, e, st);
    let vs = (interp(n).eval)(e, st)->Ok_0;
    let k = choose|k: int| 0 <= k < vs.len() && vs[k] == v;
    if let ExprV::Paren(inner) = e {
        indices_are_values((n - 1) as nat, *inner, st, v, i);
    }
}

/// The integer that an operator makes of two integers, before any reduction.
pub open spec fn result_of(op: BinOp, x: int, y: int) -> int {
    match op {
        BinOp::Add => x + y,
        BinOp::Sub => x - y,
        BinOp::Mul => x * y,
        BinOp::BitAnd => if x != 0 && y != 0 {
            1
        } else {
            0
        },
        _ => if is_true(op, x, y) {
            1
        } else {
            0
        },
    }
}

/// Nothing saturates when two terms are multiplied.
pub open spec fn multiplies_exactly(op: BinOp, a: Term, b: Term) -> bool {
    op == BinOp::Mul ==> products_fit(mul_leaves(seq![a, b])) || has_zero(mul_leaves(seq![a, b]))
}

/// The variables of the operation have values of their sorts.
pub open spec fn operands_respect_sorts(
    s: StateV,
    op: BinOp,
    a: Term,
    b: Term,
    env: spec_fn(Seq<char>) -> int,
) -> bool {
    s.combined(op, false, a, b) is Ok && respects_sorts(
        s.combined(op, false, a, b)->Ok_0,
        s.hints,
        env,
    )
}

/// A value of an operation on the values of its operands.
pub open spec fn is_result(
    op: BinOp,
    modded: bool,
    l: ValueStepV,
    r: ValueStepV,
    v: ValueStepV,
    env: spec_fn(Seq<char>) -> int,
) -> bool {
    let raw = result_of(op, value(l.0, env), value(r.0, env));
    &&& v.1 == r.1
    &&& multiplies_exactly(op, l.0, r.0) && !modded ==> value(v.0, env) == raw
    &&& multiplies_exactly(op, l.0, r.0) && modded && respects_hints(r.1.hints, env)
        && operands_respect_sorts(r.1, op, l.0, r.0, env) ==> value(v.0, env) == raw % (
    FIELD_MODULUS as int)
}

proof fn lemma_combined(
    op: BinOp,
    modded: bool,
    l: ValueStepV,
    r: ValueStepV,
    env: spec_fn(Seq<char>) -> int,
)
    requires
        r.1.combined(op, modded, l.0, r.0) is Ok,
    ensures
        is_result(op, modded, l, r, (r.1.combined(op, modded, l.0, r.0)->Ok_0, r.1), env),
{
    let s = r.1;
    assert(s.combined(op, false, l.0, r.0) is Ok) by {
        reveal(StateV::combined);
    }
    assert(op_value(op, value(l.0, env), value(r.0, env)) == result_of(
        op,
        value(l.0, env),
        value(r.0, env),
    ));
    if multiplies_exactly(op, l.0, r.0) {
        operators_mean_arithmetic(s, op, l.0, r.0, env);
        if modded && respects_hints(s.hints, env) && operands_respect_sorts(
            s,
            op,
            l.0,
            r.0,
            env,
        ) {
            reduction_is_modulo_the_field(s, op, l.0, r.0, env);
        }
    }
}

proof fn lemma_combine_each(
    op: BinOp,
    modded: bool,
    l: ValueStepV,
    rs: Seq<ValueStepV>,
    acc: Seq<ValueStepV>,
    v: ValueStepV,
)
    requires
        combine_each(op, modded, l.0, rs, acc) is Ok,
    ensures
        combine_each(op, modded, l.0, rs, acc)->Ok_0.contains(v) <==> acc.contains(v) || exists|
            r: ValueStepV,
        | #[trigger]
            rs.contains(r) && r.1.combined(op, modded, l.0, r.0) == Ok::<Term, ExecError>(v.0) && v.1
                == r.1,
        forall|r: ValueStepV| #[trigger]
            rs.contains(r) ==> r.1.combined(op, modded, l.0, r.0) is Ok,
    decreases rs.len(),
{
    reveal(combine_each);
    if rs.len() > 0 {
        let r = rs[0];
        let t = r.1.combined(op, modded, l.0, r.0)->Ok_0;
        lemma_combine_each(op, modded, l, rs.drop_first(), acc.push((t, r.1)), v);
        lemma_pushed(acc, (t, r.1), v);
        lemma_firsts(rs);
    }
}

proof fn lemma_binary(
    m: InterpV,
    op: BinOp,
    modded: bool,
    ls: Seq<ValueStepV>,
    rhs: ExprV,
    acc: Seq<ValueStepV>,
    v: ValueStepV,
)
    requires
        binary_of(op, modded, ls, rhs, m, acc) is Ok,
    ensures
        binary_of(op, modded, ls, rhs, m, acc)->Ok_0.contains(v) <==> acc.contains(v) || exists|
            l: ValueStepV,
            r: ValueStepV,
        |
            #![trigger ls.contains(l), is_value(m, rhs, l.1, r)]
            ls.contains(l) && is_value(m, rhs, l.1, r) && r.1.combined(op, modded, l.0, r.0) == Ok::<
                Term,
                ExecError,
            >(v.0) && v.1 == r.1,
        forall|l: ValueStepV, r: ValueStepV|
            #![trigger ls.contains(l), is_value(m, rhs, l.1, r)]
            ls.contains(l) && is_value(m, rhs, l.1, r) ==> r.1.combined(op, modded, l.0, r.0) is Ok,
    decreases ls.len(),
{
    reveal(binary_of);
    if ls.len() > 0 {
        let l = ls[0];
        let rs = (m.eval)(rhs, l.1)->Ok_0;
        let acc2 = combine_each(op, modded, l.0, rs, acc)->Ok_0;
        lemma_combine_each(op, modded, l, rs, acc, v);
        lemma_binary(m, op, modded, ls.drop_first(), rhs, acc2, v);
        lemma_firsts(ls);
        assert forall|r: ValueStepV|
            #![trigger rs.contains(r)]
            #![trigger is_value(m, rhs, l.1, r)]
            rs.contains(r) <==> is_value(m, rhs, l.1, r) by {}
        let all = binary_of(op, modded, ls, rhs, m, acc)->Ok_0;
        if all.contains(v) && !acc.contains(v) && acc2.contains(v) {
            let r = choose|r: ValueStepV| #[trigger]
                rs.contains(r) && r.1.combined(op, modded, l.0, r.0) == Ok::<Term, ExecError>(v.0)
                    && v.1 == r.1;
            assert(is_value(m, rhs, l.1, r));
        }
    }
}

/// The values of an operation are those that it makes of the values of its operands, the left one
/// evaluated first: sums, differences, products, or one and zero for true and false; modulo the
/// field for arithmetic of field elements.
pub proof fn operations_combine_their_operands(
    n: nat,
    op: BinOp,
    lhs: ExprV,
    rhs: ExprV,
    st: StateV,
    v: ValueStepV,
    env: spec_fn(Seq<char>) -> int,
)
    requires
        is_value(
            interp(n + 1),
            ExprV::Binary { op, lhs: Box::new(lhs), rhs: Box::new(rhs) },
            st,
            v,
        ),
    ensures
        exists|l: ValueStepV, r: ValueStepV|
            #![trigger is_value(interp(n), lhs, st, l), is_value(interp(n), rhs, l.1, r)]
            is_value(interp(n), lhs, st, l) && is_value(interp(n), rhs, l.1, r) && is_result(
                op,
                st.needs_mod(ExprV::Binary { op, lhs: Box::new(lhs), rhs: Box::new(rhs) })->Ok_0,
                l,
                r,
                v,
                env,
            ),
{
    let m = interp(n);
    let e = ExprV::Binary { op, lhs: Box::new(lhs), rhs: Box::new(rhs) };
    reveal(eval_of);
    interp_eval(n + 1, e, st);
    let modded = st.needs_mod(e)->Ok_0;
    let ls = (m.eval)(lhs, st)->Ok_0;
    lemma_binary(m, op, modded, ls, rhs, seq![], v);
    let (l, r) = choose|l: ValueStepV, r: ValueStepV|
        #![trigger ls.contains(l), is_value(m, rhs, l.1, r)]
        ls.contains(l) && is_value(m, rhs, l.1, r) && r.1.combined(op, modded, l.0, r.0) == Ok::<
            Term,
            ExecError,
        >(v.0) && v.1 == r.1;
    lemma_combined(op, modded, l, r, env);
    assert(is_value(m, lhs, st, l));
}

/// Every pair of values of the operands has a value of the operation.
pub proof fn operations_keep_all_values(
    n: nat,
    op: BinOp,
    lhs: ExprV,
    rhs: ExprV,
    st: StateV,
    l: ValueStepV,
    r: ValueStepV,
    env: spec_fn(Seq<char>) -> int,
)
    requires
        (interp(n + 1).eval)(
            ExprV::Binary { op, lhs: Box::new(lhs), rhs: Box::new(rhs) },
            st,
        ) is Ok,
        is_value(interp(n), lhs, st, l),
        is_value(interp(n), rhs, l.1, r),
    ensures
        exists|v: ValueStepV| #[trigger]
            is_value(
                interp(n + 1),
                ExprV::Binary { op, lhs: Box::new(lhs), rhs: Box::new(rhs) },
                st,
                v,
            ) && is_result(
                op,
                st.needs_mod(ExprV::Binary { op, lhs: Box::new(lhs), rhs: Box::new(rhs) })->Ok_0,
                l,
                r,
                v,
                env,
            ),
{
    let m = interp(n);
    let e = ExprV::Binary { op, lhs: Box::new(lhs), rhs: Box::new(rhs) };
    reveal(eval_of);
    interp_eval(n + 1, e, st);
    let modded = st.needs_mod(e)->Ok_0;
    let ls = (m.eval)(lhs, st)->Ok_0;
    let t = r.1.combined(op, modded, l.0, r.0)->Ok_0;
    let v = (t, r.1);
    lemma_binary(m, op, modded, ls, rhs, seq![], v);
    assert(ls.contains(l));
    lemma_combined(op, modded, l, r, env);
    assert(is_value(interp(n + 1), e, st, v));
}

/// An integer is one that a sort holds; a field element is a representative.
pub open spec fn is_held_by(x: int, sty: SymType) -> bool {
    match sty {
        SymType::F => 0 <= x < FIELD_MODULUS,
        _ => is_of_sort(x, sty),
    }
}

proof fn lemma_max_abs(x: int, sty: SymType)
    requires
        is_held_by(x, sty),
        max_abs(sty) is Some,
    ensures
        -(max_abs(sty)->0) <= x <= max_abs(sty)->0,
{
}

/// Arithmetic is reduced only where it is typed as that of field elements, and there always, except
/// for products that cannot leave the field anyway.
pub proof fn field_arithmetic_is_reduced(
    st: StateV,
    op: BinOp,
    lhs: ExprV,
    rhs: ExprV,
    x: int,
    y: int,
)
    requires
        st.needs_mod(ExprV::Binary { op, lhs: Box::new(lhs), rhs: Box::new(rhs) }) is Ok,
    ensures
        ({
            let e = ExprV::Binary { op, lhs: Box::new(lhs), rhs: Box::new(rhs) };
            let arithmetic = op == BinOp::Add || op == BinOp::Sub || op == BinOp::Mul;
            let in_field = st.expr_type(e) is Ok && st.expr_type(e)->Ok_0 is Some && st.ctx.sort_of(
                st.expr_type(e)->Ok_0->0,
            ) == Some(SymType::F);
            &&& st.needs_mod(e)->Ok_0 ==> arithmetic && in_field
            &&& arithmetic && in_field && !st.needs_mod(e)->Ok_0 ==> op == BinOp::Mul && (is_held_by(
                x,
                st.ctx.sort_of(st.expr_type(lhs)->Ok_0->0)->0,
            ) && is_held_by(y, st.ctx.sort_of(st.expr_type(rhs)->Ok_0->0)->0) ==> -FIELD_MODULUS < x
                * y < FIELD_MODULUS)
        }),
{
    reveal(StateV::needs_mod);
    let e = ExprV::Binary { op, lhs: Box::new(lhs), rhs: Box::new(rhs) };
    let arithmetic = op == BinOp::Add || op == BinOp::Sub || op == BinOp::Mul;
    if arithmetic && !st.needs_mod(e)->Ok_0 && st.ctx.sort_of(st.expr_type(e)->Ok_0->0) == Some(
        SymType::F,
    ) && st.expr_type(e)->Ok_0 is Some {
        let ls = st.ctx.sort_of(st.expr_type(lhs)->Ok_0->0)->0;
        let rs = st.ctx.sort_of(st.expr_type(rhs)->Ok_0->0)->0;
        assert(product_stays(ls, rs));
        if is_held_by(x, ls) && is_held_by(y, rs) {
            lemma_max_abs(x, ls);
            lemma_max_abs(y, rs);
            let a = max_abs(ls)->0;
            let b = max_abs(rs)->0;
            let p = FIELD_MODULUS as int;
            assert(-p < x * y < p) by (nonlinear_arith)
                requires
                    -a <= x <= a,
                    -b <= y <= b,
                    a * b < p,
            ;
        }
    }
}

/// The part of a map entry that a projection selects.
pub open spec fn selects(name: Seq<char>, prev: Term, val: Term, t: Term) -> bool {
    ((name == "clk_prev"@ || name == "0"@) && t == prev) || ((name == "value"@ || name == "1"@) && t
        == val)
}

/// A first read of a map at a clock and an address sends the entry of the previous clock and
/// receives it at the given one, both with the address and the value that are read.
pub open spec fn reads_afresh(s: StateV, clk: Term, addr: Term, prev: Term, val: Term, after: StateV) -> bool {
    &&& after.events == s.events.push(
        EventV { kind: MemoryEventKind::Send, clk: prev, addr, value: val },
    ).push(EventV { kind: MemoryEventKind::Receive, clk, addr, value: val })
    &&& after.store == s.store
    &&& after.path_cond == s.path_cond
    &&& prev is Var
    &&& val is Var
}

/// An earlier read of the same map at a clock and an address of the same values.
pub open spec fn reads_again(
    s: StateV,
    base: ExprV,
    clk: Term,
    addr: Term,
    prev: Term,
    val: Term,
) -> bool {
    exists|i: int|
        0 <= i < s.map_reads.len() && #[trigger] is_same_read(
            s.map_reads[i],
            base,
            clk,
            addr,
        ) && s.map_reads[i].clk_prev == prev && s.map_reads[i].value == val
}

/// A recorded read is of a map, at the clock and the address of the given terms up to the order of
/// operands.
pub open spec fn is_same_read(r: MapReadV, base: ExprV, clk: Term, addr: Term) -> bool {
    &&& r.base_id == path_id(base)
    &&& r.base_repr == path_key(base)
    &&& r.clk_key == canonical(clk)
    &&& r.addr_key == canonical(addr)
}

proof fn lemma_cached(
    reads: Seq<MapReadV>,
    i: int,
    base: ExprV,
    clk: Term,
    addr: Term,
)
    requires
        0 <= i,
    ensures
        match cached_read(reads, i, path_id(base), path_key(base), canonical(clk), canonical(addr)) {
            Some((prev, val)) => exists|j: int|
                i <= j < reads.len() && #[trigger] is_same_read(reads[j], base, clk, addr)
                    && reads[j].clk_prev == prev && reads[j].value == val,
            None => forall|j: int|
                i <= j < reads.len() ==> !is_same_read(#[trigger] reads[j], base, clk, addr),
        },
    decreases reads.len() - i,
{
    if i < reads.len() {
        lemma_cached(reads, i + 1, base, clk, addr);
        if is_same_read(reads[i], base, clk, addr) {
        }
    }
}

/// A projection of a map access evaluates the map, the clock and the address in this order. A first
/// read records two memory events; a repeated one gives what the first gave and records none.
pub proof fn map_accesses_read_entries(
    n: nat,
    base: ExprV,
    keys: Seq<ExprV>,
    name: Seq<char>,
    ref_id: Option<i64>,
    st: StateV,
    v: ValueStepV,
)
    requires
        is_value(
            interp(n + 1),
            ExprV::Field { base: Box::new(ExprV::MapIndex { base: Box::new(base), keys }), name, ref_id },
            st,
            v,
        ),
    ensures
        keys.len() == 2,
        exists|b: ValueStepV, c: ValueStepV, a: ValueStepV, prev: Term, val: Term|
            #![trigger is_sole_value(interp(n), base, st, b), is_sole_value(interp(n), keys[0], b.1, c), is_sole_value(interp(n), keys[1], c.1, a), selects(name, prev, val, v.0)]
            is_sole_value(interp(n), base, st, b) && is_sole_value(interp(n), keys[0], b.1, c)
                && is_sole_value(interp(n), keys[1], c.1, a) && selects(name, prev, val, v.0) && ((
            v.1 == a.1 && reads_again(a.1, base, c.0, a.0, prev, val)) || (reads_afresh(
                a.1,
                c.0,
                a.0,
                prev,
                val,
                v.1,
            ) && forall|j: int|
                0 <= j < a.1.map_reads.len() ==> !is_same_read(
                    #[trigger] a.1.map_reads[j],
                    base,
                    c.0,
                    a.0,
                ))),
{
    let m = interp(n);
    let mi = ExprV::MapIndex { base: Box::new(base), keys };
    let e = ExprV::Field { base: Box::new(mi), name, ref_id };
    reveal(eval_of);
    reveal(map_pair_of);
    reveal(projected);
    reveal(StateV::map_access);
    interp_eval(n + 1, e, st);
    let vs = (interp(n + 1).eval)(e, st)->Ok_0;
    let i = choose|i: int| 0 <= i < vs.len() && vs[i] == v;
    assert(map_pair_of(mi, st, m) is Ok);
    let b = (m.eval)(base, st)->Ok_0[0];
    lemma_sole(m, base, st);
    let c = (m.eval)(keys[0], b.1)->Ok_0[0];
    lemma_sole(m, keys[0], b.1);
    let a = (m.eval)(keys[1], c.1)->Ok_0[0];
    lemma_sole(m, keys[1], c.1);
    let (prev, val, s) = map_pair_of(mi, st, m)->Ok_0;
    lemma_cached(a.1.map_reads, 0, base, c.0, a.0);
    assert(is_sole_value(m, base, st, b) && is_sole_value(m, keys[0], b.1, c) && is_sole_value(
        m,
        keys[1],
        c.1,
        a,
    ));
    assert(selects(name, prev, val, v.0));
    assert(v.1 == s);
    match a.1.map_read(path_id(base), path_key(base), c.0, a.0) {
        Some((p, w)) => {
            assert(reads_again(a.1, base, c.0, a.0, prev, val));
        },
        None => {
            assert(reads_afresh(a.1, c.0, a.0, prev, val, s));
        },
    }
}

proof fn lemma_eval_all(
    m: InterpV,
    args: Seq<ExprV>,
    i: int,
    st: StateV,
    vals: Seq<Term>,
)
    requires
        0 <= i <= args.len(),
        vals.len() == i,
        eval_all(args, i, st, m, vals) is Ok,
    ensures
        ({
            let (vs, s) = eval_all(args, i, st, m, vals)->Ok_0;
            &&& vs.len() == args.len()
            &&& vals.is_prefix_of(vs)
            &&& evaluates_all(m, args, i, st, vs, s)
        }),
    decreases args.len() - i,
{
    reveal(eval_all);
    if i < args.len() {
        let v = (m.eval)(args[i], st)->Ok_0[0];
        lemma_sole(m, args[i], st);
        lemma_eval_all(m, args, i + 1, v.1, vals.push(v.0));
        let (vs, s) = eval_all(args, i, st, m, vals)->Ok_0;
        assert(vals.push(v.0)[i] == v.0);
        assert(vs[i] == v.0);
        assert(vals =~= vs.take(i));
        assert(is_sole_value(m, args[i], st, v));
    } else {
        assert(vals =~= vals.take(i));
    }
}

/// Expressions from `i` on, evaluated one after the other, have values and lead to a state.
pub open spec fn evaluates_all(
    m: InterpV,
    args: Seq<ExprV>,
    i: int,
    st: StateV,
    vs: Seq<Term>,
    end: StateV,
) -> bool
    decreases args.len() - i,
{
    if i < 0 || i >= args.len() {
        end == st
    } else {
        exists|v: ValueStepV| #[trigger]
            is_sole_value(m, args[i], st, v) && vs[i] == v.0 && evaluates_all(
                m,
                args,
                i + 1,
                v.1,
                vs,
                end,
            )
    }
}

/// A lookup in a memory chip records one event, with the kind of the chip and with clock, address
/// and value from the first three arguments, in this order.
pub proof fn memory_lookups_record_events(
    n: nat,
    chip: Seq<Seq<char>>,
    opcode: ExprV,
    args: Seq<ExprV>,
    st: StateV,
    o: OutcomeV,
)
    requires
        is_outcome(interp(n + 1), StmtV::Lookup { chip, opcode, args }, st, o),
        chip.len() > 0,
        lower(chip.last()) != "bytechip"@,
    ensures
        o.0 is None,
        args.len() >= 3,
        exists|op: ValueStepV, vs: Seq<Term>, s: StateV|
            #![trigger is_sole_value(interp(n), opcode, st, op), evaluates_all(interp(n), args, 0, op.1, vs, s)]
            is_sole_value(interp(n), opcode, st, op) && op.0 is Int && vs.len() == args.len()
                && evaluates_all(interp(n), args, 0, op.1, vs, s) && st.ctx.memory_chips.contains_key(
                lower(lower(chip.last())),
            ) && o.1 == (StateV {
                events: s.events.push(
                    EventV {
                        kind: st.ctx.memory_chips[lower(lower(chip.last()))].kind,
                        clk: vs[0],
                        addr: vs[1],
                        value: vs[2],
                    },
                ),
                ..s
            }),
{
    let m = interp(n);
    interp_exec(n + 1, StmtV::Lookup { chip, opcode, args }, st);
    reveal(exec_of);
    reveal(lookup_of);
    let all = (interp(n + 1).run)(StmtV::Lookup { chip, opcode, args }, st)->Ok_0;
    let i = choose|i: int| 0 <= i < all.len() && all[i] == o;
    let op = (m.eval)(opcode, st)->Ok_0[0];
    lemma_sole(m, opcode, st);
    lemma_eval_all(m, args, 0, op.1, seq![]);
    let (vs, s) = eval_all(args, 0, op.1, m, seq![])->Ok_0;
    assert(is_sole_value(m, opcode, st, op) && evaluates_all(m, args, 0, op.1, vs, s));
}

/// What a lookup in the byte table says: with opcode zero the last two arguments are bytes, and
/// with opcode one the first is the bitwise conjunction of the second and the third.
pub open spec fn in_byte_table(k: int, vs: Seq<Term>, env: spec_fn(Seq<char>) -> int) -> bool {
    if k == 0 {
        vs.len() >= 2 && 0 <= value(vs[vs.len() - 2], env) < 256 && 0 <= value(
            vs[vs.len() - 1],
            env,
        ) < 256
    } else {
        k == 1 && vs.len() >= 3 && is_byte_and(
            value(vs[0], env),
            value(vs[1], env),
            value(vs[2], env),
        )
    }
}

/// The evaluation of expressions one after the other only adds to the state.
proof fn lemma_all_follow(
    n: nat,
    args: Seq<ExprV>,
    i: int,
    st: StateV,
    vs: Seq<Term>,
    end: StateV,
    env: spec_fn(Seq<char>) -> int,
)
    requires
        evaluates_all(interp(n), args, i, st, vs, end),
    ensures
        sound_at(st, env) ==> sound_at(end, env),
        all_hold(end.path_cond, env) ==> all_hold(st.path_cond, env),
    decreases args.len() - i,
{
    if 0 <= i < args.len() {
        let v = choose|v: ValueStepV| #[trigger]
            is_sole_value(interp(n), args[i], st, v) && vs[i] == v.0 && evaluates_all(
                interp(n),
                args,
                i + 1,
                v.1,
                vs,
                end,
            );
        lemma_eval_follows(n, args[i], st, v, env);
        lemma_all_follow(n, args, i + 1, v.1, vs, end, env);
    }
}

/// Values that take a path behind a lookup in the byte table are in the table.
pub proof fn byte_lookups_hold(
    n: nat,
    chip: Seq<Seq<char>>,
    opcode: ExprV,
    args: Seq<ExprV>,
    st: StateV,
    o: OutcomeV,
    env: spec_fn(Seq<char>) -> int,
)
    requires
        sound_at(st, env),
        is_outcome(interp(n + 1), StmtV::Lookup { chip, opcode, args }, st, o),
        chip.len() > 0,
        lower(chip.last()) == "bytechip"@,
    ensures
        o.0 is None,
        exists|op: ValueStepV, vs: Seq<Term>, s: StateV|
            #![trigger is_sole_value(interp(n), opcode, st, op), evaluates_all(interp(n), args, 0, op.1, vs, s)]
            is_sole_value(interp(n), opcode, st, op) && op.0 is Int && vs.len() == args.len()
                && evaluates_all(interp(n), args, 0, op.1, vs, s) && o.1.events == s.events
                && o.1.store == s.store && (all_hold(o.1.path_cond, env) ==> all_hold(
                s.path_cond,
                env,
            ) && in_byte_table(op.0->Int_0, vs, env)) && (op.0->Int_0 == 0 && all_hold(
                s.path_cond,
                env,
            ) && in_byte_table(0, vs, env) ==> all_hold(o.1.path_cond, env)),
{
    let m = interp(n);
    interp_exec(n + 1, StmtV::Lookup { chip, opcode, args }, st);
    reveal(exec_of);
    reveal(lookup_of);
    reveal(byte_lookup);
    let all = (interp(n + 1).run)(StmtV::Lookup { chip, opcode, args }, st)->Ok_0;
    let i = choose|i: int| 0 <= i < all.len() && all[i] == o;
    let op = (m.eval)(opcode, st)->Ok_0[0];
    lemma_sole(m, opcode, st);
    lemma_eval_follows(n, opcode, st, op, env);
    lemma_eval_all(m, args, 0, op.1, seq![]);
    let (vs, s) = eval_all(args, 0, op.1, m, seq![])->Ok_0;
    assert(is_sole_value(m, opcode, st, op) && evaluates_all(m, args, 0, op.1, vs, s));
    lemma_all_follow(n, args, 0, op.1, vs, s, env);
    if op.0->Int_0 == 0 {
        let f = in_range(vs[vs.len() - 2], 0, 255, 8);
        let g = in_range(vs[vs.len() - 1], 0, 255, 8);
        adding_is_conjunction(s, f, env);
        lemma_cond_keeps(s, f);
        adding_is_conjunction(s.with_cond(f), g, env);
        lemma_cond_keeps(s.with_cond(f), g);
        assert(holds(f, env) == (0 <= value(vs[vs.len() - 2], env) <= 255));
        assert(holds(g, env) == (0 <= value(vs[vs.len() - 1], env) <= 255));
    } else {
        conjunction_of_bytes(s, vs[0], vs[1], vs[2], env);
        lemma_byte_and_keeps(s, vs[0], vs[1], vs[2]);
    }
}

proof fn lemma_bits_keep(st: StateV, prefix: Seq<char>, i: int, n: int, bits: Seq<Term>, acc: Term)
    requires
        st.bits_from(prefix, i, n, bits, acc) is Ok,
    ensures
        st.bits_from(prefix, i, n, bits, acc)->Ok_0.2.store == st.store,
        st.bits_from(prefix, i, n, bits, acc)->Ok_0.2.events == st.events,
    decreases n - i,
{
    if 0 <= i < n {
        let (bit, s) = st.fresh_var(
            prefix + "_"@ + crate::text::decimal(i as nat),
            SymType::Bool,
        )->Ok_0;
        let f = in_range(bit, 0, 1, 1);
        lemma_cond_keeps(s, f);
        let sum = crate::checker::symbolic::state_ops::plus(
            acc,
            crate::checker::symbolic::state_ops::product(bit, Term::Int(pow2(i as nat) as int)),
        )->Ok_0;
        lemma_bits_keep(s.with_cond(f), prefix, i + 1, n, bits.push(bit), sum);
    }
}

proof fn lemma_products_keep(st: StateV, l: Seq<Term>, r: Seq<Term>, out: Seq<Term>, i: int)
    ensures
        st.with_bit_products(l, r, out, i).store == st.store,
        st.with_bit_products(l, r, out, i).events == st.events,
    decreases out.len() - i,
{
    if !(i < 0 || i >= l.len() || i >= r.len() || i >= out.len()) {
        let f = Formula::Eq(out[i], Term::Mul(seq![l[i], r[i]]));
        lemma_cond_keeps(st, f);
        lemma_products_keep(st.with_cond(f), l, r, out, i + 1);
    }
}

proof fn lemma_byte_and_keeps(st: StateV, out: Term, l: Term, r: Term)
    requires
        st.with_byte_and(out, l, r) is Ok,
    ensures
        st.with_byte_and(out, l, r)->Ok_0.store == st.store,
        st.with_byte_and(out, l, r)->Ok_0.events == st.events,
{
    reveal(StateV::with_byte_and);
    let c0 = in_range(out, 0, 255, 8);
    let c1 = in_range(l, 0, 255, 8);
    let c2 = in_range(r, 0, 255, 8);
    lemma_cond_keeps(st, c0);
    lemma_cond_keeps(st.with_cond(c0), c1);
    lemma_cond_keeps(st.with_cond(c0).with_cond(c1), c2);
    let s = st.with_cond(c0).with_cond(c1).with_cond(c2);
    let z = Term::Int(0);
    lemma_bits_keep(s, "byte_and_l"@, 0, 8, seq![], z);
    let (lb, la, s1) = s.bits_from("byte_and_l"@, 0, 8, seq![], z)->Ok_0;
    lemma_bits_keep(s1, "byte_and_r"@, 0, 8, seq![], z);
    let (rb, ra, s2) = s1.bits_from("byte_and_r"@, 0, 8, seq![], z)->Ok_0;
    lemma_bits_keep(s2, "byte_and_out"@, 0, 8, seq![], z);
    let (ob, oa, s3) = s2.bits_from("byte_and_out"@, 0, 8, seq![], z)->Ok_0;
    lemma_products_keep(s3, lb, rb, ob, 0);
    let s4 = s3.with_bit_products(lb, rb, ob, 0);
    lemma_cond_keeps(s4, Formula::Eq(l, la));
    let s5 = s4.with_cond(Formula::Eq(l, la));
    lemma_cond_keeps(s5, Formula::Eq(r, ra));
    let s6 = s5.with_cond(Formula::Eq(r, ra));
    lemma_cond_keeps(s6, Formula::Eq(out, oa));
}

/// The parameters from `p` on take the arguments from `a` on, in order: a scalar the value of its
/// argument, another its node, and the receiver the node at its place.
pub open spec fn binds(
    m: InterpV,
    params: Seq<ParamV>,
    p: int,
    args: Seq<ExprV>,
    a: int,
    place: Option<PlaceV>,
    st: StateV,
    end: StateV,
) -> bool
    decreases params.len() - p,
{
    if p < 0 || p >= params.len() {
        end == st && a == args.len()
    } else {
        match params[p] {
            ParamV::SelfParam { id } => id is Some && place is Some && exists|node: NodeV|
                #[trigger] stands_at(st, place->0, node) && binds(
                    m,
                    params,
                    p + 1,
                    args,
                    a,
                    place,
                    bound(st, id->0, node),
                    end,
                ),
            ParamV::Typed { id, ty, .. } => id is Some && 0 <= a < args.len() && if st.ctx.scalar(
                ty,
            ) {
                exists|v: ValueStepV| #[trigger]
                    is_sole_value(m, args[a], st, v) && binds(
                        m,
                        params,
                        p + 1,
                        args,
                        a + 1,
                        place,
                        bound(v.1, id->0, scalar_node(v.0)),
                        end,
                    )
            } else {
                exists|node: NodeV|
                    #[trigger] denotes(st, args[a], node) && binds(
                        m,
                        params,
                        p + 1,
                        args,
                        a + 1,
                        place,
                        bound(st, id->0, node),
                        end,
                    )
            },
        }
    }
}

/// A node stands at a place.
pub open spec fn stands_at(st: StateV, place: PlaceV, node: NodeV) -> bool {
    loaded(st.store, place) == Ok::<NodeV, ExecError>(node)
}

/// An expression denotes a node.
pub open spec fn denotes(st: StateV, e: ExprV, node: NodeV) -> bool {
    st.expr_node(e) == Ok::<Option<NodeV>, ExecError>(Some(node))
}

/// A state with a variable bound to a node.
pub open spec fn bound(st: StateV, vid: i64, node: NodeV) -> StateV {
    StateV { store: st.store.insert(vid as int, node), ..st }
}

/// The binding of the receiver: that of the last `self` parameter from `p` on.
pub open spec fn receiver_of(params: Seq<ParamV>, p: int, place: Option<PlaceV>, found: Option<(PlaceV, i64)>) -> Option<(PlaceV, i64)>
    decreases params.len() - p,
{
    if p < 0 || p >= params.len() {
        found
    } else {
        match params[p] {
            ParamV::SelfParam { id } => receiver_of(
                params,
                p + 1,
                place,
                Some((place->0, id->0)),
            ),
            _ => receiver_of(params, p + 1, place, found),
        }
    }
}

proof fn lemma_bind(
    m: InterpV,
    params: Seq<ParamV>,
    p: int,
    args: Seq<ExprV>,
    a: int,
    place: Option<PlaceV>,
    found: Option<(PlaceV, i64)>,
    st: StateV,
)
    requires
        0 <= p,
        0 <= a <= args.len(),
        bind_args(params, p, args, a, place, found, st, m) is Ok,
        bind_args(params, p, args, a, place, found, st, m)->Ok_0.1 >= args.len(),
    ensures
        ({
            let (s, used, receiver) = bind_args(params, p, args, a, place, found, st, m)->Ok_0;
            &&& binds(m, params, p, args, a, place, st, s)
            &&& receiver == receiver_of(params, p, place, found)
        }),
    decreases params.len() - p,
{
    reveal(bind_args);
    if p < params.len() {
        let (s, used, receiver) = bind_args(params, p, args, a, place, found, st, m)->Ok_0;
        match params[p] {
            ParamV::SelfParam { id } => {
                let node = loaded(st.store, place->0)->Ok_0;
                let next = st.with_binding(id->0, node);
                assert(next == bound(st, id->0, node));
                lemma_bind(m, params, p + 1, args, a, place, Some((place->0, id->0)), next);
                assert(stands_at(st, place->0, node));
            },
            ParamV::Typed { id, ty, .. } => {
                if st.ctx.scalar(ty) {
                    let v = (m.eval)(args[a], st)->Ok_0[0];
                    lemma_sole(m, args[a], st);
                    let next = v.1.with_binding(id->0, scalar_node(v.0));
                    assert(next == bound(v.1, id->0, scalar_node(v.0)));
                    lemma_bind(m, params, p + 1, args, a + 1, place, found, next);
                    assert(is_sole_value(m, args[a], st, v));
                } else {
                    let node = st.expr_node(args[a])->Ok_0->0;
                    let next = st.with_binding(id->0, node);
                    assert(next == bound(st, id->0, node));
                    lemma_bind(m, params, p + 1, args, a + 1, place, found, next);
                    assert(denotes(st, args[a], node));
                }
            },
        }
    }
}

proof fn lemma_written_back(
    rs: Seq<OutcomeV>,
    receiver: Option<(PlaceV, i64)>,
    acc: Seq<OutcomeV>,
    o: OutcomeV,
)
    requires
        written_back(rs, receiver, acc) is Ok,
    ensures
        written_back(rs, receiver, acc)->Ok_0.contains(o) <==> acc.contains(o) || exists|r: OutcomeV|
            #[trigger]
            rs.contains(r) && o.0 == r.0 && after_call(r.1, receiver) == Ok::<StateV, ExecError>(
                o.1,
            ),
        forall|r: OutcomeV| #[trigger] rs.contains(r) ==> after_call(r.1, receiver) is Ok,
    decreases rs.len(),
{
    reveal(written_back);
    if rs.len() > 0 {
        let r = rs[0];
        let s = after_call(r.1, receiver)->Ok_0;
        lemma_written_back(rs.drop_first(), receiver, acc.push((r.0, s)), o);
        lemma_pushed(acc, (r.0, s), o);
        lemma_firsts(rs);
    }
}

/// After a call, the caller goes on with the state that the function leaves, in which the place of
/// the receiver, if there is one, holds what `self` held at the end.
pub open spec fn resumes(end: StateV, receiver: Option<(PlaceV, i64)>, after: StateV) -> bool {
    &&& after == (StateV { store: after.store, status: ExecStatus::Step, ..end })
    &&& match receiver {
        None => after.store == end.store,
        Some((place, vid)) => {
            &&& end.store.contains_key(vid as int)
            &&& loaded(end.store, place) is Ok ==> loaded(after.store, place) == Ok::<
                NodeV,
                ExecError,
            >(end.store[vid as int])
            &&& forall|k: int|
                k != place.root ==> (#[trigger] after.store.contains_key(k)
                    <==> end.store.contains_key(k)) && (end.store.contains_key(k) ==> after.store[k]
                    == end.store[k])
        },
    }
}

proof fn lemma_after_call(end: StateV, receiver: Option<(PlaceV, i64)>)
    requires
        after_call(end, receiver) is Ok,
    ensures
        resumes(end, receiver, after_call(end, receiver)->Ok_0),
{
    reveal(after_call);
    if let Some((place, vid)) = receiver {
        let node = node_at(end.store, Some(vid))->0;
        if loaded(end.store, place) is Ok {
            write_back_then_load(end.store, place, node);
        }
        reveal(stored);
    }
}

/// A path of a call: the callee is resolved, its parameters take the arguments, a path through its
/// body is taken, and the caller resumes.
pub open spec fn is_call_path(
    m: InterpV,
    callee: ExprV,
    args: Seq<ExprV>,
    st: StateV,
    fid: i64,
    place: Option<PlaceV>,
    start: StateV,
    end: OutcomeV,
    o: OutcomeV,
) -> bool {
    &&& st.callee_of(callee) == Ok::<(i64, Option<PlaceV>), ExecError>((fid, place))
    &&& st.ctx.funcs.contains_key(fid)
    &&& binds(
        m,
        st.ctx.funcs[fid].params,
        0,
        args,
        0,
        place,
        (StateV { status: ExecStatus::Step, ..st }),
        start,
    )
    &&& is_path(m, Flow::Function, st.ctx.funcs[fid].body, start, end)
    &&& o.0 == end.0
    &&& resumes(end.1, receiver_of(st.ctx.funcs[fid].params, 0, place, None), o.1)
}

proof fn lemma_call(
    m: InterpV,
    callee: ExprV,
    args: Seq<ExprV>,
    st: StateV,
    o: OutcomeV,
)
    requires
        call_of(ExprV::Call(Box::new(callee), args), st, m) is Ok,
        call_of(ExprV::Call(Box::new(callee), args), st, m)->Ok_0.contains(o),
    ensures
        exists|fid: i64, place: Option<PlaceV>, start: StateV, end: OutcomeV| #[trigger]
            is_call_path(m, callee, args, st, fid, place, start, end, o),
{
    reveal(call_of);
    let (fid, place) = st.callee_of(callee)->Ok_0;
    let func = lookup(st.ctx.funcs, fid)->0;
    let st0 = st.in_status(ExecStatus::Step);
    lemma_bind(m, func.params, 0, args, 0, place, None, st0);
    let (start, used, receiver) = bind_args(func.params, 0, args, 0, place, None, st0, m)->Ok_0;
    let rs = run_of(func, start, m)->Ok_0;
    lemma_written_back(rs, receiver, seq![], o);
    let end = choose|r: OutcomeV| #[trigger]
        rs.contains(r) && o.0 == r.0 && after_call(r.1, receiver) == Ok::<StateV, ExecError>(o.1);
    functions_have_their_paths(m, func, start, end);
    lemma_after_call(end.1, receiver);
    assert(is_call_path(m, callee, args, st, fid, place, start, end, o));
}

proof fn lemma_returned(rs: Seq<OutcomeV>, acc: Seq<ValueStepV>, v: ValueStepV)
    requires
        returned(rs, acc) is Ok,
    ensures
        returned(rs, acc)->Ok_0.contains(v) <==> acc.contains(v) || rs.contains((Some(v.0), v.1)),
    decreases rs.len(),
{
    reveal(returned);
    if rs.len() > 0 {
        let r = rs[0];
        lemma_returned(rs.drop_first(), acc.push((r.0->0, r.1)), v);
        lemma_pushed(acc, (r.0->0, r.1), v);
        lemma_firsts(rs);
    }
}

proof fn lemma_discarded(rs: Seq<OutcomeV>, acc: Seq<OutcomeV>, o: OutcomeV)
    ensures
        discarded(rs, acc).contains(o) <==> acc.contains(o) || (o.0 is None && exists|r: OutcomeV|
            #[trigger]
            rs.contains(r) && r.1 == o.1),
    decreases rs.len(),
{
    reveal(discarded);
    if rs.len() > 0 {
        let r = rs[0];
        let first = (None::<Term>, r.1);
        lemma_discarded(rs.drop_first(), acc.push(first), o);
        lemma_pushed(acc, first, o);
        lemma_firsts(rs);
    }
}

/// The values of a call of a function of the program are those that the paths through it return.
pub proof fn calls_return_values(
    n: nat,
    callee: ExprV,
    args: Seq<ExprV>,
    st: StateV,
    v: ValueStepV,
)
    requires
        is_value(interp(n + 1), ExprV::Call(Box::new(callee), args), st, v),
        builtin_of(ExprV::Call(Box::new(callee), args), st, interp(n)) == Ok::<
            Option<Seq<ValueStepV>>,
            ExecError,
        >(None),
    ensures
        exists|fid: i64, place: Option<PlaceV>, start: StateV, end: OutcomeV| #[trigger]
            is_call_path(interp(n), callee, args, st, fid, place, start, end, (Some(v.0), v.1)),
{
    let m = interp(n);
    let e = ExprV::Call(Box::new(callee), args);
    reveal(eval_of);
    interp_eval(n + 1, e, st);
    let rs = call_of(e, st, m)->Ok_0;
    lemma_returned(rs, seq![], v);
    lemma_call(m, callee, args, st, (Some(v.0), v.1));
}

/// A call as a statement goes on behind each path through the function, without its value.
pub proof fn call_statements_run_the_function(
    n: nat,
    callee: LValueV,
    args: Seq<ExprV>,
    st: StateV,
    o: OutcomeV,
)
    requires
        is_outcome(interp(n + 1), StmtV::Call { callee, args }, st, o),
        builtin_of(ExprV::Call(Box::new(read_of(callee)), args), st, interp(n)) == Ok::<
            Option<Seq<ValueStepV>>,
            ExecError,
        >(None),
    ensures
        o.0 is None,
        exists|fid: i64, place: Option<PlaceV>, start: StateV, end: OutcomeV, p: OutcomeV|
            #[trigger]
            is_call_path(interp(n), read_of(callee), args, st, fid, place, start, end, p) && p.1
                == o.1,
{
    let m = interp(n);
    let e = ExprV::Call(Box::new(read_of(callee)), args);
    reveal(exec_of);
    reveal(call_stmt_of);
    interp_exec(n + 1, StmtV::Call { callee, args }, st);
    let rs = call_of(e, st, m)->Ok_0;
    lemma_discarded(rs, seq![], o);
    let p = choose|r: OutcomeV| #[trigger] rs.contains(r) && r.1 == o.1;
    lemma_call(m, read_of(callee), args, st, p);
    let (fid, place, start, end) = choose|
        fid: i64,
        place: Option<PlaceV>,
        start: StateV,
        end: OutcomeV,
    | #[trigger]
        is_call_path(m, read_of(callee), args, st, fid, place, start, end, p);
    assert(is_call_path(m, read_of(callee), args, st, fid, place, start, end, p));
}

/// No path of a call is lost: behind every path through the function, the caller resumes.
pub proof fn calls_keep_all_paths(
    n: nat,
    callee: ExprV,
    args: Seq<ExprV>,
    st: StateV,
    fid: i64,
    place: Option<PlaceV>,
)
    requires
        (interp(n + 1).eval)(ExprV::Call(Box::new(callee), args), st) is Ok,
        builtin_of(ExprV::Call(Box::new(callee), args), st, interp(n)) == Ok::<
            Option<Seq<ValueStepV>>,
            ExecError,
        >(None),
        st.callee_of(callee) == Ok::<(i64, Option<PlaceV>), ExecError>((fid, place)),
    ensures
        st.ctx.funcs.contains_key(fid),
        exists|start: StateV| #[trigger]
            binds(
                interp(n),
                st.ctx.funcs[fid].params,
                0,
                args,
                0,
                place,
                (StateV { status: ExecStatus::Step, ..st }),
                start,
            ) && forall|end: OutcomeV| #[trigger]
                is_path(interp(n), Flow::Function, st.ctx.funcs[fid].body, start, end) ==> exists|
                    v: ValueStepV,
                | #[trigger]
                    is_value(interp(n + 1), ExprV::Call(Box::new(callee), args), st, v)
                        && is_call_path(
                        interp(n),
                        callee,
                        args,
                        st,
                        fid,
                        place,
                        start,
                        end,
                        (Some(v.0), v.1),
                    ),
{
    let m = interp(n);
    let e = ExprV::Call(Box::new(callee), args);
    reveal(eval_of);
    reveal(call_of);
    interp_eval(n + 1, e, st);
    let func = lookup(st.ctx.funcs, fid)->0;
    let st0 = st.in_status(ExecStatus::Step);
    let (start, used, receiver) = bind_args(func.params, 0, args, 0, place, None, st0, m)->Ok_0;
    lemma_bind(m, func.params, 0, args, 0, place, None, st0);
    let rs = run_of(func, start, m)->Ok_0;
    let all = call_of(e, st, m)->Ok_0;
    assert forall|end: OutcomeV| #[trigger]
        is_path(m, Flow::Function, func.body, start, end) implies exists|v: ValueStepV| #[trigger]
        is_value(interp(n + 1), e, st, v) && is_call_path(
            m,
            callee,
            args,
            st,
            fid,
            place,
            start,
            end,
            (Some(v.0), v.1),
        ) by {
        functions_have_their_paths(m, func, start, end);
        assert(rs.contains(end));
        lemma_written_back(rs, receiver, seq![], end);
        let s = after_call(end.1, receiver)->Ok_0;
        let o = (end.0, s);
        lemma_written_back(rs, receiver, seq![], o);
        lemma_after_call(end.1, receiver);
        lemma_all_return(all, seq![], o);
        let v = (end.0->0, s);
        lemma_returned(all, seq![], v);
        assert(is_value(interp(n + 1), e, st, v));
        assert(is_call_path(m, callee, args, st, fid, place, start, end, (Some(v.0), v.1)));
    }
    assert(binds(
        m,
        st.ctx.funcs[fid].params,
        0,
        args,
        0,
        place,
        (StateV { status: ExecStatus::Step, ..st }),
        start,
    ));
}

proof fn lemma_all_return(rs: Seq<OutcomeV>, acc: Seq<ValueStepV>, o: OutcomeV)
    requires
        returned(rs, acc) is Ok,
        rs.contains(o),
    ensures
        o.0 is Some,
    decreases rs.len(),
{
    reveal(returned);
    lemma_firsts(rs);
    if o != rs[0] {
        lemma_all_return(rs.drop_first(), acc.push((rs[0].0->0, rs[0].1)), o);
    }
}

/// A call of a built-in function evaluates its arguments in order and applies the function of that
/// name to their values.
pub proof fn builtin_calls_apply_the_function(
    n: nat,
    segments: Seq<Seq<char>>,
    ref_id: Option<i64>,
    args: Seq<ExprV>,
    st: StateV,
    v: ValueStepV,
)
    requires
        segments.len() > 0,
        is_builtin_function(segments.last()),
        is_value(
            interp(n + 1),
            ExprV::Call(Box::new(ExprV::Path { segments, ref_id }), args),
            st,
            v,
        ),
    ensures
        exists|vs: Seq<Term>, s: StateV| #[trigger]
            evaluates_all(interp(n), args, 0, st, vs, s) && vs.len() == args.len()
                && s.builtin_value(segments.last(), args, vs) == Ok::<ValueStepV, ExecError>(v),
{
    let m = interp(n);
    let e = ExprV::Call(Box::new(ExprV::Path { segments, ref_id }), args);
    reveal(eval_of);
    reveal(builtin_of);
    interp_eval(n + 1, e, st);
    let vals = (interp(n + 1).eval)(e, st)->Ok_0;
    let i = choose|i: int| 0 <= i < vals.len() && vals[i] == v;
    lemma_eval_all(m, args, 0, st, seq![]);
    let (vs, s) = eval_all(args, 0, st, m, seq![])->Ok_0;
    assert(evaluates_all(m, args, 0, st, vs, s));
}

/// Values that take the path behind `x.inverse()`, where `x` is not zero in the field, make the
/// result an inverse of `x` modulo the field.
pub proof fn inverse_calls_invert(
    n: nat,
    base: ExprV,
    ref_id: Option<i64>,
    st: StateV,
    v: ValueStepV,
    env: spec_fn(Seq<char>) -> int,
)
    requires
        sound_at(st, env),
        is_value(
            interp(n + 1),
            ExprV::Call(
                Box::new(ExprV::Field { base: Box::new(base), name: "inverse"@, ref_id }),
                seq![],
            ),
            st,
            v,
        ),
        st.expr_type(base) is Ok,
        st.expr_type(base)->Ok_0 is Some,
        st.ctx.classify(st.expr_type(base)->Ok_0->0) == Ok::<PathKind, ClassifyError>(
            PathKind::Builtin,
        ),
        all_hold(v.1.path_cond, env),
    ensures
        exists|x: ValueStepV| #[trigger]
            is_sole_value(interp(n), base, st, x) && (exact(x.0) && value(x.0, env) % (FIELD_MODULUS
                as int) != 0 ==> (value(x.0, env) * value(v.0, env)) % (FIELD_MODULUS as int) == 1),
{
    let m = interp(n);
    let callee = ExprV::Field { base: Box::new(base), name: "inverse"@, ref_id };
    let args = Seq::<ExprV>::empty();
    let e = ExprV::Call(Box::new(callee), args);
    assert(seq![] =~= args);
    reveal(eval_of);
    reveal(builtin_of);
    reveal(eval_all);
    interp_eval(n + 1, e, st);
    let vals = (interp(n + 1).eval)(e, st)->Ok_0;
    let i = choose|i: int| 0 <= i < vals.len() && vals[i] == v;
    let ty = st.expr_type(base)->Ok_0->0;
    let x = (m.eval)(base, st)->Ok_0[0];
    lemma_sole(m, base, st);
    lemma_eval_follows(n, base, st, x, env);
    assert(method_value(ty, "inverse"@, x.0, seq![], x.1) == Ok::<ValueStepV, ExecError>(v));
    if exact(x.0) {
        inverse_is_a_method_of_the_field(ty, "inverse"@, x.0, seq![], x.1, env);
    }
    assert(is_sole_value(m, base, st, x));
}

} // verus!
