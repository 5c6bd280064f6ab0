//! Resolution attaches references and changes nothing else.

use vstd::prelude::*;
use crate::ast::{ExprV, FuncV, LValueV, LvTailV, ParamV, StmtV, TypeV};
use crate::checker::symbolic::context::ContextV;
use crate::checker::symbolic::resolve::{
    resolved, resolved_all, resolved_func, resolved_lvalue, resolved_param, resolved_params_from,
    resolved_stmt, resolved_stmts_from, resolved_type, resolved_types, EnvV,
};
use crate::checker::symbolic::scope::{binding_shadows, ScopeV};

verus! {

/// An expression without its references.
pub open spec fn bare(e: ExprV) -> ExprV
    decreases e,
{
    match e {
        ExprV::Int(k) => ExprV::Int(k),
        ExprV::Bool(b) => ExprV::Bool(b),
        ExprV::Path { segments, .. } => ExprV::Path { segments, ref_id: None },
        ExprV::Call(callee, args) => ExprV::Call(Box::new(bare(*callee)), bare_all(args)),
        ExprV::Index(base, idx) => ExprV::Index(Box::new(bare(*base)), Box::new(bare(*idx))),
        ExprV::MapIndex { base, keys } => ExprV::MapIndex {
            base: Box::new(bare(*base)),
            keys: bare_all(keys),
        },
        ExprV::Field { base, name, .. } => ExprV::Field {
            base: Box::new(bare(*base)),
            name,
            ref_id: None,
        },
        ExprV::Binary { op, lhs, rhs } => ExprV::Binary {
            op,
            lhs: Box::new(bare(*lhs)),
            rhs: Box::new(bare(*rhs)),
        },
        ExprV::Paren(inner) => ExprV::Paren(Box::new(bare(*inner))),
    }
}

/// [`bare`] of each member.
pub open spec fn bare_all(es: Seq<ExprV>) -> Seq<ExprV>
    decreases es,
{
    if es.len() == 0 {
        seq![]
    } else {
        bare_all(es.drop_last()).push(bare(es.last()))
    }
}

/// A type without its references.
pub open spec fn bare_type(t: TypeV) -> TypeV
    decreases t,
{
    match t {
        TypeV::Path { segments, .. } => TypeV::Path { segments, ref_id: None },
        TypeV::Array(inner, len) => TypeV::Array(Box::new(bare_type(*inner)), bare(len)),
        TypeV::Tuple(elems) => TypeV::Tuple(bare_types(elems)),
        TypeV::Mapping { timestamp, key, value } => TypeV::Mapping {
            timestamp: Box::new(bare_type(*timestamp)),
            key: Box::new(bare_type(*key)),
            value: Box::new(bare_type(*value)),
        },
        TypeV::Function { ref_id } => TypeV::Function { ref_id },
    }
}

/// [`bare_type`] of each member.
pub open spec fn bare_types(ts: Seq<TypeV>) -> Seq<TypeV>
    decreases ts,
{
    if ts.len() == 0 {
        seq![]
    } else {
        bare_types(ts.drop_last()).push(bare_type(ts.last()))
    }
}

/// A step of a place without its references.
pub open spec fn bare_tail(t: LvTailV) -> LvTailV {
    match t {
        LvTailV::Index(e) => LvTailV::Index(bare(e)),
        LvTailV::MapIndex(a, b) => LvTailV::MapIndex(bare(a), bare(b)),
        LvTailV::Field { name } => LvTailV::Field { name },
    }
}

/// A place without its references.
pub open spec fn bare_lvalue(lv: LValueV) -> LValueV {
    LValueV {
        ref_id: None,
        head: lv.head,
        tails: Seq::new(lv.tails.len(), |i: int| bare_tail(lv.tails[i])),
    }
}

/// A statement without its references.
pub open spec fn bare_stmt(s: StmtV) -> StmtV
    decreases s,
{
    match s {
        StmtV::VarDecl { ty, name, init, .. } => StmtV::VarDecl {
            id: None,
            ty: bare_type(ty),
            name,
            init: bare(init),
        },
        StmtV::Assign { target, value } => StmtV::Assign {
            target: bare_lvalue(target),
            value: bare(value),
        },
        StmtV::AndAssign { target, value } => StmtV::AndAssign {
            target: bare_lvalue(target),
            value: bare(value),
        },
        StmtV::For { var, start, end, body, .. } => StmtV::For {
            id: None,
            var,
            start: bare(start),
            end: bare(end),
            body: bare_stmts(body),
        },
        StmtV::If { cond, then_branch, else_branch } => StmtV::If {
            cond: bare(cond),
            then_branch: bare_stmts(then_branch),
            else_branch: bare_stmts(else_branch),
        },
        StmtV::AssertBool(e) => StmtV::AssertBool(bare(e)),
        StmtV::AssertZero(e) => StmtV::AssertZero(bare(e)),
        StmtV::AssertEq(a, b) => StmtV::AssertEq(bare(a), bare(b)),
        StmtV::AssertRange { value, ty } => StmtV::AssertRange {
            value: bare(value),
            ty: bare_type(ty),
        },
        StmtV::Lookup { chip, opcode, args } => StmtV::Lookup {
            chip,
            opcode: bare(opcode),
            args: bare_all(args),
        },
        StmtV::Call { callee, args } => StmtV::Call {
            callee: bare_lvalue(callee),
            args: bare_all(args),
        },
        StmtV::Return(e) => StmtV::Return(bare(e)),
    }
}

/// [`bare_stmt`] of each member.
pub open spec fn bare_stmts(ss: Seq<StmtV>) -> Seq<StmtV>
    decreases ss,
{
    if ss.len() == 0 {
        seq![]
    } else {
        bare_stmts(ss.drop_last()).push(bare_stmt(ss.last()))
    }
}

/// Resolving an expression changes its references only.
pub proof fn resolved_expressions_are_the_same(e: ExprV, sc: ScopeV, cx: ContextV)
    ensures
        bare(resolved(e, sc, cx)) == bare(e),
    decreases e,
{
    match e {
        ExprV::Call(callee, args) => {
            resolved_expressions_are_the_same(*callee, sc, cx);
            lemma_all(args, sc, cx);
        },
        ExprV::Index(base, idx) => {
            resolved_expressions_are_the_same(*base, sc, cx);
            resolved_expressions_are_the_same(*idx, sc, cx);
        },
        ExprV::MapIndex { base, keys } => {
            resolved_expressions_are_the_same(*base, sc, cx);
            lemma_all(keys, sc, cx);
        },
        ExprV::Field { base, .. } => resolved_expressions_are_the_same(*base, sc, cx),
        ExprV::Binary { lhs, rhs, .. } => {
            resolved_expressions_are_the_same(*lhs, sc, cx);
            resolved_expressions_are_the_same(*rhs, sc, cx);
        },
        ExprV::Paren(inner) => resolved_expressions_are_the_same(*inner, sc, cx),
        _ => {},
    }
}

proof fn lemma_all(es: Seq<ExprV>, sc: ScopeV, cx: ContextV)
    ensures
        bare_all(resolved_all(es, sc, cx)) == bare_all(es),
    decreases es,
{
    if es.len() > 0 {
        lemma_all(es.drop_last(), sc, cx);
        resolved_expressions_are_the_same(es.last(), sc, cx);
        let r = resolved_all(es, sc, cx);
        assert(r.drop_last() =~= resolved_all(es.drop_last(), sc, cx));
    }
}

/// Resolving a type changes its references only.
pub proof fn resolved_types_are_the_same(t: TypeV, sc: ScopeV, cx: ContextV)
    ensures
        bare_type(resolved_type(t, sc, cx)) == bare_type(t),
    decreases t,
{
    match t {
        TypeV::Array(inner, len) => {
            resolved_types_are_the_same(*inner, sc, cx);
            resolved_expressions_are_the_same(len, sc, cx);
        },
        TypeV::Tuple(elems) => lemma_types(elems, sc, cx),
        TypeV::Mapping { timestamp, key, value } => {
            resolved_types_are_the_same(*timestamp, sc, cx);
            resolved_types_are_the_same(*key, sc, cx);
            resolved_types_are_the_same(*value, sc, cx);
        },
        _ => {},
    }
}

proof fn lemma_types(ts: Seq<TypeV>, sc: ScopeV, cx: ContextV)
    ensures
        bare_types(resolved_types(ts, sc, cx)) == bare_types(ts),
    decreases ts,
{
    if ts.len() > 0 {
        lemma_types(ts.drop_last(), sc, cx);
        resolved_types_are_the_same(ts.last(), sc, cx);
        let r = resolved_types(ts, sc, cx);
        assert(r.drop_last() =~= resolved_types(ts.drop_last(), sc, cx));
    }
}

proof fn lemma_lvalue(lv: LValueV, sc: ScopeV, cx: ContextV)
    ensures
        bare_lvalue(resolved_lvalue(lv, sc, cx)) == bare_lvalue(lv),
{
    let r = resolved_lvalue(lv, sc, cx);
    assert(bare_lvalue(r).tails =~= bare_lvalue(lv).tails) by {
        assert forall|i: int| 0 <= i < lv.tails.len() implies bare_tail(r.tails[i]) == bare_tail(
            lv.tails[i],
        ) by {
            match lv.tails[i] {
                LvTailV::Index(e) => resolved_expressions_are_the_same(e, sc, cx),
                LvTailV::MapIndex(a, b) => {
                    resolved_expressions_are_the_same(a, sc, cx);
                    resolved_expressions_are_the_same(b, sc, cx);
                },
                _ => {},
            }
        }
    }
}

/// Resolving a statement changes its references only: no statement, branch or operand is lost,
/// added or moved.
pub proof fn resolved_statements_are_the_same(s: StmtV, env: EnvV)
    requires
        resolved_stmt(s, env) is Ok,
    ensures
        bare_stmt(resolved_stmt(s, env)->Ok_0.0) == bare_stmt(s),
    decreases s, 0int,
{
    let sc = env.scope;
    let cx = env.ctx;
    match s {
        StmtV::VarDecl { ty, init, .. } => {
            resolved_types_are_the_same(ty, sc, cx.after_fresh());
            resolved_expressions_are_the_same(init, sc, cx.after_fresh());
        },
        StmtV::Assign { target, value } => {
            lemma_lvalue(target, sc, cx);
            resolved_expressions_are_the_same(value, sc, cx);
        },
        StmtV::AndAssign { target, value } => {
            lemma_lvalue(target, sc, cx);
            resolved_expressions_are_the_same(value, sc, cx);
        },
        StmtV::For { var, start, end, body, .. } => {
            resolved_expressions_are_the_same(start, sc, cx);
            resolved_expressions_are_the_same(end, sc, cx);
            let inner = crate::checker::symbolic::resolve::bind_fresh(
                EnvV { scope: sc.pushed(), ..env },
                var,
            );
            lemma_stmts(body, 0, seq![], inner);
            assert(body.skip(0) =~= body);
            assert(bare_stmts(Seq::<StmtV>::empty()) + bare_stmts(body) =~= bare_stmts(body));
        },
        StmtV::If { cond, then_branch, else_branch } => {
            resolved_expressions_are_the_same(cond, sc, cx);
            let e0 = EnvV { scope: sc.pushed(), ..env };
            lemma_stmts(then_branch, 0, seq![], e0);
            let e1 = resolved_stmts_from(then_branch, 0, seq![], e0)->Ok_0.1;
            lemma_stmts(
                else_branch,
                0,
                seq![],
                EnvV { scope: e1.scope.popped().pushed(), ..e1 },
            );
            assert(then_branch.skip(0) =~= then_branch);
            assert(else_branch.skip(0) =~= else_branch);
            assert(bare_stmts(Seq::<StmtV>::empty()) + bare_stmts(then_branch) =~= bare_stmts(
                then_branch,
            ));
            assert(bare_stmts(Seq::<StmtV>::empty()) + bare_stmts(else_branch) =~= bare_stmts(
                else_branch,
            ));
        },
        StmtV::AssertBool(e) => resolved_expressions_are_the_same(e, sc, cx),
        StmtV::AssertZero(e) => resolved_expressions_are_the_same(e, sc, cx),
        StmtV::AssertEq(a, b) => {
            resolved_expressions_are_the_same(a, sc, cx);
            resolved_expressions_are_the_same(b, sc, cx);
        },
        StmtV::AssertRange { value, ty } => {
            resolved_expressions_are_the_same(value, sc, cx);
            resolved_types_are_the_same(ty, sc, cx);
        },
        StmtV::Lookup { opcode, args, .. } => {
            resolved_expressions_are_the_same(opcode, sc, cx);
            lemma_all(args, sc, cx);
        },
        StmtV::Call { callee, args } => {
            lemma_lvalue(callee, sc, cx);
            lemma_all(args, sc, cx);
        },
        StmtV::Return(e) => resolved_expressions_are_the_same(e, sc, cx),
    }
}

proof fn lemma_bare_join(a: Seq<StmtV>, b: Seq<StmtV>)
    ensures
        bare_stmts(a + b) == bare_stmts(a) + bare_stmts(b),
    decreases b.len(),
{
    if b.len() == 0 {
        assert(a + b =~= a);
        assert(bare_stmts(a) + bare_stmts(b) =~= bare_stmts(a));
    } else {
        lemma_bare_join(a, b.drop_last());
        assert((a + b).drop_last() =~= a + b.drop_last());
        assert((a + b).last() == b.last());
        assert(bare_stmts(a) + bare_stmts(b) =~= (bare_stmts(a) + bare_stmts(b.drop_last())).push(
            bare_stmt(b.last()),
        ));
    }
}

proof fn lemma_bare_one(s: StmtV)
    ensures
        bare_stmts(seq![s]) == seq![bare_stmt(s)],
{
    assert(seq![s].drop_last() =~= seq![]);
    reveal_with_fuel(bare_stmts, 2);
    assert(bare_stmts(seq![s]) =~= seq![bare_stmt(s)]);
}

proof fn lemma_stmts(ss: Seq<StmtV>, i: int, acc: Seq<StmtV>, env: EnvV)
    requires
        0 <= i <= ss.len(),
        resolved_stmts_from(ss, i, acc, env) is Ok,
    ensures
        bare_stmts(resolved_stmts_from(ss, i, acc, env)->Ok_0.0) == bare_stmts(acc) + bare_stmts(
            ss.skip(i),
        ),
    decreases ss, ss.len() - i,
{
    if i < ss.len() {
        let (s, e) = resolved_stmt(ss[i], env)->Ok_0;
        resolved_statements_are_the_same(ss[i], env);
        lemma_stmts(ss, i + 1, acc.push(s), e);
        assert(acc.push(s) =~= acc + seq![s]);
        lemma_bare_join(acc, seq![s]);
        lemma_bare_one(s);
        lemma_bare_one(ss[i]);
        assert(ss.skip(i) =~= seq![ss[i]] + ss.skip(i + 1));
        lemma_bare_join(seq![ss[i]], ss.skip(i + 1));
        assert(bare_stmts(acc) + seq![bare_stmt(ss[i])] + bare_stmts(ss.skip(i + 1)) =~= bare_stmts(
            acc,
        ) + (seq![bare_stmt(ss[i])] + bare_stmts(ss.skip(i + 1))));
    } else {
        assert(ss.skip(i) =~= seq![]);
        assert(bare_stmts(acc) + bare_stmts(ss.skip(i)) =~= bare_stmts(acc));
    }
}

/// Two parameters are the same but for their references.
pub open spec fn same_param(a: ParamV, b: ParamV) -> bool {
    match (a, b) {
        (ParamV::SelfParam { .. }, ParamV::SelfParam { .. }) => true,
        (
            ParamV::Typed { name: n, ty: t, io: i, .. },
            ParamV::Typed { name: m, ty: u, io: j, .. },
        ) => n == m && bare_type(t) == bare_type(u) && i == j,
        _ => false,
    }
}

proof fn lemma_params(
    ps: Seq<ParamV>,
    i: int,
    acc: Seq<ParamV>,
    owner: Option<i64>,
    env: EnvV,
)
    requires
        0 <= i <= ps.len(),
        acc.len() == i,
        forall|k: int| 0 <= k < i ==> same_param(#[trigger] acc[k], ps[k]),
        resolved_params_from(ps, i, acc, owner, env) is Ok,
    ensures
        ({
            let out = resolved_params_from(ps, i, acc, owner, env)->Ok_0.0;
            &&& out.len() == ps.len()
            &&& forall|k: int| 0 <= k < ps.len() ==> same_param(#[trigger] out[k], ps[k])
        }),
    decreases ps.len() - i,
{
    if i < ps.len() {
        let (p, e) = resolved_param(ps[i], owner, env)->Ok_0;
        if let ParamV::Typed { ty, .. } = ps[i] {
            resolved_types_are_the_same(ty, env.scope, env.ctx.after_fresh());
        }
        lemma_params(ps, i + 1, acc.push(p), owner, e);
    }
}

/// Resolving a function changes its references only.
pub proof fn resolved_functions_are_the_same(f: FuncV, env: EnvV)
    requires
        resolved_func(f, env) is Ok,
    ensures
        ({
            let r = resolved_func(f, env)->Ok_0.0;
            &&& r.id == f.id
            &&& r.name == f.name
            &&& r.params.len() == f.params.len()
            &&& forall|k: int|
                0 <= k < f.params.len() ==> same_param(#[trigger] r.params[k], f.params[k])
            &&& bare_stmts(r.body) == bare_stmts(f.body)
            &&& r.ret is Some <==> f.ret is Some
            &&& f.ret is Some ==> bare_type(r.ret->0) == bare_type(f.ret->0)
        }),
{
    let e0 = EnvV { scope: env.scope.pushed(), ..env };
    let owner = crate::checker::symbolic::context::lookup(env.ctx.func_owner, f.id->0);
    lemma_params(f.params, 0, seq![], owner, e0);
    let e1 = resolved_params_from(f.params, 0, seq![], owner, e0)->Ok_0.1;
    lemma_stmts(f.body, 0, seq![], e1);
    assert(f.body.skip(0) =~= f.body);
    assert(bare_stmts(Seq::<StmtV>::empty()) + bare_stmts(f.body) =~= bare_stmts(f.body));
    if let Some(t) = f.ret {
        resolved_types_are_the_same(t, e1.scope, e1.ctx);
    }
}

/// The names of an expression refer to what a scope binds their last segments to.
pub open spec fn refers_to(e: ExprV, sc: ScopeV) -> bool
    decreases e,
{
    match e {
        ExprV::Int(_) => true,
        ExprV::Bool(_) => true,
        ExprV::Path { segments, ref_id } => ref_id == if segments.len() == 0 {
            None
        } else {
            sc.resolve(segments.last())
        },
        ExprV::Call(callee, args) => refers_to(*callee, sc) && all_refer_to(args, sc),
        ExprV::Index(base, idx) => refers_to(*base, sc) && refers_to(*idx, sc),
        ExprV::MapIndex { base, keys } => refers_to(*base, sc) && all_refer_to(keys, sc),
        ExprV::Field { base, .. } => refers_to(*base, sc),
        ExprV::Binary { lhs, rhs, .. } => refers_to(*lhs, sc) && refers_to(*rhs, sc),
        ExprV::Paren(inner) => refers_to(*inner, sc),
    }
}

/// [`refers_to`] of each member.
pub open spec fn all_refer_to(es: Seq<ExprV>, sc: ScopeV) -> bool
    decreases es,
{
    es.len() == 0 || (all_refer_to(es.drop_last(), sc) && refers_to(es.last(), sc))
}

/// In a resolved expression every name refers to what the scope binds it to.
pub proof fn names_refer_to_the_scope(e: ExprV, sc: ScopeV, cx: ContextV)
    ensures
        refers_to(resolved(e, sc, cx), sc),
    decreases e,
{
    match e {
        ExprV::Call(callee, args) => {
            names_refer_to_the_scope(*callee, sc, cx);
            lemma_all_refer(args, sc, cx);
        },
        ExprV::Index(base, idx) => {
            names_refer_to_the_scope(*base, sc, cx);
            names_refer_to_the_scope(*idx, sc, cx);
        },
        ExprV::MapIndex { base, keys } => {
            names_refer_to_the_scope(*base, sc, cx);
            lemma_all_refer(keys, sc, cx);
        },
        ExprV::Field { base, .. } => names_refer_to_the_scope(*base, sc, cx),
        ExprV::Binary { lhs, rhs, .. } => {
            names_refer_to_the_scope(*lhs, sc, cx);
            names_refer_to_the_scope(*rhs, sc, cx);
        },
        ExprV::Paren(inner) => names_refer_to_the_scope(*inner, sc, cx),
        _ => {},
    }
}

proof fn lemma_all_refer(es: Seq<ExprV>, sc: ScopeV, cx: ContextV)
    ensures
        all_refer_to(resolved_all(es, sc, cx), sc),
    decreases es,
{
    if es.len() > 0 {
        lemma_all_refer(es.drop_last(), sc, cx);
        names_refer_to_the_scope(es.last(), sc, cx);
        let r = resolved_all(es, sc, cx);
        assert(r.drop_last() =~= resolved_all(es.drop_last(), sc, cx));
    }
}

proof fn lemma_frames(ss: Seq<StmtV>, i: int, acc: Seq<StmtV>, env: EnvV)
    requires
        0 <= i,
        env.scope.locals.len() > 0,
        resolved_stmts_from(ss, i, acc, env) is Ok,
    ensures
        ({
            let e = resolved_stmts_from(ss, i, acc, env)->Ok_0.1;
            &&& e.scope.locals.len() == env.scope.locals.len()
            &&& e.scope.locals.drop_last() == env.scope.locals.drop_last()
            &&& e.scope.globals == env.scope.globals
        }),
    decreases ss, ss.len() - i,
{
    if i < ss.len() {
        let (s, e) = resolved_stmt(ss[i], env)->Ok_0;
        lemma_frame(ss[i], env);
        lemma_frames(ss, i + 1, acc.push(s), e);
    }
}

proof fn lemma_frame(s: StmtV, env: EnvV)
    requires
        env.scope.locals.len() > 0,
        resolved_stmt(s, env) is Ok,
    ensures
        ({
            let e = resolved_stmt(s, env)->Ok_0.1;
            &&& e.scope.locals.len() == env.scope.locals.len()
            &&& e.scope.locals.drop_last() == env.scope.locals.drop_last()
            &&& e.scope.globals == env.scope.globals
            &&& !(s is VarDecl) ==> e.scope == env.scope
        }),
    decreases s, 0int,
{
    let sc = env.scope;
    let e = resolved_stmt(s, env)->Ok_0.1;
    match s {
        StmtV::VarDecl { name, .. } => {
            assert(sc.with_local(name, env.ctx.next_sym_id as i64).locals.drop_last()
                =~= sc.locals.drop_last());
        },
        StmtV::For { var, body, .. } => {
            let inner = crate::checker::symbolic::resolve::bind_fresh(
                EnvV { scope: sc.pushed(), ..env },
                var,
            );
            assert(inner.scope.locals.drop_last() =~= sc.locals);
            lemma_frames(body, 0, seq![], inner);
            assert(e.scope.locals =~= sc.locals);
        },
        StmtV::If { then_branch, else_branch, .. } => {
            let e0 = EnvV { scope: sc.pushed(), ..env };
            assert(e0.scope.locals.drop_last() =~= sc.locals);
            lemma_frames(then_branch, 0, seq![], e0);
            let e1 = resolved_stmts_from(then_branch, 0, seq![], e0)->Ok_0.1;
            assert(e1.scope.popped().locals =~= sc.locals);
            let e2 = EnvV { scope: e1.scope.popped().pushed(), ..e1 };
            assert(e2.scope.locals.drop_last() =~= sc.locals);
            lemma_frames(else_branch, 0, seq![], e2);
            assert(e.scope.locals =~= sc.locals);
        },
        _ => {},
    }
}

/// Only a declaration binds a name behind it: its own, to its own identifier. What a branch or the
/// body of a loop declares is bound in there alone.
pub proof fn only_declarations_bind(s: StmtV, env: EnvV, other: Seq<char>)
    requires
        env.scope.locals.len() > 0,
        resolved_stmt(s, env) is Ok,
    ensures
        ({
            let (r, e) = resolved_stmt(s, env)->Ok_0;
            match s {
                StmtV::VarDecl { name, .. } => {
                    &&& r->VarDecl_id is Some
                    &&& e.scope.resolve(name) == r->VarDecl_id
                    &&& other != name ==> e.scope.resolve(other) == env.scope.resolve(other)
                    &&& e.ctx.var_types.contains_key(r->VarDecl_id->0)
                    &&& e.ctx.var_types[r->VarDecl_id->0] == r->VarDecl_ty
                    &&& refers_to(r->VarDecl_init, env.scope)
                },
                _ => e.scope.resolve(other) == env.scope.resolve(other),
            }
        }),
{
    lemma_frame(s, env);
    if let StmtV::VarDecl { name, init, .. } = s {
        let id = env.ctx.next_sym_id as i64;
        if other != name {
            binding_shadows(env.scope, name, id, other);
        } else {
            let apart = name.push('_');
            assert(apart.len() != name.len());
            binding_shadows(env.scope, name, id, apart);
        }
        names_refer_to_the_scope(init, env.scope, env.ctx.after_fresh());
    }
}

} // verus!
