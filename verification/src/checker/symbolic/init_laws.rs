//! What holds of the context of every program.

use vstd::prelude::*;
use crate::ast::helpers::member_func;
use crate::ast::{EnumVariantV, FieldV, FileV, FuncV, ItemV, MemberV, ParamV, StmtV, TypeV};
use crate::checker::symbolic::context::{lookup, ContextV, FnSigV, MemberIndex, MembersV, PathKind};
use crate::checker::symbolic::id_laws::{freshly_parsed, unnumbered};
use crate::checker::symbolic::init::{
    define_func, define_members_from, empty_env, program_context, publish_item, publish_items_from,
    publish_modules_from, publish_name, publish_variants_from, register_members_from,
    resolve_fields_from, resolve_item, resolve_items_from, resolve_modules_from, resolve_variant,
    resolve_variants_from, signature_of, with_enum_width, with_func,
};
use crate::checker::symbolic::resolve::{
    bind_fresh, resolved_func, resolved_param, resolved_params_from, resolved_stmt,
    resolved_stmts_from, resolved_type, EnvV,
};
use crate::name_map::{lemma_set_pair, map_of, set_pair};
use crate::utils::module_resolver::ModuleV;

verus! {

/// The function is defined under the name and has a signature.
pub open spec fn defined_as(cx: ContextV, f: i64, name: Seq<char>) -> bool {
    cx.funcs.contains_key(f) && cx.funcs[f].name == name && cx.fn_sigs.contains_key(f)
}

/// A method that is found belongs to the struct, and is defined under the name or still to be
/// defined, as one of the members from `i` on.
spec fn methods_right(cx: ContextV, ms: Seq<MemberV>, i: int) -> bool {
    forall|s: i64, n: Seq<char>|
        (#[trigger] cx.method(s, n)) is Some ==> {
            let f = cx.method(s, n)->Some_0;
            &&& cx.func_owner.contains_key(f)
            &&& cx.func_owner[f] == s
            &&& defined_as(cx, f, n) || waits(ms, i, f, n)
        }
}

/// The function is that of a member from `i` on, of the name.
spec fn waits(ms: Seq<MemberV>, i: int, f: i64, n: Seq<char>) -> bool {
    exists|k: int|
        i <= k < ms.len() && member_func(#[trigger] ms[k]).id == Some(f) && member_func(ms[k]).name
            == n
}

/// The members have identifiers of their own, under which those from `i` on are not yet defined.
spec fn members_wait(cx: ContextV, ms: Seq<MemberV>, i: int) -> bool {
    &&& forall|k: int|
        0 <= k < ms.len() ==> {
            let id = member_func(#[trigger] ms[k]).id;
            &&& id is Some
            &&& cx.func_owner.contains_key(id->Some_0)
            &&& i <= k ==> !cx.funcs.contains_key(id->Some_0)
        }
    &&& forall|k: int, l: int|
        0 <= k < l < ms.len() ==> member_func(#[trigger] ms[k]).id != member_func(
            #[trigger] ms[l],
        ).id
}

/// What holds while the items of a program are resolved: `p` holds the identifiers of the free
/// functions, which lie below `low` as those of all top-level items do, and the members `ms` from
/// `i` on have been registered but not defined.
#[verifier::opaque]
spec fn inv(cx: ContextV, p: Set<i64>, low: int, ms: Seq<MemberV>, i: int) -> bool {
    &&& low <= cx.next_sym_id
    &&& forall|id: i64| #[trigger]
        p.contains(id) ==> 0 <= id < low
    &&& forall|id: i64| #[trigger]
        cx.func_owner.contains_key(id) ==> low <= id < cx.next_sym_id
    &&& forall|id: i64|
        (#[trigger] cx.declared(id)) is Some ==> 0 <= id < cx.next_sym_id && !p.contains(id)
            && !cx.func_owner.contains_key(id)
    &&& forall|id: i64| #[trigger]
        cx.funcs.contains_key(id) ==> p.contains(id) || cx.func_owner.contains_key(id)
    &&& methods_right(cx, ms, i)
    &&& members_wait(cx, ms, i)
}

/// `b` has the functions, members and names of `a`.
spec fn same_tables(a: ContextV, b: ContextV) -> bool {
    &&& a.funcs == b.funcs
    &&& a.fn_sigs == b.fn_sigs
    &&& a.func_owner == b.func_owner
    &&& a.struct_fields == b.struct_fields
    &&& a.struct_names == b.struct_names
    &&& a.struct_index == b.struct_index
}

proof fn lemma_same_methods(a: ContextV, b: ContextV, ms: Seq<MemberV>, i: int)
    requires
        same_tables(a, b),
        methods_right(a, ms, i),
    ensures
        methods_right(b, ms, i),
{
    assert forall|s: i64, n: Seq<char>| (#[trigger] b.method(s, n)) is Some implies {
        let f = b.method(s, n)->Some_0;
        &&& b.func_owner.contains_key(f)
        &&& b.func_owner[f] == s
        &&& defined_as(b, f, n) || waits(ms, i, f, n)
    } by {
        assert(a.method(s, n) == b.method(s, n));
    }
}

proof fn lemma_fresh(cx: ContextV, p: Set<i64>, low: int, ms: Seq<MemberV>, i: int)
    requires
        inv(cx, p, low, ms, i),
        cx.has_fresh(),
    ensures
        inv(cx.after_fresh(), p, low, ms, i),
{
    reveal(inv);
    let b = cx.after_fresh();
    lemma_same_methods(cx, b, ms, i);
    assert forall|id: i64| (#[trigger] b.declared(id)) is Some implies 0 <= id < b.next_sym_id
        && !p.contains(id) && !b.func_owner.contains_key(id) by {
        assert(cx.declared(id) == b.declared(id));
    }
}

/// A type has been recorded for a new identifier.
proof fn lemma_fresh_typed(
    cx: ContextV,
    b: ContextV,
    p: Set<i64>,
    low: int,
    ms: Seq<MemberV>,
    i: int,
)
    requires
        inv(cx, p, low, ms, i),
        cx.has_fresh(),
        same_tables(cx, b),
        b.next_sym_id == cx.next_sym_id + 1,
        forall|id: i64|
            id != cx.next_sym_id as i64 ==> #[trigger] b.declared(id) == cx.declared(id),
    ensures
        inv(b, p, low, ms, i),
{
    reveal(inv);
    lemma_same_methods(cx, b, ms, i);
    assert forall|id: i64| (#[trigger] b.declared(id)) is Some implies 0 <= id < b.next_sym_id
        && !p.contains(id) && !b.func_owner.contains_key(id) by {
        if id != cx.next_sym_id as i64 {
            assert(cx.declared(id) is Some);
        }
    }
}

/// A type has been recorded for the identifier of a constant.
proof fn lemma_const_typed(
    cx: ContextV,
    b: ContextV,
    id: i64,
    p: Set<i64>,
    low: int,
    ms: Seq<MemberV>,
    i: int,
)
    requires
        inv(cx, p, low, ms, i),
        0 <= id < low,
        !p.contains(id),
        same_tables(cx, b),
        b.next_sym_id == cx.next_sym_id,
        forall|other: i64| other != id ==> #[trigger] b.declared(other) == cx.declared(other),
    ensures
        inv(b, p, low, ms, i),
{
    reveal(inv);
    lemma_same_methods(cx, b, ms, i);
    assert forall|other: i64| (#[trigger] b.declared(other)) is Some implies 0 <= other
        < b.next_sym_id && !p.contains(other) && !b.func_owner.contains_key(other) by {
        if other != id {
            assert(cx.declared(other) is Some);
        }
    }
}

/// Nothing that matters has changed.
proof fn lemma_untouched(
    cx: ContextV,
    b: ContextV,
    p: Set<i64>,
    low: int,
    ms: Seq<MemberV>,
    i: int,
)
    requires
        inv(cx, p, low, ms, i),
        same_tables(cx, b),
        b.next_sym_id == cx.next_sym_id,
        b.var_types == cx.var_types,
        b.const_types == cx.const_types,
        b.field_types == cx.field_types,
    ensures
        inv(b, p, low, ms, i),
{
    reveal(inv);
    lemma_same_methods(cx, b, ms, i);
    assert forall|id: i64| (#[trigger] b.declared(id)) is Some implies 0 <= id < b.next_sym_id
        && !p.contains(id) && !b.func_owner.contains_key(id) by {
        assert(cx.declared(id) == b.declared(id));
    }
}

proof fn lemma_stmt(s: StmtV, env: EnvV, p: Set<i64>, low: int, ms: Seq<MemberV>, i: int)
    requires
        inv(env.ctx, p, low, ms, i),
        resolved_stmt(s, env) is Ok,
    ensures
        inv(resolved_stmt(s, env)->Ok_0.1.ctx, p, low, ms, i),
        same_tables(env.ctx, resolved_stmt(s, env)->Ok_0.1.ctx),
    decreases s, 0int,
{
    let e = resolved_stmt(s, env)->Ok_0.1;
    match s {
        StmtV::VarDecl { .. } => {
            lemma_fresh_typed(env.ctx, e.ctx, p, low, ms, i);
        },
        StmtV::For { var, body, .. } => {
            let inner = bind_fresh(EnvV { scope: env.scope.pushed(), ..env }, var);
            lemma_fresh(env.ctx, p, low, ms, i);
            lemma_stmts(body, 0, seq![], inner, p, low, ms, i);
        },
        StmtV::If { then_branch, else_branch, .. } => {
            let e0 = EnvV { scope: env.scope.pushed(), ..env };
            lemma_stmts(then_branch, 0, seq![], e0, p, low, ms, i);
            let e1 = resolved_stmts_from(then_branch, 0, seq![], e0)->Ok_0.1;
            let e2 = EnvV { scope: e1.scope.popped().pushed(), ..e1 };
            lemma_stmts(else_branch, 0, seq![], e2, p, low, ms, i);
        },
        _ => {},
    }
}

proof fn lemma_stmts(
    ss: Seq<StmtV>,
    k: int,
    acc: Seq<StmtV>,
    env: EnvV,
    p: Set<i64>,
    low: int,
    ms: Seq<MemberV>,
    i: int,
)
    requires
        inv(env.ctx, p, low, ms, i),
        resolved_stmts_from(ss, k, acc, env) is Ok,
    ensures
        inv(resolved_stmts_from(ss, k, acc, env)->Ok_0.1.ctx, p, low, ms, i),
        same_tables(env.ctx, resolved_stmts_from(ss, k, acc, env)->Ok_0.1.ctx),
    decreases ss, ss.len() - k,
{
    if 0 <= k < ss.len() {
        lemma_stmt(ss[k], env, p, low, ms, i);
        let (t, e) = resolved_stmt(ss[k], env)->Ok_0;
        lemma_stmts(ss, k + 1, acc.push(t), e, p, low, ms, i);
    }
}

proof fn lemma_params(
    ps: Seq<ParamV>,
    k: int,
    acc: Seq<ParamV>,
    owner: Option<i64>,
    env: EnvV,
    p: Set<i64>,
    low: int,
    ms: Seq<MemberV>,
    i: int,
)
    requires
        inv(env.ctx, p, low, ms, i),
        resolved_params_from(ps, k, acc, owner, env) is Ok,
    ensures
        inv(resolved_params_from(ps, k, acc, owner, env)->Ok_0.1.ctx, p, low, ms, i),
        same_tables(env.ctx, resolved_params_from(ps, k, acc, owner, env)->Ok_0.1.ctx),
    decreases ps.len() - k,
{
    if 0 <= k < ps.len() {
        let (q, e) = resolved_param(ps[k], owner, env)->Ok_0;
        lemma_fresh(env.ctx, p, low, ms, i);
        lemma_fresh_typed(env.ctx, e.ctx, p, low, ms, i);
        lemma_params(ps, k + 1, acc.push(q), owner, e, p, low, ms, i);
    }
}

proof fn lemma_func(f: FuncV, env: EnvV, p: Set<i64>, low: int, ms: Seq<MemberV>, i: int)
    requires
        inv(env.ctx, p, low, ms, i),
        resolved_func(f, env) is Ok,
    ensures
        ({
            let (g, e) = resolved_func(f, env)->Ok_0;
            &&& inv(e.ctx, p, low, ms, i)
            &&& same_tables(env.ctx, e.ctx)
            &&& g.id == f.id
            &&& g.name == f.name
        }),
{
    let owner = lookup(env.ctx.func_owner, f.id->Some_0);
    let e0 = EnvV { scope: env.scope.pushed(), ..env };
    lemma_params(f.params, 0, seq![], owner, e0, p, low, ms, i);
    let e1 = resolved_params_from(f.params, 0, seq![], owner, e0)->Ok_0.1;
    lemma_stmts(f.body, 0, seq![], e1, p, low, ms, i);
}

proof fn lemma_signed(
    cx: ContextV,
    f: i64,
    sig: FnSigV,
    p: Set<i64>,
    low: int,
    ms: Seq<MemberV>,
    i: int,
)
    requires
        inv(cx, p, low, ms, i),
    ensures
        inv(ContextV { fn_sigs: cx.fn_sigs.insert(f, sig), ..cx }, p, low, ms, i),
{
    reveal(inv);
    let b = ContextV { fn_sigs: cx.fn_sigs.insert(f, sig), ..cx };
    assert forall|s: i64, n: Seq<char>| (#[trigger] b.method(s, n)) is Some implies {
        let g = b.method(s, n)->Some_0;
        &&& b.func_owner.contains_key(g)
        &&& b.func_owner[g] == s
        &&& defined_as(b, g, n) || waits(ms, i, g, n)
    } by {
        assert(cx.method(s, n) == b.method(s, n));
        let g = cx.method(s, n)->Some_0;
        if defined_as(cx, g, n) {
            assert(defined_as(b, g, n));
        }
    }
    assert forall|id: i64| (#[trigger] b.declared(id)) is Some implies 0 <= id < b.next_sym_id
        && !p.contains(id) && !b.func_owner.contains_key(id) by {
        assert(cx.declared(id) == b.declared(id));
    }
}

/// A free function has been defined.
proof fn lemma_free_defined(
    cx: ContextV,
    f: i64,
    g: FuncV,
    p: Set<i64>,
    low: int,
    ms: Seq<MemberV>,
    i: int,
)
    requires
        inv(cx, p, low, ms, i),
        p.contains(f),
    ensures
        inv(ContextV { funcs: cx.funcs.insert(f, g), ..cx }, p, low, ms, i),
{
    reveal(inv);
    let b = ContextV { funcs: cx.funcs.insert(f, g), ..cx };
    assert forall|s: i64, n: Seq<char>| (#[trigger] b.method(s, n)) is Some implies {
        let h = b.method(s, n)->Some_0;
        &&& b.func_owner.contains_key(h)
        &&& b.func_owner[h] == s
        &&& defined_as(b, h, n) || waits(ms, i, h, n)
    } by {
        assert(cx.method(s, n) == b.method(s, n));
        let h = cx.method(s, n)->Some_0;
        assert(h != f);
        if defined_as(cx, h, n) {
            assert(defined_as(b, h, n));
        }
    }
    assert forall|id: i64| (#[trigger] b.declared(id)) is Some implies 0 <= id < b.next_sym_id
        && !p.contains(id) && !b.func_owner.contains_key(id) by {
        assert(cx.declared(id) == b.declared(id));
    }
    assert forall|k: int| 0 <= k < ms.len() implies {
        let id = member_func(#[trigger] ms[k]).id;
        &&& id is Some
        &&& b.func_owner.contains_key(id->Some_0)
        &&& i <= k ==> !b.funcs.contains_key(id->Some_0)
    } by {
        assert(cx.func_owner.contains_key(member_func(ms[k]).id->Some_0));
    }
}

/// The first of the waiting members has been defined.
proof fn lemma_member_defined(
    cx: ContextV,
    g: FuncV,
    p: Set<i64>,
    low: int,
    ms: Seq<MemberV>,
    i: int,
)
    requires
        inv(cx, p, low, ms, i),
        0 <= i < ms.len(),
        g.name == member_func(ms[i]).name,
        cx.fn_sigs.contains_key(member_func(ms[i]).id->Some_0),
    ensures
        inv(
            ContextV { funcs: cx.funcs.insert(member_func(ms[i]).id->Some_0, g), ..cx },
            p,
            low,
            ms,
            i + 1,
        ),
{
    reveal(inv);
    let f = member_func(ms[i]).id->Some_0;
    let b = ContextV { funcs: cx.funcs.insert(f, g), ..cx };
    assert(member_func(ms[i]).id is Some);
    assert forall|s: i64, n: Seq<char>| (#[trigger] b.method(s, n)) is Some implies {
        let h = b.method(s, n)->Some_0;
        &&& b.func_owner.contains_key(h)
        &&& b.func_owner[h] == s
        &&& defined_as(b, h, n) || waits(ms, i + 1, h, n)
    } by {
        assert(cx.method(s, n) == b.method(s, n));
        let h = cx.method(s, n)->Some_0;
        if defined_as(cx, h, n) {
            assert(h != f);
            assert(defined_as(b, h, n));
        } else {
            let k = choose|k: int|
                i <= k < ms.len() && member_func(#[trigger] ms[k]).id == Some(h) && member_func(
                    ms[k],
                ).name == n;
            if k == i {
                assert(defined_as(b, h, n));
            } else {
                assert(waits(ms, i + 1, h, n));
            }
        }
    }
    assert forall|id: i64| (#[trigger] b.declared(id)) is Some implies 0 <= id < b.next_sym_id
        && !p.contains(id) && !b.func_owner.contains_key(id) by {
        assert(cx.declared(id) == b.declared(id));
    }
    assert forall|k: int| 0 <= k < ms.len() implies {
        let id = member_func(#[trigger] ms[k]).id;
        &&& id is Some
        &&& b.func_owner.contains_key(id->Some_0)
        &&& i + 1 <= k ==> !b.funcs.contains_key(id->Some_0)
    } by {
        if i < k {
            assert(member_func(ms[i]).id != member_func(ms[k]).id);
        }
    }
}

/// A function table that only grew, and the names of the structs as they were.
pub open spec fn kept(a: ContextV, b: ContextV) -> bool {
    &&& forall|id: i64| #[trigger] a.funcs.contains_key(id) ==> b.funcs.contains_key(id)
    &&& forall|id: i64| #[trigger] a.fn_sigs.contains_key(id) ==> b.fn_sigs.contains_key(id)
    &&& a.struct_names == b.struct_names
    &&& a.struct_index == b.struct_index
}

proof fn lemma_define_member(
    env: EnvV,
    p: Set<i64>,
    low: int,
    ms: Seq<MemberV>,
    i: int,
)
    requires
        inv(env.ctx, p, low, ms, i),
        0 <= i < ms.len(),
        define_func(member_func(ms[i]), env) is Ok,
    ensures
        ({
            let (g, e) = define_func(member_func(ms[i]), env)->Ok_0;
            inv(e.ctx, p, low, ms, i + 1) && kept(env.ctx, e.ctx)
        }),
{
    let f = member_func(ms[i]);
    let fid = f.id->Some_0;
    let sig = signature_of(f, env);
    let c1 = ContextV { fn_sigs: env.ctx.fn_sigs.insert(fid, sig), ..env.ctx };
    lemma_signed(env.ctx, fid, sig, p, low, ms, i);
    lemma_func(f, EnvV { ctx: c1, ..env }, p, low, ms, i);
    let (g, e) = resolved_func(f, EnvV { ctx: c1, ..env })->Ok_0;
    lemma_member_defined(e.ctx, g, p, low, ms, i);
}

proof fn lemma_define_free(f: FuncV, env: EnvV, p: Set<i64>, low: int)
    requires
        inv(env.ctx, p, low, seq![], 0),
        f.id is Some,
        p.contains(f.id->Some_0),
        define_func(f, env) is Ok,
    ensures
        ({
            let (g, e) = define_func(f, env)->Ok_0;
            &&& inv(e.ctx, p, low, seq![], 0)
            &&& kept(env.ctx, e.ctx)
            &&& g.id == f.id
            &&& e.ctx.funcs.contains_key(f.id->Some_0)
            &&& e.ctx.fn_sigs.contains_key(f.id->Some_0)
        }),
{
    let fid = f.id->Some_0;
    let sig = signature_of(f, env);
    let c1 = ContextV { fn_sigs: env.ctx.fn_sigs.insert(fid, sig), ..env.ctx };
    lemma_signed(env.ctx, fid, sig, p, low, seq![], 0);
    lemma_func(f, EnvV { ctx: c1, ..env }, p, low, seq![], 0);
    let (g, e) = resolved_func(f, EnvV { ctx: c1, ..env })->Ok_0;
    lemma_free_defined(e.ctx, fid, g, p, low, seq![], 0);
}

proof fn lemma_define_members(
    ms: Seq<MemberV>,
    i: int,
    acc: Seq<MemberV>,
    env: EnvV,
    p: Set<i64>,
    low: int,
)
    requires
        0 <= i <= ms.len(),
        inv(env.ctx, p, low, ms, i),
        define_members_from(ms, i, acc, env) is Ok,
    ensures
        ({
            let e = define_members_from(ms, i, acc, env)->Ok_0.1;
            inv(e.ctx, p, low, ms, ms.len() as int) && kept(env.ctx, e.ctx)
        }),
    decreases ms.len() - i,
{
    if i < ms.len() {
        lemma_define_member(env, p, low, ms, i);
        let (g, e) = define_func(member_func(ms[i]), env)->Ok_0;
        lemma_define_members(ms, i + 1, acc.push(with_func(ms[i], g)), e, p, low);
    }
}

/// Nothing waits any more.
proof fn lemma_all_defined(cx: ContextV, p: Set<i64>, low: int, ms: Seq<MemberV>)
    requires
        inv(cx, p, low, ms, ms.len() as int),
    ensures
        inv(cx, p, low, seq![], 0),
{
    reveal(inv);
    assert forall|s: i64, n: Seq<char>| (#[trigger] cx.method(s, n)) is Some implies {
        let f = cx.method(s, n)->Some_0;
        &&& cx.func_owner.contains_key(f)
        &&& cx.func_owner[f] == s
        &&& defined_as(cx, f, n) || waits(seq![], 0, f, n)
    } by {
        assert(!waits(ms, ms.len() as int, cx.method(s, n)->Some_0, n));
    }
}

/// A member has been registered.
proof fn lemma_registered(
    cx: ContextV,
    sid: i64,
    m: MemberV,
    p: Set<i64>,
    low: int,
    acc: Seq<MemberV>,
)
    requires
        inv(cx, p, low, acc, 0),
        cx.has_fresh(),
        member_func(m).id == Some(cx.next_sym_id as i64),
    ensures
        ({
            let fid = cx.next_sym_id as i64;
            let c1 = cx.after_fresh().with_member(
                sid,
                member_func(m).name,
                MemberIndex::Method { func_id: fid },
            );
            inv(
                ContextV { func_owner: c1.func_owner.insert(fid, sid), ..c1 },
                p,
                low,
                acc.push(m),
                0,
            )
        }),
{
    reveal(inv);
    let fid = cx.next_sym_id as i64;
    let name = member_func(m).name;
    let c1 = cx.after_fresh().with_member(sid, name, MemberIndex::Method { func_id: fid });
    let b = ContextV { func_owner: c1.func_owner.insert(fid, sid), ..c1 };
    let next = acc.push(m);
    let members = match lookup(cx.struct_fields, sid) {
        Some(t) => t,
        None => seq![],
    };
    lemma_set_pair(members, name, MemberIndex::Method { func_id: fid });
    assert(!cx.func_owner.contains_key(fid));
    assert(!cx.funcs.contains_key(fid));
    assert forall|s: i64, n: Seq<char>| (#[trigger] b.method(s, n)) is Some implies {
        let f = b.method(s, n)->Some_0;
        &&& b.func_owner.contains_key(f)
        &&& b.func_owner[f] == s
        &&& defined_as(b, f, n) || waits(next, 0, f, n)
    } by {
        if s == sid && n == name {
            assert(next[acc.len() as int] == m);
            assert(waits(next, 0, fid, n));
        } else {
            assert(cx.method(s, n) == b.method(s, n));
            let f = cx.method(s, n)->Some_0;
            assert(f != fid);
            if defined_as(cx, f, n) {
                assert(defined_as(b, f, n));
            } else {
                let k = choose|k: int|
                    0 <= k < acc.len() && member_func(#[trigger] acc[k]).id == Some(f)
                        && member_func(acc[k]).name == n;
                assert(next[k] == acc[k]);
                assert(waits(next, 0, f, n));
            }
        }
    }
    assert forall|id: i64| (#[trigger] b.declared(id)) is Some implies 0 <= id < b.next_sym_id
        && !p.contains(id) && !b.func_owner.contains_key(id) by {
        assert(cx.declared(id) == b.declared(id));
    }
    assert forall|k: int| 0 <= k < next.len() implies {
        let id = member_func(#[trigger] next[k]).id;
        &&& id is Some
        &&& b.func_owner.contains_key(id->Some_0)
        &&& 0 <= k ==> !b.funcs.contains_key(id->Some_0)
    } by {
        if k < acc.len() {
            assert(next[k] == acc[k]);
        }
    }
    assert forall|k: int, l: int| 0 <= k < l < next.len() implies member_func(#[trigger] next[k]).id
        != member_func(#[trigger] next[l]).id by {
        assert(next[k] == acc[k]);
        assert(cx.func_owner.contains_key(member_func(acc[k]).id->Some_0));
        if l < acc.len() {
            assert(next[l] == acc[l]);
        }
    }
}

proof fn lemma_register(
    ms: Seq<MemberV>,
    i: int,
    acc: Seq<MemberV>,
    sid: i64,
    env: EnvV,
    p: Set<i64>,
    low: int,
)
    requires
        0 <= i,
        inv(env.ctx, p, low, acc, 0),
        forall|k: int| 0 <= k < ms.len() ==> member_func(#[trigger] ms[k]).id is None,
        register_members_from(ms, i, acc, sid, env) is Ok,
    ensures
        ({
            let (ns, e) = register_members_from(ms, i, acc, sid, env)->Ok_0;
            inv(e.ctx, p, low, ns, 0) && kept(env.ctx, e.ctx)
        }),
    decreases ms.len() - i,
{
    if i < ms.len() {
        let f = member_func(ms[i]);
        let fid = env.ctx.next_sym_id as i64;
        let m = with_func(ms[i], FuncV { id: Some(fid), ..f });
        let c1 = env.ctx.after_fresh().with_member(
            sid,
            f.name,
            MemberIndex::Method { func_id: fid },
        );
        let e = EnvV {
            ctx: ContextV { func_owner: c1.func_owner.insert(fid, sid), ..c1 },
            ..env
        };
        lemma_registered(env.ctx, sid, m, p, low, acc);
        lemma_register(ms, i + 1, acc.push(m), sid, e, p, low);
    }
}

/// A struct has been given a table of fields, or one without members.
proof fn lemma_struct_table(cx: ContextV, sid: i64, members: MembersV, p: Set<i64>, low: int)
    requires
        inv(cx, p, low, seq![], 0),
        only_fields(members),
    ensures
        inv(
            ContextV { struct_fields: cx.struct_fields.insert(sid, members), ..cx },
            p,
            low,
            seq![],
            0,
        ),
{
    reveal(inv);
    let b = ContextV { struct_fields: cx.struct_fields.insert(sid, members), ..cx };
    assert forall|s: i64, n: Seq<char>| (#[trigger] b.method(s, n)) is Some implies {
        let f = b.method(s, n)->Some_0;
        &&& b.func_owner.contains_key(f)
        &&& b.func_owner[f] == s
        &&& defined_as(b, f, n) || waits(seq![], 0, f, n)
    } by {
        if s == sid {
            assert(map_of(members).contains_key(n));
        } else {
            assert(cx.method(s, n) == b.method(s, n));
            if defined_as(cx, cx.method(s, n)->Some_0, n) {
                assert(defined_as(b, cx.method(s, n)->Some_0, n));
            }
        }
    }
    assert forall|id: i64| (#[trigger] b.declared(id)) is Some implies 0 <= id < b.next_sym_id
        && !p.contains(id) && !b.func_owner.contains_key(id) by {
        assert(cx.declared(id) == b.declared(id));
    }
}

/// No member is a method.
spec fn only_fields(members: MembersV) -> bool {
    forall|n: Seq<char>| #[trigger]
        map_of(members).contains_key(n) ==> map_of(members)[n] is Field
}

proof fn lemma_fields(
    fs: Seq<FieldV>,
    k: int,
    acc: Seq<FieldV>,
    members: MembersV,
    env: EnvV,
    p: Set<i64>,
    low: int,
)
    requires
        inv(env.ctx, p, low, seq![], 0),
        only_fields(members),
        resolve_fields_from(fs, k, acc, members, env) is Ok,
    ensures
        ({
            let (_, ms, e) = resolve_fields_from(fs, k, acc, members, env)->Ok_0;
            inv(e.ctx, p, low, seq![], 0) && only_fields(ms) && same_tables(env.ctx, e.ctx)
        }),
    decreases fs.len() - k,
{
    if 0 <= k < fs.len() {
        let fid = env.ctx.next_sym_id as i64;
        let cx = env.ctx.after_fresh();
        let ty = resolved_type(fs[k].ty, env.scope, cx);
        let e = EnvV {
            ctx: ContextV { field_types: cx.field_types.insert(fid, ty), ..cx },
            ..env
        };
        lemma_fresh_typed(env.ctx, e.ctx, p, low, seq![], 0);
        lemma_set_pair(members, fs[k].name, MemberIndex::Field { field_id: fid });
        lemma_fields(
            fs,
            k + 1,
            acc.push(FieldV { id: Some(fid), ..fs[k] }),
            set_pair(members, fs[k].name, MemberIndex::Field { field_id: fid }),
            e,
            p,
            low,
        );
    }
}

/// The identifier is one of a top-level item that is no function.
spec fn plain_id(id: Option<i64>, p: Set<i64>, low: int) -> bool {
    id is Some && 0 <= id->Some_0 < low && !p.contains(id->Some_0)
}

/// The identifiers of an item are of the kinds that they should be.
spec fn item_fits(item: ItemV, p: Set<i64>, low: int) -> bool {
    &&& unnumbered(item)
    &&& match item {
        ItemV::Const { id, .. } => plain_id(id, p, low),
        ItemV::Enum { variants, .. } => forall|k: int|
            0 <= k < variants.len() ==> plain_id((#[trigger] variants[k]).id, p, low),
        ItemV::Function { id, .. } => id is Some && p.contains(id->Some_0),
        _ => true,
    }
}

proof fn lemma_variants(
    vs: Seq<EnumVariantV>,
    k: int,
    acc: Seq<EnumVariantV>,
    eid: i64,
    name: Seq<char>,
    next: u64,
    env: EnvV,
    p: Set<i64>,
    low: int,
)
    requires
        0 <= k,
        inv(env.ctx, p, low, seq![], 0),
        forall|j: int| 0 <= j < vs.len() ==> plain_id((#[trigger] vs[j]).id, p, low),
        resolve_variants_from(vs, k, acc, eid, name, next, env) is Ok,
    ensures
        ({
            let e = resolve_variants_from(vs, k, acc, eid, name, next, env)->Ok_0.1;
            inv(e.ctx, p, low, seq![], 0) && same_tables(env.ctx, e.ctx)
        }),
    decreases vs.len() - k,
{
    if k < vs.len() {
        assert(plain_id(vs[k].id, p, low));
        let (v, n, e) = resolve_variant(vs[k], eid, name, next, env)->Ok_0;
        lemma_const_typed(env.ctx, e.ctx, vs[k].id->Some_0, p, low, seq![], 0);
        lemma_variants(vs, k + 1, acc.push(v), eid, name, n, e, p, low);
    }
}

/// A free function is defined under the identifier of its item.
pub open spec fn function_found(item: ItemV, cx: ContextV) -> bool {
    match item {
        ItemV::Function { id, func } => {
            &&& id is Some
            &&& func.id == id
            &&& cx.funcs.contains_key(id->Some_0)
            &&& cx.fn_sigs.contains_key(id->Some_0)
        },
        _ => true,
    }
}

proof fn lemma_item(item: ItemV, env: EnvV, p: Set<i64>, low: int)
    requires
        inv(env.ctx, p, low, seq![], 0),
        item_fits(item, p, low),
        resolve_item(item, env) is Ok,
    ensures
        ({
            let (it, e) = resolve_item(item, env)->Ok_0;
            &&& inv(e.ctx, p, low, seq![], 0)
            &&& kept(env.ctx, e.ctx)
            &&& function_found(it, e.ctx)
        }),
{
    let (it, e) = resolve_item(item, env)->Ok_0;
    match item {
        ItemV::Import { .. } => {},
        ItemV::Const { id, .. } => {
            lemma_const_typed(env.ctx, e.ctx, id->Some_0, p, low, seq![], 0);
        },
        ItemV::Enum { id, name, variants } => {
            let e0 = EnvV { ctx: with_enum_width(env.ctx, id->Some_0), ..env };
            lemma_untouched(env.ctx, e0.ctx, p, low, seq![], 0);
            lemma_variants(variants, 0, seq![], id->Some_0, name, 0, e0, p, low);
        },
        ItemV::Struct { id, fields, .. } => {
            lemma_fields(fields, 0, seq![], seq![], env, p, low);
            let (_, ms, e1) = resolve_fields_from(fields, 0, seq![], seq![], env)->Ok_0;
            lemma_struct_table(e1.ctx, id->Some_0, ms, p, low);
        },
        ItemV::Component { name, members, .. } => {
            let sid = lookup(env.ctx.struct_index, name)->Some_0;
            let e0 = EnvV { ctx: env.ctx.with_members(sid), ..env };
            lemma_struct_table(env.ctx, sid, seq![], p, low);
            lemma_register(members, 0, seq![], sid, e0, p, low);
            let (ms, e1) = register_members_from(members, 0, seq![], sid, e0)->Ok_0;
            lemma_define_members(ms, 0, seq![], e1, p, low);
            let e2 = define_members_from(ms, 0, seq![], e1)->Ok_0.1;
            lemma_all_defined(e2.ctx, p, low, ms);
        },
        ItemV::Function { id, func } => lemma_define_free(FuncV { id, ..func }, env, p, low),
    }
}

proof fn lemma_items(
    items: Seq<ItemV>,
    k: int,
    acc: Seq<ItemV>,
    env: EnvV,
    p: Set<i64>,
    low: int,
)
    requires
        0 <= k,
        inv(env.ctx, p, low, seq![], 0),
        forall|j: int| 0 <= j < items.len() ==> item_fits(#[trigger] items[j], p, low),
        forall|j: int| 0 <= j < acc.len() ==> function_found(#[trigger] acc[j], env.ctx),
        resolve_items_from(items, k, acc, env) is Ok,
    ensures
        ({
            let (its, e) = resolve_items_from(items, k, acc, env)->Ok_0;
            &&& inv(e.ctx, p, low, seq![], 0)
            &&& kept(env.ctx, e.ctx)
            &&& forall|j: int| 0 <= j < its.len() ==> function_found(#[trigger] its[j], e.ctx)
        }),
    decreases items.len() - k,
{
    if k < items.len() {
        lemma_item(items[k], env, p, low);
        let (it, e) = resolve_item(items[k], env)->Ok_0;
        assert forall|j: int| 0 <= j < acc.push(it).len() implies function_found(
            #[trigger] acc.push(it)[j],
            e.ctx,
        ) by {
            if j < acc.len() {
                assert(function_found(acc[j], env.ctx));
            }
        }
        lemma_items(items, k + 1, acc.push(it), e, p, low);
    }
}

/// Every item of a program satisfies [`item_fits`].
spec fn all_fit(ms: Seq<ModuleV>, p: Set<i64>, low: int) -> bool {
    forall|m: int, i: int|
        0 <= m < ms.len() && 0 <= i < ms[m].file.items.len() ==> item_fits(
            #[trigger] ms[m].file.items[i],
            p,
            low,
        )
}

/// Every free function of a program is defined under the identifier of its item.
pub open spec fn all_functions_found(ms: Seq<ModuleV>, cx: ContextV) -> bool {
    forall|m: int, i: int|
        0 <= m < ms.len() && 0 <= i < ms[m].file.items.len() ==> function_found(
            #[trigger] ms[m].file.items[i],
            cx,
        )
}

proof fn lemma_modules(
    ms: Seq<ModuleV>,
    k: int,
    acc: Seq<ModuleV>,
    env: EnvV,
    p: Set<i64>,
    low: int,
)
    requires
        0 <= k,
        inv(env.ctx, p, low, seq![], 0),
        all_fit(ms, p, low),
        all_functions_found(acc, env.ctx),
        resolve_modules_from(ms, k, acc, env) is Ok,
    ensures
        ({
            let (ns, e) = resolve_modules_from(ms, k, acc, env)->Ok_0;
            &&& inv(e.ctx, p, low, seq![], 0)
            &&& kept(env.ctx, e.ctx)
            &&& all_functions_found(ns, e.ctx)
        }),
    decreases ms.len() - k,
{
    if k < ms.len() {
        let items = ms[k].file.items;
        let e0 = EnvV { scope: env.scope.pushed(), ..env };
        assert forall|j: int| 0 <= j < items.len() implies item_fits(
            #[trigger] items[j],
            p,
            low,
        ) by {
            assert(item_fits(ms[k].file.items[j], p, low));
        }
        lemma_items(items, 0, seq![], e0, p, low);
        let (its, e1) = resolve_items_from(items, 0, seq![], e0)->Ok_0;
        let e = EnvV { scope: e1.scope.popped(), ..e1 };
        let m = ModuleV { path: ms[k].path, file: FileV { items: its } };
        assert forall|a: int, b: int|
            0 <= a < acc.push(m).len() && 0 <= b < acc.push(m)[a].file.items.len() implies
            function_found(#[trigger] acc.push(m)[a].file.items[b], e.ctx) by {
            if a < acc.len() {
                assert(function_found(acc[a].file.items[b], env.ctx));
            }
        }
        lemma_modules(ms, k + 1, acc.push(m), e, p, low);
    }
}

/// What holds while the items are made visible: nothing is declared yet, and the name and the
/// identifier of a struct lead back to each other.
spec fn publishing(cx: ContextV) -> bool {
    &&& cx.next_sym_id <= 0x8000_0000_0000_0000
    &&& cx.funcs == Map::<i64, FuncV>::empty()
    &&& cx.func_owner == Map::<i64, i64>::empty()
    &&& cx.struct_fields == Map::<i64, MembersV>::empty()
    &&& cx.var_types == Map::<i64, TypeV>::empty()
    &&& cx.const_types == Map::<i64, TypeV>::empty()
    &&& cx.field_types == Map::<i64, TypeV>::empty()
    &&& structs_lead_back(cx)
    &&& forall|id: i64| #[trigger] cx.struct_names.contains_key(id) ==> id < cx.next_sym_id
}

/// The identifier of a struct name is that of a struct of the name.
pub open spec fn structs_lead_back(cx: ContextV) -> bool {
    forall|n: Seq<char>| #[trigger]
        cx.struct_index.contains_key(n) ==> cx.struct_names.contains_key(cx.struct_index[n])
            && cx.struct_names[cx.struct_index[n]] == n
}

proof fn lemma_publish_variants(
    vs: Seq<EnumVariantV>,
    k: int,
    acc: Seq<EnumVariantV>,
    env: EnvV,
    p: Set<i64>,
)
    requires
        0 <= k,
        publishing(env.ctx),
        forall|id: i64| #[trigger] p.contains(id) ==> 0 <= id < env.ctx.next_sym_id,
        forall|j: int|
            0 <= j < acc.len() ==> plain_id(
                (#[trigger] acc[j]).id,
                p,
                env.ctx.next_sym_id as int,
            ),
        publish_variants_from(vs, k, acc, env) is Ok,
    ensures
        ({
            let (ws, e) = publish_variants_from(vs, k, acc, env)->Ok_0;
            &&& publishing(e.ctx)
            &&& env.ctx.next_sym_id <= e.ctx.next_sym_id
            &&& forall|j: int|
                0 <= j < ws.len() ==> plain_id(
                    (#[trigger] ws[j]).id,
                    p,
                    e.ctx.next_sym_id as int,
                )
        }),
    decreases vs.len() - k,
{
    if k < vs.len() {
        let v = EnumVariantV { id: Some(env.ctx.next_sym_id as i64), ..vs[k] };
        let e = publish_name(env, vs[k].name);
        assert forall|j: int| 0 <= j < acc.push(v).len() implies plain_id(
            (#[trigger] acc.push(v)[j]).id,
            p,
            e.ctx.next_sym_id as int,
        ) by {
            if j < acc.len() {
                assert(plain_id(acc[j].id, p, env.ctx.next_sym_id as int));
            }
        }
        lemma_publish_variants(vs, k + 1, acc.push(v), e, p);
    }
}

/// The free functions behind an item that has been made visible.
spec fn with_function(item: ItemV, p: Set<i64>) -> Set<i64> {
    match item {
        ItemV::Function { id: Some(f), .. } => p.insert(f),
        _ => p,
    }
}

/// The free functions are below the limit.
spec fn below(p: Set<i64>, cx: ContextV) -> bool {
    forall|id: i64| #[trigger] p.contains(id) ==> 0 <= id < cx.next_sym_id
}

proof fn lemma_publish_item(item: ItemV, env: EnvV, p: Set<i64>)
    requires
        unnumbered(item),
        publishing(env.ctx),
        below(p, env.ctx),
        publish_item(item, env) is Ok,
    ensures
        ({
            let (it, e) = publish_item(item, env)->Ok_0;
            let q = with_function(it, p);
            &&& publishing(e.ctx)
            &&& env.ctx.next_sym_id <= e.ctx.next_sym_id
            &&& below(q, e.ctx)
            &&& item_fits(it, q, e.ctx.next_sym_id as int)
            &&& forall|id: i64|
                id < env.ctx.next_sym_id ==> (#[trigger] q.contains(id) == p.contains(id))
        }),
{
    let (it, e) = publish_item(item, env)->Ok_0;
    let nid = env.ctx.next_sym_id as i64;
    match item {
        ItemV::Enum { name, variants, .. } => {
            let e0 = publish_name(env, name);
            let e1 = EnvV {
                ctx: ContextV {
                    enum_index: e0.ctx.enum_index.insert(name, nid),
                    enum_names: e0.ctx.enum_names.insert(nid, name),
                    ..e0.ctx
                },
                ..e0
            };
            lemma_publish_variants(variants, 0, seq![], e1, p);
        },
        ItemV::Struct { name, .. } => {
            assert forall|n: Seq<char>| #[trigger] e.ctx.struct_index.contains_key(n) implies
                e.ctx.struct_names.contains_key(e.ctx.struct_index[n])
                && e.ctx.struct_names[e.ctx.struct_index[n]] == n by {
                if n != name {
                    assert(env.ctx.struct_index.contains_key(n));
                    assert(env.ctx.struct_names.contains_key(env.ctx.struct_index[n]));
                }
            }
        },
        _ => {},
    }
}

proof fn lemma_fits_later(item: ItemV, p: Set<i64>, low: int, q: Set<i64>, low2: int)
    requires
        item_fits(item, p, low),
        low <= low2,
        forall|id: i64| id < low ==> (#[trigger] q.contains(id) == p.contains(id)),
        forall|id: i64| #[trigger] p.contains(id) ==> id < low,
    ensures
        item_fits(item, q, low2),
{
    match item {
        ItemV::Enum { variants, .. } => {
            assert forall|k: int| 0 <= k < variants.len() implies plain_id(
                (#[trigger] variants[k]).id,
                q,
                low2,
            ) by {
                assert(plain_id(variants[k].id, p, low));
            }
        },
        _ => {},
    }
}

/// `q` has the free functions of `p` and perhaps newer ones.
spec fn newer(p: Set<i64>, low: int, q: Set<i64>) -> bool {
    forall|id: i64| id < low ==> (#[trigger] q.contains(id) == p.contains(id))
}

proof fn lemma_publish_items(
    items: Seq<ItemV>,
    k: int,
    acc: Seq<ItemV>,
    env: EnvV,
    p: Set<i64>,
) -> (q: Set<i64>)
    requires
        0 <= k,
        publishing(env.ctx),
        below(p, env.ctx),
        forall|j: int| 0 <= j < items.len() ==> unnumbered(#[trigger] items[j]),
        forall|j: int|
            0 <= j < acc.len() ==> item_fits(#[trigger] acc[j], p, env.ctx.next_sym_id as int),
        publish_items_from(items, k, acc, env) is Ok,
    ensures
        ({
            let (its, e) = publish_items_from(items, k, acc, env)->Ok_0;
            &&& publishing(e.ctx)
            &&& env.ctx.next_sym_id <= e.ctx.next_sym_id
            &&& below(q, e.ctx)
            &&& newer(p, env.ctx.next_sym_id as int, q)
            &&& forall|j: int|
                0 <= j < its.len() ==> item_fits(#[trigger] its[j], q, e.ctx.next_sym_id as int)
        }),
    decreases items.len() - k,
{
    if k < items.len() {
        lemma_publish_item(items[k], env, p);
        let (it, e) = publish_item(items[k], env)->Ok_0;
        let p1 = with_function(it, p);
        assert forall|j: int| 0 <= j < acc.push(it).len() implies item_fits(
            #[trigger] acc.push(it)[j],
            p1,
            e.ctx.next_sym_id as int,
        ) by {
            if j < acc.len() {
                lemma_fits_later(
                    acc[j],
                    p,
                    env.ctx.next_sym_id as int,
                    p1,
                    e.ctx.next_sym_id as int,
                );
            }
        }
        lemma_publish_items(items, k + 1, acc.push(it), e, p1)
    } else {
        p
    }
}

proof fn lemma_publish_modules(
    ms: Seq<ModuleV>,
    k: int,
    acc: Seq<ModuleV>,
    env: EnvV,
    p: Set<i64>,
) -> (q: Set<i64>)
    requires
        0 <= k,
        freshly_parsed(ms),
        publishing(env.ctx),
        below(p, env.ctx),
        all_fit(acc, p, env.ctx.next_sym_id as int),
        publish_modules_from(ms, k, acc, env) is Ok,
    ensures
        ({
            let (ns, e) = publish_modules_from(ms, k, acc, env)->Ok_0;
            publishing(e.ctx) && below(q, e.ctx) && all_fit(ns, q, e.ctx.next_sym_id as int)
        }),
    decreases ms.len() - k,
{
    if k < ms.len() {
        let items = ms[k].file.items;
        assert forall|j: int| 0 <= j < items.len() implies unnumbered(#[trigger] items[j]) by {
            assert(unnumbered(ms[k].file.items[j]));
        }
        let p1 = lemma_publish_items(items, 0, seq![], env, p);
        let (its, e) = publish_items_from(items, 0, seq![], env)->Ok_0;
        let m = ModuleV { path: ms[k].path, file: FileV { items: its } };
        assert forall|a: int, b: int|
            0 <= a < acc.push(m).len() && 0 <= b < acc.push(m)[a].file.items.len() implies item_fits(
            #[trigger] acc.push(m)[a].file.items[b],
            p1,
            e.ctx.next_sym_id as int,
        ) by {
            if a < acc.len() {
                lemma_fits_later(
                    acc[a].file.items[b],
                    p,
                    env.ctx.next_sym_id as int,
                    p1,
                    e.ctx.next_sym_id as int,
                );
            }
        }
        lemma_publish_modules(ms, k + 1, acc.push(m), e, p1)
    } else {
        p
    }
}

proof fn lemma_start(cx: ContextV, p: Set<i64>)
    requires
        publishing(cx),
        below(p, cx),
    ensures
        inv(cx, p, cx.next_sym_id as int, seq![], 0),
{
    reveal(inv);
}

/// The context of a program, with what holds of it.
proof fn lemma_program(ms: Seq<ModuleV>) -> (pl: (Set<i64>, int))
    requires
        freshly_parsed(ms),
        program_context(ms) is Ok,
    ensures
        ({
            let (rs, cx) = program_context(ms)->Ok_0;
            &&& inv(cx, pl.0, pl.1, seq![], 0)
            &&& all_functions_found(rs, cx)
            &&& structs_lead_back(cx)
        }),
{
    let e0 = empty_env();
    let p = lemma_publish_modules(ms, 0, seq![], e0, Set::empty());
    let (ps, e1) = publish_modules_from(ms, 0, seq![], e0)->Ok_0;
    let low = e1.ctx.next_sym_id as int;
    lemma_start(e1.ctx, p);
    lemma_modules(ps, 0, seq![], e1, p, low);
    let (rs, e2) = resolve_modules_from(ps, 0, seq![], e1)->Ok_0;
    let cx = program_context(ms)->Ok_0.1;
    lemma_untouched(e2.ctx, cx, p, low, seq![], 0);
    assert forall|m: int, i: int| 0 <= m < rs.len() && 0 <= i < rs[m].file.items.len() implies
        function_found(#[trigger] rs[m].file.items[i], cx) by {
        assert(function_found(rs[m].file.items[i], e2.ctx));
    }
    (p, low)
}

/// The name of a struct leads to its identifier, and that to the type of the name, which is
/// classified as the struct.
pub proof fn struct_names_lead_back(ms: Seq<ModuleV>, n: Seq<char>)
    requires
        freshly_parsed(ms),
        program_context(ms) is Ok,
        program_context(ms)->Ok_0.1.struct_index.contains_key(n),
    ensures
        ({
            let cx = program_context(ms)->Ok_0.1;
            let sid = cx.struct_index[n];
            let ty = TypeV::Path { segments: seq![n], ref_id: Some(sid) };
            &&& cx.struct_path(sid) == Some(ty)
            &&& cx.classify(ty) == Ok::<
                PathKind,
                crate::checker::symbolic::context::ClassifyError,
            >(PathKind::Struct(sid))
        }),
{
    let _ = lemma_program(ms);
}

/// Only variables, constants and fields have declared types, functions never.
pub proof fn functions_have_no_declared_type(ms: Seq<ModuleV>, id: i64)
    requires
        freshly_parsed(ms),
        program_context(ms) is Ok,
        program_context(ms)->Ok_0.1.funcs.contains_key(id),
    ensures
        program_context(ms)->Ok_0.1.declared(id) is None,
{
    let _ = lemma_program(ms);
    reveal(inv);
}

/// A method that is found on a struct is owned by it, has a signature and is defined under the
/// name.
pub proof fn methods_are_owned_and_defined(ms: Seq<ModuleV>, s: i64, n: Seq<char>, f: i64)
    requires
        freshly_parsed(ms),
        program_context(ms) is Ok,
        program_context(ms)->Ok_0.1.method(s, n) == Some(f),
    ensures
        lookup(program_context(ms)->Ok_0.1.func_owner, f) == Some(s),
        defined_as(program_context(ms)->Ok_0.1, f, n),
{
    let _ = lemma_program(ms);
    reveal(inv);
    let cx = program_context(ms)->Ok_0.1;
    assert(cx.method(s, n) is Some);
    assert(!waits(seq![], 0, f, n));
}

/// A free function is defined, and has a signature, under the identifier of its item, to which its
/// name leads.
pub proof fn free_functions_are_found(ms: Seq<ModuleV>)
    requires
        freshly_parsed(ms),
        program_context(ms) is Ok,
    ensures
        all_functions_found(program_context(ms)->Ok_0.0, program_context(ms)->Ok_0.1),
{
    let _ = lemma_program(ms);
}

} // verus!
