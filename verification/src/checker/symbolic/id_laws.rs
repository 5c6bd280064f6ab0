//! The identifiers that a program gets are numbered without gaps and without repetition.

use vstd::prelude::*;
use crate::ast::helpers::member_func;
use crate::ast::{
    EnumVariantV, FieldV, FileV, FuncV, ItemV, MemberV, ParamV, StmtV,
};
use crate::checker::symbolic::context::{lookup, ContextV, MembersV};
use crate::checker::symbolic::init::{
    define_func, define_members_from, empty_env, program_context, publish_item, publish_items_from,
    publish_modules_from, publish_variants_from, register_members_from, resolve_fields_from,
    resolve_item, resolve_items_from, resolve_modules_from, resolve_variants_from, with_enum_width,
    with_func,
};
use crate::checker::symbolic::resolve::{
    resolved_func, resolved_param, resolved_params_from, resolved_stmt, resolved_stmts_from, EnvV,
};
use crate::utils::module_resolver::ModuleV;

verus! {

/// Identifiers, each of which may be missing.
pub type Ids = Seq<Option<i64>>;

/// The identifiers from `lo` up to `hi`.
pub open spec fn numbered(lo: int, hi: int) -> Ids {
    Seq::new((hi - lo) as nat, |i: int| Some((lo + i) as i64))
}

/// The identifiers of a statement, in the order in which they are handed out.
pub open spec fn stmt_ids(s: StmtV) -> Ids
    decreases s,
{
    match s {
        StmtV::VarDecl { id, .. } => seq![id],
        StmtV::For { id, body, .. } => seq![id] + stmts_ids(body),
        StmtV::If { then_branch, else_branch, .. } => stmts_ids(then_branch) + stmts_ids(
            else_branch,
        ),
        _ => seq![],
    }
}

/// The identifiers of statements.
pub open spec fn stmts_ids(ss: Seq<StmtV>) -> Ids
    decreases ss,
{
    if ss.len() == 0 {
        seq![]
    } else {
        stmts_ids(ss.drop_last()) + stmt_ids(ss.last())
    }
}

/// The identifier of a parameter.
pub open spec fn param_id(p: ParamV) -> Option<i64> {
    match p {
        ParamV::SelfParam { id } => id,
        ParamV::Typed { id, .. } => id,
    }
}

/// The identifiers inside a function.
pub open spec fn body_ids(f: FuncV) -> Ids {
    f.params.map_values(|p: ParamV| param_id(p)) + stmts_ids(f.body)
}

/// The identifiers of the functions of members.
pub open spec fn head_ids(ms: Seq<MemberV>) -> Ids {
    ms.map_values(|m: MemberV| member_func(m).id)
}

/// The identifiers inside the functions of members.
pub open spec fn members_ids(ms: Seq<MemberV>) -> Ids
    decreases ms.len(),
{
    if ms.len() == 0 {
        seq![]
    } else {
        members_ids(ms.drop_last()) + body_ids(member_func(ms.last()))
    }
}

/// The identifiers of variants.
pub open spec fn variant_ids(vs: Seq<EnumVariantV>) -> Ids {
    vs.map_values(|v: EnumVariantV| v.id)
}

/// The identifiers of fields.
pub open spec fn field_ids(fs: Seq<FieldV>) -> Ids {
    fs.map_values(|f: FieldV| f.id)
}

/// The identifiers of an item that are visible everywhere.
pub open spec fn public_ids(item: ItemV) -> Ids {
    match item {
        ItemV::Const { id, .. } => seq![id],
        ItemV::Enum { id, variants, .. } => seq![id] + variant_ids(variants),
        ItemV::Struct { id, .. } => seq![id],
        ItemV::Function { id, .. } => seq![id],
        _ => seq![],
    }
}

/// The identifiers inside an item: of fields, of member functions, and of what is in functions.
pub open spec fn inner_ids(item: ItemV) -> Ids {
    match item {
        ItemV::Struct { fields, .. } => field_ids(fields),
        ItemV::Component { members, .. } => head_ids(members) + members_ids(members),
        ItemV::Function { func, .. } => body_ids(func),
        _ => seq![],
    }
}

/// The public identifiers of items.
pub open spec fn items_public(items: Seq<ItemV>) -> Ids
    decreases items.len(),
{
    if items.len() == 0 {
        seq![]
    } else {
        items_public(items.drop_last()) + public_ids(items.last())
    }
}

/// The identifiers inside items.
pub open spec fn items_inner(items: Seq<ItemV>) -> Ids
    decreases items.len(),
{
    if items.len() == 0 {
        seq![]
    } else {
        items_inner(items.drop_last()) + inner_ids(items.last())
    }
}

/// The public identifiers of modules.
pub open spec fn modules_public(ms: Seq<ModuleV>) -> Ids
    decreases ms.len(),
{
    if ms.len() == 0 {
        seq![]
    } else {
        modules_public(ms.drop_last()) + items_public(ms.last().file.items)
    }
}

/// The identifiers inside the items of modules.
pub open spec fn modules_inner(ms: Seq<ModuleV>) -> Ids
    decreases ms.len(),
{
    if ms.len() == 0 {
        seq![]
    } else {
        modules_inner(ms.drop_last()) + items_inner(ms.last().file.items)
    }
}

/// An item as it is parsed: imports, components and member functions have no identifiers.
pub open spec fn unnumbered(item: ItemV) -> bool {
    match item {
        ItemV::Import { id, .. } => id is None,
        ItemV::Component { id, members, .. } => id is None && forall|i: int|
            0 <= i < members.len() ==> member_func(#[trigger] members[i]).id is None,
        _ => true,
    }
}

/// A program as it is parsed.
pub open spec fn freshly_parsed(ms: Seq<ModuleV>) -> bool {
    forall|m: int, i: int|
        0 <= m < ms.len() && 0 <= i < ms[m].file.items.len() ==> unnumbered(
            #[trigger] ms[m].file.items[i],
        )
}

proof fn lemma_numbered_add(a: int, b: int, c: int)
    requires
        a <= b <= c,
    ensures
        numbered(a, b) + numbered(b, c) == numbered(a, c),
{
    assert(numbered(a, b) + numbered(b, c) =~= numbered(a, c));
}

proof fn lemma_numbered_one(a: int)
    ensures
        numbered(a, a) == Seq::<Option<i64>>::empty(),
        numbered(a, a + 1) == seq![Some(a as i64)],
{
    assert(numbered(a, a) =~= seq![]);
    assert(numbered(a, a + 1) =~= seq![Some(a as i64)]);
}

proof fn lemma_stmts_push(ss: Seq<StmtV>, s: StmtV)
    ensures
        stmts_ids(ss.push(s)) == stmts_ids(ss) + stmt_ids(s),
{
    assert(ss.push(s).drop_last() =~= ss);
}

/// The numbers between two environments.
spec fn between(a: EnvV, b: EnvV) -> Ids {
    numbered(a.ctx.next_sym_id as int, b.ctx.next_sym_id as int)
}

/// `b` has handed out at least as many identifiers.
spec fn later(a: EnvV, b: EnvV) -> bool {
    a.ctx.next_sym_id <= b.ctx.next_sym_id && (a.ctx.next_sym_id <= 0x8000_0000_0000_0000
        ==> b.ctx.next_sym_id <= 0x8000_0000_0000_0000)
}

proof fn lemma_between_chain(a: EnvV, b: EnvV, c: EnvV)
    requires
        later(a, b),
        later(b, c),
    ensures
        between(a, b) + between(b, c) == between(a, c),
{
    lemma_numbered_add(
        a.ctx.next_sym_id as int,
        b.ctx.next_sym_id as int,
        c.ctx.next_sym_id as int,
    );
}

proof fn lemma_stmt_ids(s: StmtV, env: EnvV)
    requires
        resolved_stmt(s, env) is Ok,
    ensures
        ({
            let (t, e) = resolved_stmt(s, env)->Ok_0;
            later(env, e) && stmt_ids(t) == between(env, e)
        }),
    decreases s, 0int,
{
    let (t, e) = resolved_stmt(s, env)->Ok_0;
    let n = env.ctx.next_sym_id as int;
    lemma_numbered_one(n);
    match s {
        StmtV::VarDecl { .. } => {},
        StmtV::For { var, body, .. } => {
            let inner = crate::checker::symbolic::resolve::bind_fresh(
                EnvV { scope: env.scope.pushed(), ..env },
                var,
            );
            lemma_numbered_one(n + 1);
            lemma_stmts_ids(body, 0, seq![], inner, inner);
            let b = resolved_stmts_from(body, 0, seq![], inner)->Ok_0.0;
            assert(stmt_ids(t) == seq![Some(n as i64)] + stmts_ids(b));
            lemma_between_chain(env, inner, e);
        },
        StmtV::If { then_branch, else_branch, .. } => {
            let e0 = EnvV { scope: env.scope.pushed(), ..env };
            lemma_stmts_ids(then_branch, 0, seq![], e0, e0);
            let (a, e1) = resolved_stmts_from(then_branch, 0, seq![], e0)->Ok_0;
            let e2 = EnvV { scope: e1.scope.popped().pushed(), ..e1 };
            lemma_numbered_one(e2.ctx.next_sym_id as int);
            lemma_stmts_ids(else_branch, 0, seq![], e2, e2);
            let (b, e3) = resolved_stmts_from(else_branch, 0, seq![], e2)->Ok_0;
            assert(stmt_ids(t) == stmts_ids(a) + stmts_ids(b));
            lemma_between_chain(env, e1, e3);
        },
        _ => {},
    }
}

proof fn lemma_stmts_ids(ss: Seq<StmtV>, i: int, acc: Seq<StmtV>, env: EnvV, start: EnvV)
    requires
        later(start, env),
        stmts_ids(acc) == between(start, env),
        resolved_stmts_from(ss, i, acc, env) is Ok,
    ensures
        ({
            let (ts, e) = resolved_stmts_from(ss, i, acc, env)->Ok_0;
            later(env, e) && stmts_ids(ts) == between(start, e)
        }),
    decreases ss, ss.len() - i,
{
    lemma_numbered_one(env.ctx.next_sym_id as int);
    if 0 <= i < ss.len() {
        lemma_stmt_ids(ss[i], env);
        let (t, e) = resolved_stmt(ss[i], env)->Ok_0;
        lemma_stmts_push(acc, t);
        lemma_between_chain(start, env, e);
        lemma_stmts_ids(ss, i + 1, acc.push(t), e, start);
    }
}

proof fn lemma_params_ids(
    ps: Seq<ParamV>,
    i: int,
    acc: Seq<ParamV>,
    owner: Option<i64>,
    env: EnvV,
    start: EnvV,
)
    requires
        later(start, env),
        acc.map_values(|p: ParamV| param_id(p)) == between(start, env),
        resolved_params_from(ps, i, acc, owner, env) is Ok,
    ensures
        ({
            let (qs, e) = resolved_params_from(ps, i, acc, owner, env)->Ok_0;
            later(env, e) && qs.map_values(|p: ParamV| param_id(p)) == between(start, e)
        }),
    decreases ps.len() - i,
{
    if 0 <= i < ps.len() {
        let (p, e) = resolved_param(ps[i], owner, env)->Ok_0;
        lemma_numbered_one(env.ctx.next_sym_id as int);
        lemma_between_chain(start, env, e);
        assert(acc.push(p).map_values(|p: ParamV| param_id(p)) =~= acc.map_values(
            |p: ParamV| param_id(p),
        ) + seq![param_id(p)]);
        lemma_params_ids(ps, i + 1, acc.push(p), owner, e, start);
    }
}

/// The parameters and the body of a function are numbered one after the other.
proof fn lemma_func_ids(f: FuncV, env: EnvV)
    requires
        resolved_func(f, env) is Ok,
    ensures
        ({
            let (g, e) = resolved_func(f, env)->Ok_0;
            later(env, e) && body_ids(g) == between(env, e) && g.id == f.id && g.name == f.name
        }),
{
    let (g, e) = resolved_func(f, env)->Ok_0;
    let owner = lookup(env.ctx.func_owner, f.id->Some_0);
    let e0 = EnvV { scope: env.scope.pushed(), ..env };
    lemma_numbered_one(env.ctx.next_sym_id as int);
    assert(Seq::<ParamV>::empty().map_values(|p: ParamV| param_id(p)) =~= seq![]);
    lemma_params_ids(f.params, 0, seq![], owner, e0, e0);
    let (ps, e1) = resolved_params_from(f.params, 0, seq![], owner, e0)->Ok_0;
    lemma_numbered_one(e1.ctx.next_sym_id as int);
    lemma_stmts_ids(f.body, 0, seq![], e1, e1);
    let (b, e2) = resolved_stmts_from(f.body, 0, seq![], e1)->Ok_0;
    lemma_between_chain(e0, e1, e2);
}

proof fn lemma_define_ids(f: FuncV, env: EnvV)
    requires
        define_func(f, env) is Ok,
    ensures
        ({
            let (g, e) = define_func(f, env)->Ok_0;
            later(env, e) && body_ids(g) == between(env, e) && g.id == f.id
        }),
{
    let sig = crate::checker::symbolic::init::signature_of(f, env);
    let c1 = ContextV { fn_sigs: env.ctx.fn_sigs.insert(f.id->Some_0, sig), ..env.ctx };
    lemma_func_ids(f, EnvV { ctx: c1, ..env });
}

proof fn lemma_fields_ids(
    fs: Seq<FieldV>,
    i: int,
    acc: Seq<FieldV>,
    members: MembersV,
    env: EnvV,
    start: EnvV,
)
    requires
        later(start, env),
        field_ids(acc) == between(start, env),
        resolve_fields_from(fs, i, acc, members, env) is Ok,
    ensures
        ({
            let (gs, _, e) = resolve_fields_from(fs, i, acc, members, env)->Ok_0;
            later(env, e) && field_ids(gs) == between(start, e)
        }),
    decreases fs.len() - i,
{
    if 0 <= i < fs.len() {
        let n = env.ctx.next_sym_id as int;
        let fid = n as i64;
        let cx = env.ctx.after_fresh();
        let ty = crate::checker::symbolic::resolve::resolved_type(fs[i].ty, env.scope, cx);
        let e = EnvV {
            ctx: ContextV { field_types: cx.field_types.insert(fid, ty), ..cx },
            ..env
        };
        let f = FieldV { id: Some(fid), ..fs[i] };
        lemma_numbered_one(n);
        lemma_between_chain(start, env, e);
        assert(field_ids(acc.push(f)) =~= field_ids(acc) + seq![Some(fid)]);
        lemma_fields_ids(
            fs,
            i + 1,
            acc.push(f),
            crate::name_map::set_pair(
                members,
                fs[i].name,
                crate::checker::symbolic::context::MemberIndex::Field { field_id: fid },
            ),
            e,
            start,
        );
    }
}

proof fn lemma_register_ids(
    ms: Seq<MemberV>,
    i: int,
    acc: Seq<MemberV>,
    sid: i64,
    env: EnvV,
    start: EnvV,
)
    requires
        0 <= i,
        later(start, env),
        head_ids(acc) == between(start, env),
        forall|k: int| 0 <= k < ms.len() ==> member_func(#[trigger] ms[k]).id is None,
        register_members_from(ms, i, acc, sid, env) is Ok,
    ensures
        ({
            let (ns, e) = register_members_from(ms, i, acc, sid, env)->Ok_0;
            later(env, e) && head_ids(ns) == between(start, e)
        }),
    decreases ms.len() - i,
{
    if i < ms.len() {
        let f = member_func(ms[i]);
        let n = env.ctx.next_sym_id as int;
        let fid = n as i64;
        let c1 = env.ctx.after_fresh().with_member(
            sid,
            f.name,
            crate::checker::symbolic::context::MemberIndex::Method { func_id: fid },
        );
        let e = EnvV {
            ctx: ContextV { func_owner: c1.func_owner.insert(fid, sid), ..c1 },
            ..env
        };
        let m = with_func(ms[i], FuncV { id: Some(fid), ..f });
        lemma_numbered_one(n);
        lemma_between_chain(start, env, e);
        assert(head_ids(acc.push(m)) =~= head_ids(acc) + seq![Some(fid)]);
        lemma_register_ids(ms, i + 1, acc.push(m), sid, e, start);
    }
}

proof fn lemma_define_members_ids(
    ms: Seq<MemberV>,
    i: int,
    acc: Seq<MemberV>,
    env: EnvV,
    start: EnvV,
)
    requires
        0 <= i <= ms.len(),
        later(start, env),
        members_ids(acc) == between(start, env),
        head_ids(acc) == head_ids(ms).take(i),
        define_members_from(ms, i, acc, env) is Ok,
    ensures
        ({
            let (ns, e) = define_members_from(ms, i, acc, env)->Ok_0;
            later(env, e) && members_ids(ns) == between(start, e) && head_ids(ns) == head_ids(ms)
        }),
    decreases ms.len() - i,
{
    if i < ms.len() {
        let f = member_func(ms[i]);
        lemma_define_ids(f, env);
        let (g, e) = define_func(f, env)->Ok_0;
        let m = with_func(ms[i], g);
        lemma_between_chain(start, env, e);
        assert(acc.push(m).drop_last() =~= acc);
        assert(head_ids(acc.push(m)) =~= head_ids(ms).take(i + 1));
        lemma_define_members_ids(ms, i + 1, acc.push(m), e, start);
    } else {
        assert(head_ids(ms).take(i) =~= head_ids(ms));
    }
}

proof fn lemma_variants_kept(
    vs: Seq<EnumVariantV>,
    i: int,
    acc: Seq<EnumVariantV>,
    eid: i64,
    name: Seq<char>,
    next: u64,
    env: EnvV,
)
    requires
        0 <= i <= vs.len(),
        forall|k: int| 0 <= k < vs.len() ==> (#[trigger] vs[k]).id is Some,
        variant_ids(acc) == variant_ids(vs).take(i),
        resolve_variants_from(vs, i, acc, eid, name, next, env) is Ok,
    ensures
        ({
            let (ws, e) = resolve_variants_from(vs, i, acc, eid, name, next, env)->Ok_0;
            variant_ids(ws) == variant_ids(vs) && e.ctx.next_sym_id == env.ctx.next_sym_id
        }),
    decreases vs.len() - i,
{
    if i < vs.len() {
        let r = crate::checker::symbolic::init::resolve_variant(vs[i], eid, name, next, env);
        let (v, n, e) = r->Ok_0;
        assert(vs[i].id is Some);
        assert(v.id == vs[i].id);
        assert(variant_ids(acc).len() == acc.len());
        assert(variant_ids(acc.push(v)) =~= variant_ids(acc).push(v.id));
        assert(variant_ids(acc.push(v)) =~= variant_ids(vs).take(i + 1));
        lemma_variants_kept(vs, i + 1, acc.push(v), eid, name, n, e);
    } else {
        assert(variant_ids(vs).take(i) =~= variant_ids(vs));
    }
}

/// The variants of an item have identifiers.
pub open spec fn variants_numbered(item: ItemV) -> bool {
    match item {
        ItemV::Enum { variants, .. } => forall|k: int|
            0 <= k < variants.len() ==> (#[trigger] variants[k]).id is Some,
        _ => true,
    }
}

/// An item that is ready to be resolved.
spec fn ready(item: ItemV) -> bool {
    unnumbered(item) && variants_numbered(item)
}

/// The identifier of an import or a component is missing.
pub open spec fn stays_unnumbered(item: ItemV) -> bool {
    match item {
        ItemV::Import { id, .. } => id is None,
        ItemV::Component { id, .. } => id is None,
        _ => true,
    }
}

proof fn lemma_item_ids(item: ItemV, env: EnvV)
    requires
        ready(item),
        resolve_item(item, env) is Ok,
    ensures
        ({
            let (it, e) = resolve_item(item, env)->Ok_0;
            &&& later(env, e)
            &&& inner_ids(it) == between(env, e)
            &&& public_ids(it) == public_ids(item)
            &&& stays_unnumbered(it)
        }),
{
    let (it, e) = resolve_item(item, env)->Ok_0;
    lemma_numbered_one(env.ctx.next_sym_id as int);
    match item {
        ItemV::Import { .. } => {},
        ItemV::Const { id, ty, name, value } => {},
        ItemV::Enum { id, name, variants } => {
            let e0 = EnvV { ctx: with_enum_width(env.ctx, id->Some_0), ..env };
            assert(variant_ids(seq![]) =~= variant_ids(variants).take(0));
            lemma_variants_kept(variants, 0, seq![], id->Some_0, name, 0, e0);
        },
        ItemV::Struct { fields, .. } => {
            assert(field_ids(seq![]) =~= seq![]);
            lemma_fields_ids(fields, 0, seq![], seq![], env, env);
        },
        ItemV::Component { id, name, members, query } => {
            let sid = lookup(env.ctx.struct_index, name)->Some_0;
            let e0 = EnvV { ctx: env.ctx.with_members(sid), ..env };
            assert(head_ids(seq![]) =~= seq![]);
            lemma_register_ids(members, 0, seq![], sid, e0, e0);
            let (ms, e1) = register_members_from(members, 0, seq![], sid, e0)->Ok_0;
            lemma_numbered_one(e1.ctx.next_sym_id as int);
            assert(head_ids(seq![]) =~= head_ids(ms).take(0));
            lemma_define_members_ids(ms, 0, seq![], e1, e1);
            let (ds, e2) = define_members_from(ms, 0, seq![], e1)->Ok_0;
            lemma_between_chain(e0, e1, e2);
        },
        ItemV::Function { id, func } => lemma_define_ids(FuncV { id, ..func }, env),
    }
}

proof fn lemma_items_push(items: Seq<ItemV>, it: ItemV)
    ensures
        items_public(items.push(it)) == items_public(items) + public_ids(it),
        items_inner(items.push(it)) == items_inner(items) + inner_ids(it),
{
    assert(items.push(it).drop_last() =~= items);
}

proof fn lemma_items_ids(items: Seq<ItemV>, i: int, acc: Seq<ItemV>, env: EnvV, start: EnvV)
    requires
        0 <= i <= items.len(),
        forall|k: int| 0 <= k < items.len() ==> ready(#[trigger] items[k]),
        later(start, env),
        items_inner(acc) == between(start, env),
        items_public(acc) == items_public(items.take(i)),
        forall|k: int| 0 <= k < acc.len() ==> stays_unnumbered(#[trigger] acc[k]),
        resolve_items_from(items, i, acc, env) is Ok,
    ensures
        ({
            let (its, e) = resolve_items_from(items, i, acc, env)->Ok_0;
            &&& later(env, e)
            &&& items_inner(its) == between(start, e)
            &&& items_public(its) == items_public(items)
            &&& forall|k: int| 0 <= k < its.len() ==> stays_unnumbered(#[trigger] its[k])
        }),
    decreases items.len() - i,
{
    if i < items.len() {
        lemma_item_ids(items[i], env);
        let (it, e) = resolve_item(items[i], env)->Ok_0;
        lemma_items_push(acc, it);
        lemma_between_chain(start, env, e);
        assert(items.take(i + 1).drop_last() =~= items.take(i));
        assert(items.take(i + 1).last() == items[i]);
        lemma_items_ids(items, i + 1, acc.push(it), e, start);
    } else {
        assert(items.take(i) =~= items);
    }
}

proof fn lemma_modules_push(ms: Seq<ModuleV>, m: ModuleV)
    ensures
        modules_public(ms.push(m)) == modules_public(ms) + items_public(m.file.items),
        modules_inner(ms.push(m)) == modules_inner(ms) + items_inner(m.file.items),
{
    assert(ms.push(m).drop_last() =~= ms);
}

/// Every item of a program satisfies [`ready`].
spec fn all_ready(ms: Seq<ModuleV>) -> bool {
    forall|m: int, i: int|
        0 <= m < ms.len() && 0 <= i < ms[m].file.items.len() ==> ready(
            #[trigger] ms[m].file.items[i],
        )
}

/// Imports and components have no identifiers.
pub open spec fn all_stay_unnumbered(ms: Seq<ModuleV>) -> bool {
    forall|m: int, i: int|
        0 <= m < ms.len() && 0 <= i < ms[m].file.items.len() ==> stays_unnumbered(
            #[trigger] ms[m].file.items[i],
        )
}

proof fn lemma_modules_ids(ms: Seq<ModuleV>, i: int, acc: Seq<ModuleV>, env: EnvV, start: EnvV)
    requires
        0 <= i <= ms.len(),
        all_ready(ms),
        later(start, env),
        modules_inner(acc) == between(start, env),
        modules_public(acc) == modules_public(ms.take(i)),
        all_stay_unnumbered(acc),
        resolve_modules_from(ms, i, acc, env) is Ok,
    ensures
        ({
            let (ns, e) = resolve_modules_from(ms, i, acc, env)->Ok_0;
            &&& later(env, e)
            &&& modules_inner(ns) == between(start, e)
            &&& modules_public(ns) == modules_public(ms)
            &&& all_stay_unnumbered(ns)
        }),
    decreases ms.len() - i,
{
    if i < ms.len() {
        let items = ms[i].file.items;
        let e0 = EnvV { scope: env.scope.pushed(), ..env };
        lemma_numbered_one(env.ctx.next_sym_id as int);
        assert(items_inner(seq![]) == Seq::<Option<i64>>::empty());
        assert(items.take(0) =~= seq![]);
        assert forall|k: int| 0 <= k < items.len() implies ready(#[trigger] items[k]) by {
            assert(ready(ms[i].file.items[k]));
        }
        lemma_items_ids(items, 0, seq![], e0, e0);
        let (its, e1) = resolve_items_from(items, 0, seq![], e0)->Ok_0;
        let e = EnvV { scope: e1.scope.popped(), ..e1 };
        let m = ModuleV { path: ms[i].path, file: FileV { items: its } };
        lemma_modules_push(acc, m);
        lemma_between_chain(start, env, e);
        assert(ms.take(i + 1).drop_last() =~= ms.take(i));
        assert(ms.take(i + 1).last() == ms[i]);
        assert forall|a: int, b: int|
            0 <= a < acc.push(m).len() && 0 <= b < acc.push(m)[a].file.items.len() implies
            stays_unnumbered(#[trigger] acc.push(m)[a].file.items[b]) by {
            if a < acc.len() {
                assert(stays_unnumbered(acc[a].file.items[b]));
            }
        }
        lemma_modules_ids(ms, i + 1, acc.push(m), e, start);
    } else {
        assert(ms.take(i) =~= ms);
    }
}

proof fn lemma_publish_variants(
    vs: Seq<EnumVariantV>,
    i: int,
    acc: Seq<EnumVariantV>,
    env: EnvV,
    start: EnvV,
)
    requires
        0 <= i,
        later(start, env),
        variant_ids(acc) == between(start, env),
        forall|k: int| 0 <= k < acc.len() ==> (#[trigger] acc[k]).id is Some,
        publish_variants_from(vs, i, acc, env) is Ok,
    ensures
        ({
            let (ws, e) = publish_variants_from(vs, i, acc, env)->Ok_0;
            &&& later(env, e)
            &&& variant_ids(ws) == between(start, e)
            &&& forall|k: int| 0 <= k < ws.len() ==> (#[trigger] ws[k]).id is Some
        }),
    decreases vs.len() - i,
{
    if i < vs.len() {
        let n = env.ctx.next_sym_id as int;
        let v = EnumVariantV { id: Some(n as i64), ..vs[i] };
        let e = crate::checker::symbolic::init::publish_name(env, vs[i].name);
        lemma_numbered_one(n);
        lemma_between_chain(start, env, e);
        assert(variant_ids(acc.push(v)) =~= variant_ids(acc) + seq![Some(n as i64)]);
        lemma_publish_variants(vs, i + 1, acc.push(v), e, start);
    }
}

proof fn lemma_publish_item(item: ItemV, env: EnvV)
    requires
        unnumbered(item),
        publish_item(item, env) is Ok,
    ensures
        ({
            let (it, e) = publish_item(item, env)->Ok_0;
            later(env, e) && public_ids(it) == between(env, e) && ready(it)
        }),
{
    let n = env.ctx.next_sym_id as int;
    lemma_numbered_one(n);
    match item {
        ItemV::Enum { name, variants, .. } => {
            let nid = n as i64;
            let e = crate::checker::symbolic::init::publish_name(env, name);
            let e1 = EnvV {
                ctx: ContextV {
                    enum_index: e.ctx.enum_index.insert(name, nid),
                    enum_names: e.ctx.enum_names.insert(nid, name),
                    ..e.ctx
                },
                ..e
            };
            lemma_numbered_one(n + 1);
            assert(variant_ids(seq![]) =~= seq![]);
            lemma_publish_variants(variants, 0, seq![], e1, e1);
            let e2 = publish_variants_from(variants, 0, seq![], e1)->Ok_0.1;
            lemma_between_chain(env, e1, e2);
        },
        _ => {},
    }
}

proof fn lemma_publish_items(items: Seq<ItemV>, i: int, acc: Seq<ItemV>, env: EnvV, start: EnvV)
    requires
        0 <= i,
        forall|k: int| 0 <= k < items.len() ==> unnumbered(#[trigger] items[k]),
        later(start, env),
        items_public(acc) == between(start, env),
        forall|k: int| 0 <= k < acc.len() ==> ready(#[trigger] acc[k]),
        publish_items_from(items, i, acc, env) is Ok,
    ensures
        ({
            let (its, e) = publish_items_from(items, i, acc, env)->Ok_0;
            &&& later(env, e)
            &&& items_public(its) == between(start, e)
            &&& forall|k: int| 0 <= k < its.len() ==> ready(#[trigger] its[k])
        }),
    decreases items.len() - i,
{
    if i < items.len() {
        lemma_publish_item(items[i], env);
        let (it, e) = publish_item(items[i], env)->Ok_0;
        lemma_items_push(acc, it);
        lemma_between_chain(start, env, e);
        lemma_publish_items(items, i + 1, acc.push(it), e, start);
    }
}

proof fn lemma_publish_modules(
    ms: Seq<ModuleV>,
    i: int,
    acc: Seq<ModuleV>,
    env: EnvV,
    start: EnvV,
)
    requires
        0 <= i,
        freshly_parsed(ms),
        later(start, env),
        modules_public(acc) == between(start, env),
        all_ready(acc),
        publish_modules_from(ms, i, acc, env) is Ok,
    ensures
        ({
            let (ns, e) = publish_modules_from(ms, i, acc, env)->Ok_0;
            later(env, e) && modules_public(ns) == between(start, e) && all_ready(ns)
        }),
    decreases ms.len() - i,
{
    if i < ms.len() {
        let items = ms[i].file.items;
        lemma_numbered_one(env.ctx.next_sym_id as int);
        assert forall|k: int| 0 <= k < items.len() implies unnumbered(#[trigger] items[k]) by {
            assert(unnumbered(ms[i].file.items[k]));
        }
        lemma_publish_items(items, 0, seq![], env, env);
        let (its, e) = publish_items_from(items, 0, seq![], env)->Ok_0;
        let m = ModuleV { path: ms[i].path, file: FileV { items: its } };
        lemma_modules_push(acc, m);
        lemma_between_chain(start, env, e);
        assert forall|a: int, b: int|
            0 <= a < acc.push(m).len() && 0 <= b < acc.push(m)[a].file.items.len() implies ready(
            #[trigger] acc.push(m)[a].file.items[b],
        ) by {
            if a < acc.len() {
                assert(ready(acc[a].file.items[b]));
            }
        }
        lemma_publish_modules(ms, i + 1, acc.push(m), e, start);
    }
}

/// The identifiers of a program are the numbers from zero on, each handed out once: first those of
/// the top-level items and enum variants, then those of fields, member functions, parameters,
/// variables and loops. Imports and components have none.
pub proof fn identifiers_are_numbered(ms: Seq<ModuleV>)
    requires
        freshly_parsed(ms),
        program_context(ms) is Ok,
    ensures
        ({
            let (rs, ctx) = program_context(ms)->Ok_0;
            let ids = modules_public(rs) + modules_inner(rs);
            &&& ids == numbered(0, ctx.next_sym_id as int)
            &&& forall|i: int| 0 <= i < ids.len() ==> (#[trigger] ids[i]) is Some && ids[i]->Some_0 >= 0
            &&& ids.no_duplicates()
            &&& all_stay_unnumbered(rs)
        }),
{
    let e0 = empty_env();
    lemma_numbered_one(0);
    lemma_publish_modules(ms, 0, seq![], e0, e0);
    let (ps, e1) = publish_modules_from(ms, 0, seq![], e0)->Ok_0;
    lemma_numbered_one(e1.ctx.next_sym_id as int);
    assert(ps.take(0) =~= seq![]);
    lemma_modules_ids(ps, 0, seq![], e1, e1);
    let (rs, e2) = resolve_modules_from(ps, 0, seq![], e1)->Ok_0;
    lemma_between_chain(e0, e1, e2);
}

} // verus!
