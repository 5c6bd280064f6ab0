//! What becomes of the declarations of a program.

use vstd::prelude::*;
use crate::ast::helpers::member_func;
use crate::ast::{EnumVariantV, ExprV, FieldV, FuncV, ItemV, MemberV};
use crate::checker::symbolic::context::{
    lookup, ContextV, MemberIndex, MembersV, MemoryEventKind,
};
use crate::checker::symbolic::init::{
    define_func, define_members_from, empty_env, enum_value, program_context, publish_item,
    publish_items_from, publish_modules_from, publish_variants_from, register_members_from,
    resolve_fields_from, resolve_item, resolve_items_from, resolve_modules_from, resolve_variant,
    resolve_variants_from, signature_of, with_enum_width, with_func,
};
use crate::checker::symbolic::resolve::{resolved, resolved_type, EnvV};
use crate::checker::symbolic::resolve_laws::{
    bare, bare_stmts, bare_type, resolved_expressions_are_the_same,
    resolved_functions_are_the_same, resolved_types_are_the_same, same_param,
};
use crate::name_map::{lemma_set_pair, map_of, set_pair};
use crate::text::lower;
use crate::utils::module_resolver::ModuleV;

verus! {

/// Two functions are the same but for their references.
pub open spec fn same_func(a: FuncV, b: FuncV) -> bool {
    &&& a.name == b.name
    &&& a.params.len() == b.params.len()
    &&& forall|k: int| 0 <= k < a.params.len() ==> same_param(#[trigger] a.params[k], b.params[k])
    &&& bare_stmts(a.body) == bare_stmts(b.body)
    &&& a.ret is Some <==> b.ret is Some
    &&& a.ret is Some ==> bare_type(a.ret->0) == bare_type(b.ret->0)
}

/// Two members are of the same kind and the same but for their references.
pub open spec fn same_member(a: MemberV, b: MemberV) -> bool {
    match (a, b) {
        (MemberV::Computation(f), MemberV::Computation(g)) => same_func(f, g),
        (MemberV::Constraint(f), MemberV::Constraint(g)) => same_func(f, g),
        _ => false,
    }
}

/// Two variants are the same but for their references.
pub open spec fn same_variant(a: EnumVariantV, b: EnumVariantV) -> bool {
    &&& a.name == b.name
    &&& a.value is Some <==> b.value is Some
    &&& a.value is Some ==> bare(a.value->0) == bare(b.value->0)
}

/// Two fields are the same but for their references.
pub open spec fn same_field(a: FieldV, b: FieldV) -> bool {
    a.name == b.name && a.io == b.io && bare_type(a.ty) == bare_type(b.ty)
}

/// Two items are the same but for their references.
pub open spec fn same_item(a: ItemV, b: ItemV) -> bool {
    match (a, b) {
        (ItemV::Import { path: p, .. }, ItemV::Import { path: q, .. }) => p == q,
        (
            ItemV::Enum { name: m, variants: u, .. },
            ItemV::Enum { name: n, variants: v, .. },
        ) => m == n && u.len() == v.len() && forall|k: int|
            0 <= k < u.len() ==> same_variant(#[trigger] u[k], v[k]),
        (
            ItemV::Const { ty: s, name: m, value: x, .. },
            ItemV::Const { ty: t, name: n, value: y, .. },
        ) => m == n && bare_type(s) == bare_type(t) && bare(x) == bare(y),
        (
            ItemV::Struct { name: m, fields: u, .. },
            ItemV::Struct { name: n, fields: v, .. },
        ) => m == n && u.len() == v.len() && forall|k: int|
            0 <= k < u.len() ==> same_field(#[trigger] u[k], v[k]),
        (
            ItemV::Component { name: m, members: u, query: p, .. },
            ItemV::Component { name: n, members: v, query: q, .. },
        ) => m == n && p == q && u.len() == v.len() && forall|k: int|
            0 <= k < u.len() ==> same_member(#[trigger] u[k], v[k]),
        (ItemV::Function { func: f, .. }, ItemV::Function { func: g, .. }) => same_func(f, g),
        _ => false,
    }
}

proof fn lemma_publish_variants(
    vs: Seq<EnumVariantV>,
    i: int,
    acc: Seq<EnumVariantV>,
    env: EnvV,
)
    requires
        0 <= i <= vs.len(),
        acc.len() == i,
        forall|k: int| 0 <= k < i ==> same_variant(#[trigger] acc[k], vs[k]),
        publish_variants_from(vs, i, acc, env) is Ok,
    ensures
        ({
            let out = publish_variants_from(vs, i, acc, env)->Ok_0.0;
            &&& out.len() == vs.len()
            &&& forall|k: int| 0 <= k < vs.len() ==> same_variant(#[trigger] out[k], vs[k])
        }),
    decreases vs.len() - i,
{
    if i < vs.len() {
        let id = Some(env.ctx.next_sym_id as i64);
        lemma_publish_variants(
            vs,
            i + 1,
            acc.push(EnumVariantV { id, ..vs[i] }),
            crate::checker::symbolic::init::publish_name(env, vs[i].name),
        );
    }
}

proof fn lemma_publish_item(item: ItemV, env: EnvV)
    requires
        publish_item(item, env) is Ok,
    ensures
        same_item(publish_item(item, env)->Ok_0.0, item),
        item is Component || item is Import ==> publish_item(item, env)->Ok_0.0 == item,
{
    if let ItemV::Enum { name, variants, .. } = item {
        let nid = env.ctx.next_sym_id as i64;
        let e = crate::checker::symbolic::init::publish_name(env, name);
        let e1 = EnvV {
            ctx: ContextV {
                enum_index: e.ctx.enum_index.insert(name, nid),
                enum_names: e.ctx.enum_names.insert(nid, name),
                ..e.ctx
            },
            ..e
        };
        lemma_publish_variants(variants, 0, seq![], e1);
    }
}

proof fn lemma_publish_items(items: Seq<ItemV>, i: int, acc: Seq<ItemV>, env: EnvV)
    requires
        0 <= i <= items.len(),
        acc.len() == i,
        forall|k: int| 0 <= k < i ==> same_item(#[trigger] acc[k], items[k]),
        publish_items_from(items, i, acc, env) is Ok,
    ensures
        ({
            let out = publish_items_from(items, i, acc, env)->Ok_0.0;
            &&& out.len() == items.len()
            &&& forall|k: int| 0 <= k < items.len() ==> same_item(#[trigger] out[k], items[k])
        }),
    decreases items.len() - i,
{
    if i < items.len() {
        let (it, e) = publish_item(items[i], env)->Ok_0;
        lemma_publish_item(items[i], env);
        lemma_publish_items(items, i + 1, acc.push(it), e);
    }
}

/// Two modules are the same but for their references.
pub open spec fn same_module(a: ModuleV, b: ModuleV) -> bool {
    &&& a.path == b.path
    &&& a.file.items.len() == b.file.items.len()
    &&& forall|k: int|
        0 <= k < a.file.items.len() ==> same_item(#[trigger] a.file.items[k], b.file.items[k])
}

proof fn lemma_publish_modules(ms: Seq<ModuleV>, i: int, acc: Seq<ModuleV>, env: EnvV)
    requires
        0 <= i <= ms.len(),
        acc.len() == i,
        forall|k: int| 0 <= k < i ==> same_module(#[trigger] acc[k], ms[k]),
        publish_modules_from(ms, i, acc, env) is Ok,
    ensures
        ({
            let out = publish_modules_from(ms, i, acc, env)->Ok_0.0;
            &&& out.len() == ms.len()
            &&& forall|k: int| 0 <= k < ms.len() ==> same_module(#[trigger] out[k], ms[k])
        }),
    decreases ms.len() - i,
{
    if i < ms.len() {
        lemma_publish_items(ms[i].file.items, 0, seq![], env);
        let (items, e) = publish_items_from(ms[i].file.items, 0, seq![], env)->Ok_0;
        let m = ModuleV { path: ms[i].path, file: crate::ast::FileV { items } };
        lemma_publish_modules(ms, i + 1, acc.push(m), e);
    }
}

proof fn lemma_define(f: FuncV, env: EnvV)
    requires
        define_func(f, env) is Ok,
    ensures
        same_func(define_func(f, env)->Ok_0.0, f),
{
    let sig = signature_of(f, env);
    let c1 = ContextV { fn_sigs: env.ctx.fn_sigs.insert(f.id->0, sig), ..env.ctx };
    resolved_functions_are_the_same(f, EnvV { ctx: c1, ..env });
}

proof fn lemma_same_func(f: FuncV)
    ensures
        same_func(f, f),
{
    assert forall|k: int| 0 <= k < f.params.len() implies same_param(
        #[trigger] f.params[k],
        f.params[k],
    ) by {}
}

proof fn lemma_register(ms: Seq<MemberV>, i: int, acc: Seq<MemberV>, sid: i64, env: EnvV)
    requires
        0 <= i <= ms.len(),
        acc.len() == i,
        forall|k: int| 0 <= k < i ==> same_member(#[trigger] acc[k], ms[k]),
        register_members_from(ms, i, acc, sid, env) is Ok,
    ensures
        ({
            let out = register_members_from(ms, i, acc, sid, env)->Ok_0.0;
            &&& out.len() == ms.len()
            &&& forall|k: int| 0 <= k < ms.len() ==> same_member(#[trigger] out[k], ms[k])
        }),
    decreases ms.len() - i,
{
    if i < ms.len() {
        let f = member_func(ms[i]);
        let fid = if f.id is None {
            env.ctx.next_sym_id as i64
        } else {
            f.id->Some_0
        };
        let c0 = if f.id is None {
            env.ctx.after_fresh()
        } else {
            env.ctx
        };
        let c1 = c0.with_member(sid, f.name, MemberIndex::Method { func_id: fid });
        let m = with_func(ms[i], FuncV { id: Some(fid), ..f });
        lemma_same_func(f);
        assert(same_member(m, ms[i]));
        lemma_register(
            ms,
            i + 1,
            acc.push(m),
            sid,
            EnvV { ctx: ContextV { func_owner: c1.func_owner.insert(fid, sid), ..c1 }, ..env },
        );
    }
}

proof fn lemma_define_members(ms: Seq<MemberV>, i: int, acc: Seq<MemberV>, env: EnvV)
    requires
        0 <= i <= ms.len(),
        acc.len() == i,
        forall|k: int| 0 <= k < i ==> same_member(#[trigger] acc[k], ms[k]),
        define_members_from(ms, i, acc, env) is Ok,
    ensures
        ({
            let out = define_members_from(ms, i, acc, env)->Ok_0.0;
            &&& out.len() == ms.len()
            &&& forall|k: int| 0 <= k < ms.len() ==> same_member(#[trigger] out[k], ms[k])
        }),
    decreases ms.len() - i,
{
    if i < ms.len() {
        let (f, e) = define_func(member_func(ms[i]), env)->Ok_0;
        lemma_define(member_func(ms[i]), env);
        let m = with_func(ms[i], f);
        assert(same_member(m, ms[i]));
        lemma_define_members(ms, i + 1, acc.push(m), e);
    }
}

proof fn lemma_resolve_variants(
    vs: Seq<EnumVariantV>,
    i: int,
    acc: Seq<EnumVariantV>,
    eid: i64,
    name: Seq<char>,
    next: u64,
    env: EnvV,
)
    requires
        0 <= i <= vs.len(),
        acc.len() == i,
        forall|k: int| 0 <= k < i ==> same_variant(#[trigger] acc[k], vs[k]),
        resolve_variants_from(vs, i, acc, eid, name, next, env) is Ok,
    ensures
        ({
            let out = resolve_variants_from(vs, i, acc, eid, name, next, env)->Ok_0.0;
            &&& out.len() == vs.len()
            &&& forall|k: int| 0 <= k < vs.len() ==> same_variant(#[trigger] out[k], vs[k])
        }),
    decreases vs.len() - i,
{
    if i < vs.len() {
        let (v, n, e) = resolve_variant(vs[i], eid, name, next, env)->Ok_0;
        let e1 = if vs[i].id is None {
            crate::checker::symbolic::init::publish_name(env, vs[i].name)
        } else {
            env
        };
        if let Some(x) = vs[i].value {
            resolved_expressions_are_the_same(x, e1.scope, e1.ctx);
        }
        lemma_resolve_variants(vs, i + 1, acc.push(v), eid, name, n, e);
    }
}

proof fn lemma_resolve_fields(
    fs: Seq<FieldV>,
    i: int,
    acc: Seq<FieldV>,
    members: MembersV,
    env: EnvV,
)
    requires
        0 <= i <= fs.len(),
        acc.len() == i,
        forall|k: int| 0 <= k < i ==> same_field(#[trigger] acc[k], fs[k]),
        resolve_fields_from(fs, i, acc, members, env) is Ok,
    ensures
        ({
            let out = resolve_fields_from(fs, i, acc, members, env)->Ok_0.0;
            &&& out.len() == fs.len()
            &&& forall|k: int| 0 <= k < fs.len() ==> same_field(#[trigger] out[k], fs[k])
        }),
    decreases fs.len() - i,
{
    if i < fs.len() {
        let fid = env.ctx.next_sym_id as i64;
        let cx = env.ctx.after_fresh();
        let ty = resolved_type(fs[i].ty, env.scope, cx);
        lemma_resolve_fields(
            fs,
            i + 1,
            acc.push(FieldV { id: Some(fid), ..fs[i] }),
            set_pair(members, fs[i].name, MemberIndex::Field { field_id: fid }),
            EnvV { ctx: ContextV { field_types: cx.field_types.insert(fid, ty), ..cx }, ..env },
        );
    }
}

proof fn lemma_resolve_item(item: ItemV, env: EnvV)
    requires
        resolve_item(item, env) is Ok,
    ensures
        same_item(resolve_item(item, env)->Ok_0.0, item),
{
    match item {
        ItemV::Const { ty, value, .. } => {
            resolved_types_are_the_same(ty, env.scope, env.ctx);
            resolved_expressions_are_the_same(value, env.scope, env.ctx);
        },
        ItemV::Enum { id, name, variants } => {
            let eid = id->0;
            lemma_resolve_variants(
                variants,
                0,
                seq![],
                eid,
                name,
                0,
                EnvV { ctx: with_enum_width(env.ctx, eid), ..env },
            );
        },
        ItemV::Struct { fields, .. } => lemma_resolve_fields(fields, 0, seq![], seq![], env),
        ItemV::Component { name, members, .. } => {
            let sid = lookup(env.ctx.struct_index, name)->0;
            let e0 = EnvV { ctx: env.ctx.with_members(sid), ..env };
            lemma_register(members, 0, seq![], sid, e0);
            let (ms, e1) = register_members_from(members, 0, seq![], sid, e0)->Ok_0;
            lemma_define_members(ms, 0, seq![], e1);
            let ds = define_members_from(ms, 0, seq![], e1)->Ok_0.0;
            assert forall|k: int| 0 <= k < ds.len() implies same_member(
                #[trigger] ds[k],
                members[k],
            ) by {
                assert(same_member(ds[k], ms[k]));
                assert(same_member(ms[k], members[k]));
                lemma_member_chain(ds[k], ms[k], members[k]);
            }
        },
        ItemV::Function { id, func } => {
            lemma_define(FuncV { id, ..func }, env);
        },
        _ => {},
    }
}

proof fn lemma_func_chain(a: FuncV, b: FuncV, c: FuncV)
    requires
        same_func(a, b),
        same_func(b, c),
    ensures
        same_func(a, c),
{
    assert forall|k: int| 0 <= k < a.params.len() implies same_param(
        #[trigger] a.params[k],
        c.params[k],
    ) by {
        assert(same_param(b.params[k], c.params[k]));
    }
}

proof fn lemma_member_chain(a: MemberV, b: MemberV, c: MemberV)
    requires
        same_member(a, b),
        same_member(b, c),
    ensures
        same_member(a, c),
{
    match (a, b, c) {
        (MemberV::Computation(f), MemberV::Computation(g), MemberV::Computation(h)) => {
            lemma_func_chain(f, g, h);
        },
        (MemberV::Constraint(f), MemberV::Constraint(g), MemberV::Constraint(h)) => {
            lemma_func_chain(f, g, h);
        },
        _ => {},
    }
}

proof fn lemma_item_chain(a: ItemV, b: ItemV, c: ItemV)
    requires
        same_item(a, b),
        same_item(b, c),
    ensures
        same_item(a, c),
{
    match (a, b, c) {
        (
            ItemV::Enum { variants: u, .. },
            ItemV::Enum { variants: v, .. },
            ItemV::Enum { variants: w, .. },
        ) => {
            assert forall|k: int| 0 <= k < u.len() implies same_variant(#[trigger] u[k], w[k]) by {
                assert(same_variant(v[k], w[k]));
            }
        },
        (
            ItemV::Struct { fields: u, .. },
            ItemV::Struct { fields: v, .. },
            ItemV::Struct { fields: w, .. },
        ) => {
            assert forall|k: int| 0 <= k < u.len() implies same_field(#[trigger] u[k], w[k]) by {
                assert(same_field(v[k], w[k]));
            }
        },
        (
            ItemV::Component { members: u, .. },
            ItemV::Component { members: v, .. },
            ItemV::Component { members: w, .. },
        ) => {
            assert forall|k: int| 0 <= k < u.len() implies same_member(#[trigger] u[k], w[k]) by {
                assert(same_member(v[k], w[k]));
                lemma_member_chain(u[k], v[k], w[k]);
            }
        },
        (
            ItemV::Function { func: f, .. },
            ItemV::Function { func: g, .. },
            ItemV::Function { func: h, .. },
        ) => lemma_func_chain(f, g, h),
        _ => {},
    }
}

proof fn lemma_resolve_items(items: Seq<ItemV>, i: int, acc: Seq<ItemV>, env: EnvV)
    requires
        0 <= i <= items.len(),
        acc.len() == i,
        forall|k: int| 0 <= k < i ==> same_item(#[trigger] acc[k], items[k]),
        resolve_items_from(items, i, acc, env) is Ok,
    ensures
        ({
            let out = resolve_items_from(items, i, acc, env)->Ok_0.0;
            &&& out.len() == items.len()
            &&& forall|k: int| 0 <= k < items.len() ==> same_item(#[trigger] out[k], items[k])
        }),
    decreases items.len() - i,
{
    if i < items.len() {
        let (it, e) = resolve_item(items[i], env)->Ok_0;
        lemma_resolve_item(items[i], env);
        lemma_resolve_items(items, i + 1, acc.push(it), e);
    }
}

proof fn lemma_resolve_modules(ms: Seq<ModuleV>, i: int, acc: Seq<ModuleV>, env: EnvV)
    requires
        0 <= i <= ms.len(),
        acc.len() == i,
        forall|k: int| 0 <= k < i ==> same_module(#[trigger] acc[k], ms[k]),
        resolve_modules_from(ms, i, acc, env) is Ok,
    ensures
        ({
            let out = resolve_modules_from(ms, i, acc, env)->Ok_0.0;
            &&& out.len() == ms.len()
            &&& forall|k: int| 0 <= k < ms.len() ==> same_module(#[trigger] out[k], ms[k])
        }),
    decreases ms.len() - i,
{
    if i < ms.len() {
        let e0 = EnvV { scope: env.scope.pushed(), ..env };
        lemma_resolve_items(ms[i].file.items, 0, seq![], e0);
        let (items, e) = resolve_items_from(ms[i].file.items, 0, seq![], e0)->Ok_0;
        let m = ModuleV { path: ms[i].path, file: crate::ast::FileV { items } };
        lemma_resolve_modules(ms, i + 1, acc.push(m), EnvV { scope: e.scope.popped(), ..e });
    }
}

/// The context of a program is made from all its modules, and the modules that come with it are
/// those of the program, item by item and statement by statement, but for the references.
pub proof fn programs_stay_the_same(ms: Seq<ModuleV>, i: int)
    requires
        program_context(ms) is Ok,
    ensures
        program_context(ms)->Ok_0.0.len() == ms.len(),
        0 <= i < ms.len() ==> same_module(program_context(ms)->Ok_0.0[i], ms[i]),
{
    lemma_publish_modules(ms, 0, seq![], empty_env());
    let (ps, e1) = publish_modules_from(ms, 0, seq![], empty_env())->Ok_0;
    lemma_resolve_modules(ps, 0, seq![], e1);
    let rs = program_context(ms)->Ok_0.0;
    if 0 <= i < ms.len() {
        assert(same_module(rs[i], ps[i]));
        assert(same_module(ps[i], ms[i]));
        assert forall|k: int| 0 <= k < rs[i].file.items.len() implies same_item(
            #[trigger] rs[i].file.items[k],
            ms[i].file.items[k],
        ) by {
            assert(same_item(ps[i].file.items[k], ms[i].file.items[k]));
            lemma_item_chain(rs[i].file.items[k], ps[i].file.items[k], ms[i].file.items[k]);
        }
    }
}

/// A program knows the memory chips that send and receive, by these names in any capitalization.
pub proof fn programs_can_send_and_receive(ms: Seq<ModuleV>, name: Seq<char>)
    requires
        program_context(ms) is Ok,
    ensures
        ({
            let chips = program_context(ms)->Ok_0.1.memory_chips;
            &&& lower(name) == lower("Send"@) || lower(name) == lower("SendInstruction"@)
                ==> chips.contains_key(lower(name)) && chips[lower(name)].kind
                == MemoryEventKind::Send
            &&& lower(name) == lower("Receive"@) || lower(name) == lower("ReceiveInstruction"@)
                ==> chips.contains_key(lower(name)) && chips[lower(name)].kind
                == MemoryEventKind::Receive
        }),
{
    reveal_strlit("Send");
    reveal_strlit("Receive");
    reveal_strlit("SendInstruction");
    reveal_strlit("ReceiveInstruction");
    assert(lower("Send"@).len() == 4);
    assert(lower("Receive"@).len() == 7);
    assert(lower("SendInstruction"@).len() == 15);
    assert(lower("ReceiveInstruction"@).len() == 18);
}

/// A resolved initializer denotes a number: a literal, or a constant that it refers to.
pub open spec fn denotes_value(e: ExprV, consts: Map<i64, u64>, k: u64) -> bool
    decreases e,
{
    match e {
        ExprV::Int(x) => k == x,
        ExprV::Paren(inner) => denotes_value(*inner, consts, k),
        ExprV::Path { ref_id: Some(cid), .. } => consts.contains_key(cid) && consts[cid] == k,
        _ => false,
    }
}

proof fn lemma_enum_value(e: ExprV, ctx: ContextV)
    requires
        enum_value(e, ctx) is Ok,
    ensures
        denotes_value(e, ctx.const_ints, enum_value(e, ctx)->Ok_0),
    decreases e,
{
    if let ExprV::Paren(inner) = e {
        lemma_enum_value(*inner, ctx);
    }
}

/// A variant is recorded as a constant with its value: that of its initializer, or else one more
/// than the value before it, as far as that can be represented, and zero for the first.
pub proof fn variants_count_up(
    v: EnumVariantV,
    enum_id: i64,
    enum_name: Seq<char>,
    first: bool,
    before: u64,
    next: u64,
    env: EnvV,
)
    requires
        resolve_variant(v, enum_id, enum_name, next, env) is Ok,
        first ==> next == 0,
        !first ==> next == before + 1 || (before == u64::MAX && next == before),
    ensures
        ({
            let (r, after, e) = resolve_variant(v, enum_id, enum_name, next, env)->Ok_0;
            let k = e.ctx.const_ints[r.id->0];
            &&& r.id is Some
            &&& e.ctx.const_ints.contains_key(r.id->0)
            &&& after == k + 1 || (k == u64::MAX && after == k)
            &&& v.value is None && first ==> k == 0
            &&& v.value is None && !first ==> k == before + 1 || (before == u64::MAX && k == before)
            &&& v.value is Some ==> r.value is Some && denotes_value(
                r.value->0,
                env.ctx.const_ints,
                k,
            )
        }),
{
    let e1 = if v.id is None {
        crate::checker::symbolic::init::publish_name(env, v.name)
    } else {
        env
    };
    if let Some(x) = v.value {
        let r = resolved(x, e1.scope, e1.ctx);
        lemma_enum_value(r, e1.ctx);
        assert(e1.ctx.const_ints == env.ctx.const_ints);
    }
}

proof fn lemma_field_table(
    fs: Seq<FieldV>,
    i: int,
    acc: Seq<FieldV>,
    members: MembersV,
    env: EnvV,
    k: int,
)
    requires
        0 <= i <= fs.len(),
        acc.len() == i,
        i <= k < fs.len(),
        resolve_fields_from(fs, i, acc, members, env) is Ok,
        forall|j: int| k < j < fs.len() ==> (#[trigger] fs[j]).name != fs[k].name,
    ensures
        ({
            let (out, table, e) = resolve_fields_from(fs, i, acc, members, env)->Ok_0;
            &&& out.len() == fs.len()
            &&& acc.is_prefix_of(out)
            &&& out[k].id is Some
            &&& out[k].id->0 == env.ctx.next_sym_id + (k - i)
            &&& map_of(table).contains_key(fs[k].name)
            &&& map_of(table)[fs[k].name] == (MemberIndex::Field { field_id: out[k].id->0 })
            &&& e.ctx.field_types.contains_key(out[k].id->0)
            &&& bare_type(e.ctx.field_types[out[k].id->0]) == bare_type(fs[k].ty)
        }),
    decreases fs.len() - i,
{
    let fid = env.ctx.next_sym_id as i64;
    let cx = env.ctx.after_fresh();
    let ty = resolved_type(fs[i].ty, env.scope, cx);
    let f = FieldV { id: Some(fid), ..fs[i] };
    let table = set_pair(members, fs[i].name, MemberIndex::Field { field_id: fid });
    lemma_set_pair(members, fs[i].name, MemberIndex::Field { field_id: fid });
    let next = EnvV {
        ctx: ContextV { field_types: cx.field_types.insert(fid, ty), ..cx },
        ..env
    };
    let (out, end, e) = resolve_fields_from(fs, i, acc, members, env)->Ok_0;
    if k > i {
        lemma_field_table(fs, i + 1, acc.push(f), table, next, k);
        assert(acc =~= out.take(i)) by {
            assert(acc.push(f) =~= out.take(i + 1));
            assert(acc.push(f).take(i) =~= acc);
        }
    } else {
        lemma_table_kept(fs, i + 1, acc.push(f), table, next, fs[i].name, fid);
        resolved_types_are_the_same(fs[i].ty, env.scope, cx);
        assert(acc =~= out.take(i)) by {
            assert(acc.push(f) =~= out.take(i + 1));
            assert(acc.push(f).take(i) =~= acc);
        }
        assert(out[i] == f) by {
            assert(acc.push(f) =~= out.take(i + 1));
            assert(out.take(i + 1)[i] == out[i]);
        }
    }
}

proof fn lemma_table_kept(
    fs: Seq<FieldV>,
    i: int,
    acc: Seq<FieldV>,
    members: MembersV,
    env: EnvV,
    name: Seq<char>,
    id: i64,
)
    requires
        0 <= i <= fs.len(),
        acc.len() == i,
        resolve_fields_from(fs, i, acc, members, env) is Ok,
        forall|j: int| i <= j < fs.len() ==> (#[trigger] fs[j]).name != name,
        map_of(members).contains_key(name),
        env.ctx.field_types.contains_key(id),
        id < env.ctx.next_sym_id,
    ensures
        ({
            let (out, table, e) = resolve_fields_from(fs, i, acc, members, env)->Ok_0;
            &&& out.len() == fs.len()
            &&& acc.is_prefix_of(out)
            &&& map_of(table).contains_key(name)
            &&& map_of(table)[name] == map_of(members)[name]
            &&& e.ctx.field_types.contains_key(id)
            &&& e.ctx.field_types[id] == env.ctx.field_types[id]
        }),
    decreases fs.len() - i,
{
    let (out, end, e) = resolve_fields_from(fs, i, acc, members, env)->Ok_0;
    if i < fs.len() {
        let fid = env.ctx.next_sym_id as i64;
        let cx = env.ctx.after_fresh();
        let ty = resolved_type(fs[i].ty, env.scope, cx);
        let f = FieldV { id: Some(fid), ..fs[i] };
        lemma_set_pair(members, fs[i].name, MemberIndex::Field { field_id: fid });
        assert(fs[i].name != name);
        lemma_table_kept(
            fs,
            i + 1,
            acc.push(f),
            set_pair(members, fs[i].name, MemberIndex::Field { field_id: fid }),
            EnvV { ctx: ContextV { field_types: cx.field_types.insert(fid, ty), ..cx }, ..env },
            name,
            id,
        );
        assert(acc =~= out.take(i)) by {
            assert(acc.push(f) =~= out.take(i + 1));
            assert(acc.push(f).take(i) =~= acc);
        }
    } else {
        assert(acc =~= acc.take(i));
    }
}

/// The fields of a struct are found by their names, each under an identifier of its own and with
/// its declared type; of two fields of a name the last counts.
pub proof fn fields_are_found_by_name(
    id: Option<i64>,
    name: Seq<char>,
    fields: Seq<FieldV>,
    env: EnvV,
    k: int,
)
    requires
        resolve_item(ItemV::Struct { id, name, fields }, env) is Ok,
        0 <= k < fields.len(),
        forall|j: int| k < j < fields.len() ==> (#[trigger] fields[j]).name != fields[k].name,
    ensures
        ({
            let (item, e) = resolve_item(ItemV::Struct { id, name, fields }, env)->Ok_0;
            let fid = item->Struct_fields[k].id;
            &&& id is Some
            &&& fid is Some
            &&& fid->0 == env.ctx.next_sym_id + k
            &&& e.ctx.field(id->0, fields[k].name) == fid
            &&& e.ctx.field_types.contains_key(fid->0)
            &&& bare_type(e.ctx.field_types[fid->0]) == bare_type(fields[k].ty)
        }),
{
    lemma_field_table(fields, 0, seq![], seq![], env, k);
}

} // verus!
