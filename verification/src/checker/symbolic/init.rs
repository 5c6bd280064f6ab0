//! Building the context of a program.

use vstd::prelude::*;
use vstd::string::*;
use crate::ast::{
    fields_of, items_of, members_of, params_of, types_of, variants_of, EnumVariant, EnumVariantV,
    Expr, ExprV, Field, FieldV, File, FileV, Func, FuncV, Item, ItemV, Member, MemberV, Param,
    ParamV, Type, TypeV,
};
use crate::ast::helpers::member_func;
use crate::checker::symbolic::context::{
    empty_context, lookup, Context, ContextV, FnSig, FnSigV, MemberIndex, MembersV,
    DEFAULT_ENUM_WIDTH,
};
use crate::checker::symbolic::resolve::{
    resolve_expr_ids_flat, resolve_func_flat, resolve_opt_type, resolve_type_ids_flat, resolved,
    resolved_func, resolved_opt_type, resolved_type, EnvV, InitError,
};
use crate::checker::symbolic::scope::{Scope, ScopeV};
use crate::name_map::{set_pair, NameMap};
use crate::text::texts;
use crate::utils::module_resolver::{modules_of, Module, ModuleV};
use crate::view::some_view;

verus! {

broadcast use crate::ast::lists::group_lists;

/// The environment after a global name has been given a fresh identifier.
pub open spec fn publish_name(env: EnvV, name: Seq<char>) -> EnvV {
    EnvV {
        ctx: env.ctx.after_fresh(),
        scope: env.scope.with_global(name, env.ctx.next_sym_id as i64),
    }
}

/// The variants from `i` on with identifiers, behind `acc`.
pub open spec fn publish_variants_from(
    vs: Seq<EnumVariantV>,
    i: int,
    acc: Seq<EnumVariantV>,
    env: EnvV,
) -> Result<(Seq<EnumVariantV>, EnvV), InitError>
    decreases vs.len() - i,
{
    if i < 0 || i >= vs.len() {
        Ok((acc, env))
    } else if !env.ctx.has_fresh() {
        Err(InitError::TooManySymbols)
    } else {
        let id = Some(env.ctx.next_sym_id as i64);
        publish_variants_from(
            vs,
            i + 1,
            acc.push(EnumVariantV { id, ..vs[i] }),
            publish_name(env, vs[i].name),
        )
    }
}

/// A top-level item made visible everywhere.
pub open spec fn publish_item(item: ItemV, env: EnvV) -> Result<(ItemV, EnvV), InitError> {
    let id = Some(env.ctx.next_sym_id as i64);
    let nid = env.ctx.next_sym_id as i64;
    match item {
        ItemV::Import { .. } => Ok((item, env)),
        ItemV::Component { .. } => Ok((item, env)),
        _ => if !env.ctx.has_fresh() {
            Err(InitError::TooManySymbols)
        } else {
            match item {
                ItemV::Const { ty, name, value, .. } => Ok(
                    (ItemV::Const { id, ty, name, value }, publish_name(env, name)),
                ),
                ItemV::Enum { name, variants, .. } => {
                    let e = publish_name(env, name);
                    let e1 = EnvV {
                        ctx: ContextV {
                            enum_index: e.ctx.enum_index.insert(name, nid),
                            enum_names: e.ctx.enum_names.insert(nid, name),
                            ..e.ctx
                        },
                        ..e
                    };
                    match publish_variants_from(variants, 0, seq![], e1) {
                        Ok((vs, e2)) => Ok((ItemV::Enum { id, name, variants: vs }, e2)),
                        Err(x) => Err(x),
                    }
                },
                ItemV::Struct { name, fields, .. } => {
                    let e = publish_name(env, name);
                    Ok(
                        (
                            ItemV::Struct { id, name, fields },
                            EnvV {
                                ctx: ContextV {
                                    struct_index: e.ctx.struct_index.insert(name, nid),
                                    struct_names: e.ctx.struct_names.insert(nid, name),
                                    ..e.ctx
                                },
                                ..e
                            },
                        ),
                    )
                },
                ItemV::Function { func, .. } => Ok(
                    (ItemV::Function { id, func }, publish_name(env, func.name)),
                ),
                _ => Ok((item, env)),
            }
        },
    }
}

/// The items from `i` on made visible, behind `acc`.
pub open spec fn publish_items_from(
    items: Seq<ItemV>,
    i: int,
    acc: Seq<ItemV>,
    env: EnvV,
) -> Result<(Seq<ItemV>, EnvV), InitError>
    decreases items.len() - i,
{
    if i < 0 || i >= items.len() {
        Ok((acc, env))
    } else {
        match publish_item(items[i], env) {
            Ok((it, e)) => publish_items_from(items, i + 1, acc.push(it), e),
            Err(x) => Err(x),
        }
    }
}

/// The modules from `i` on with their items made visible, behind `acc`.
pub open spec fn publish_modules_from(
    ms: Seq<ModuleV>,
    i: int,
    acc: Seq<ModuleV>,
    env: EnvV,
) -> Result<(Seq<ModuleV>, EnvV), InitError>
    decreases ms.len() - i,
{
    if i < 0 || i >= ms.len() {
        Ok((acc, env))
    } else {
        match publish_items_from(ms[i].file.items, 0, seq![], env) {
            Ok((items, e)) => publish_modules_from(
                ms,
                i + 1,
                acc.push(ModuleV { path: ms[i].path, file: FileV { items } }),
                e,
            ),
            Err(x) => Err(x),
        }
    }
}

/// The value of an enum variant's initializer.
pub open spec fn enum_value(e: ExprV, ctx: ContextV) -> Result<u64, InitError>
    decreases e,
{
    match e {
        ExprV::Int(k) => Ok(k),
        ExprV::Paren(inner) => enum_value(*inner, ctx),
        ExprV::Path { ref_id: Some(cid), .. } => match lookup(ctx.const_ints, cid) {
            Some(k) => Ok(k),
            None => Err(InitError::EnumValueNotConstant),
        },
        _ => Err(InitError::EnumValueUnsupported),
    }
}

/// The value that a variant without an initializer would have behind value `v`.
pub open spec fn next_enum_value(v: u64) -> u64 {
    if v == u64::MAX {
        v
    } else {
        (v + 1) as u64
    }
}

/// A variant with its value recorded; `next` is the value it has by default.
pub open spec fn resolve_variant(
    v: EnumVariantV,
    enum_id: i64,
    enum_name: Seq<char>,
    next: u64,
    env: EnvV,
) -> Result<(EnumVariantV, u64, EnvV), InitError> {
    if v.id is None && !env.ctx.has_fresh() {
        Err(InitError::TooManySymbols)
    } else {
        let e1 = if v.id is None {
            publish_name(env, v.name)
        } else {
            env
        };
        let vid = if v.id is None {
            env.ctx.next_sym_id as i64
        } else {
            v.id->Some_0
        };
        let init = match v.value {
            Some(e) => Some(resolved(e, e1.scope, e1.ctx)),
            None => None,
        };
        let value = match init {
            Some(e) => enum_value(e, e1.ctx),
            None => Ok(next),
        };
        match value {
            Err(x) => Err(x),
            Ok(k) => Ok(
                (
                    EnumVariantV { id: Some(vid), name: v.name, value: init },
                    next_enum_value(k),
                    EnvV {
                        ctx: ContextV {
                            const_types: e1.ctx.const_types.insert(
                                vid,
                                TypeV::Path { segments: seq![enum_name], ref_id: Some(enum_id) },
                            ),
                            const_ints: e1.ctx.const_ints.insert(vid, k),
                            ..e1.ctx
                        },
                        ..e1
                    },
                ),
            ),
        }
    }
}

/// The variants from `i` on with their values recorded, behind `acc`.
pub open spec fn resolve_variants_from(
    vs: Seq<EnumVariantV>,
    i: int,
    acc: Seq<EnumVariantV>,
    enum_id: i64,
    enum_name: Seq<char>,
    next: u64,
    env: EnvV,
) -> Result<(Seq<EnumVariantV>, EnvV), InitError>
    decreases vs.len() - i,
{
    if i < 0 || i >= vs.len() {
        Ok((acc, env))
    } else {
        match resolve_variant(vs[i], enum_id, enum_name, next, env) {
            Ok((v, n, e)) => resolve_variants_from(
                vs,
                i + 1,
                acc.push(v),
                enum_id,
                enum_name,
                n,
                e,
            ),
            Err(x) => Err(x),
        }
    }
}

/// The fields from `i` on with identifiers, behind `acc`; `members` collects the table.
pub open spec fn resolve_fields_from(
    fs: Seq<FieldV>,
    i: int,
    acc: Seq<FieldV>,
    members: MembersV,
    env: EnvV,
) -> Result<(Seq<FieldV>, MembersV, EnvV), InitError>
    decreases fs.len() - i,
{
    if i < 0 || i >= fs.len() {
        Ok((acc, members, env))
    } else if !env.ctx.has_fresh() {
        Err(InitError::TooManySymbols)
    } else {
        let fid = env.ctx.next_sym_id as i64;
        let cx = env.ctx.after_fresh();
        let ty = resolved_type(fs[i].ty, env.scope, cx);
        resolve_fields_from(
            fs,
            i + 1,
            acc.push(FieldV { id: Some(fid), ..fs[i] }),
            set_pair(members, fs[i].name, MemberIndex::Field { field_id: fid }),
            EnvV { ctx: ContextV { field_types: cx.field_types.insert(fid, ty), ..cx }, ..env },
        )
    }
}

/// A member with its function replaced.
pub open spec fn with_func(m: MemberV, f: FuncV) -> MemberV {
    match m {
        MemberV::Computation(_) => MemberV::Computation(f),
        MemberV::Constraint(_) => MemberV::Constraint(f),
    }
}

/// The members from `i` on registered as methods of struct `sid`, behind `acc`.
pub open spec fn register_members_from(
    ms: Seq<MemberV>,
    i: int,
    acc: Seq<MemberV>,
    sid: i64,
    env: EnvV,
) -> Result<(Seq<MemberV>, EnvV), InitError>
    decreases ms.len() - i,
{
    if i < 0 || i >= ms.len() {
        Ok((acc, env))
    } else {
        let f = member_func(ms[i]);
        if f.id is None && !env.ctx.has_fresh() {
            Err(InitError::TooManySymbols)
        } else {
            let fid = if f.id is None {
                env.ctx.next_sym_id as i64
            } else {
                f.id->Some_0
            };
            let c0 = if f.id is None {
                env.ctx.after_fresh()
            } else {
                env.ctx
            };
            let c1 = c0.with_member(sid, f.name, MemberIndex::Method { func_id: fid });
            register_members_from(
                ms,
                i + 1,
                acc.push(with_func(ms[i], FuncV { id: Some(fid), ..f })),
                sid,
                EnvV {
                    ctx: ContextV { func_owner: c1.func_owner.insert(fid, sid), ..c1 },
                    ..env
                },
            )
        }
    }
}

/// The resolved types of the typed parameters from `i` on, behind `acc`.
pub open spec fn param_types_from(ps: Seq<ParamV>, i: int, acc: Seq<TypeV>, env: EnvV) -> Seq<TypeV>
    decreases ps.len() - i,
{
    if i < 0 || i >= ps.len() {
        acc
    } else {
        param_types_from(
            ps,
            i + 1,
            match ps[i] {
                ParamV::Typed { ty, .. } => acc.push(resolved_type(ty, env.scope, env.ctx)),
                _ => acc,
            },
            env,
        )
    }
}

/// The resolved signature of a function.
pub open spec fn signature_of(f: FuncV, env: EnvV) -> FnSigV {
    FnSigV {
        params: param_types_from(f.params, 0, seq![], env),
        ret: resolved_opt_type(f.ret, env.scope, env.ctx),
    }
}

/// A function with its signature recorded, its names resolved and its definition stored.
pub open spec fn define_func(f: FuncV, env: EnvV) -> Result<(FuncV, EnvV), InitError> {
    match f.id {
        None => Err(InitError::MissingId),
        Some(fid) => {
            let sig = signature_of(f, env);
            let c1 = ContextV { fn_sigs: env.ctx.fn_sigs.insert(fid, sig), ..env.ctx };
            match resolved_func(f, EnvV { ctx: c1, ..env }) {
                Err(x) => Err(x),
                Ok((g, e)) => Ok(
                    (
                        g,
                        EnvV {
                            ctx: ContextV { funcs: e.ctx.funcs.insert(fid, g), ..e.ctx },
                            ..e
                        },
                    ),
                ),
            }
        },
    }
}

/// The members from `i` on with their functions defined, behind `acc`.
pub open spec fn define_members_from(ms: Seq<MemberV>, i: int, acc: Seq<MemberV>, env: EnvV) -> Result<
    (Seq<MemberV>, EnvV),
    InitError,
>
    decreases ms.len() - i,
{
    if i < 0 || i >= ms.len() {
        Ok((acc, env))
    } else {
        match define_func(member_func(ms[i]), env) {
            Ok((f, e)) => define_members_from(ms, i + 1, acc.push(with_func(ms[i], f)), e),
            Err(x) => Err(x),
        }
    }
}

/// The context in which an enum has a width.
pub open spec fn with_enum_width(ctx: ContextV, id: i64) -> ContextV {
    if ctx.enum_widths.contains_key(id) {
        ctx
    } else {
        ContextV { enum_widths: ctx.enum_widths.insert(id, DEFAULT_ENUM_WIDTH), ..ctx }
    }
}

/// A constant with its names resolved and its value recorded.
pub open spec fn resolve_const(
    id: Option<i64>,
    ty: TypeV,
    name: Seq<char>,
    value: ExprV,
    env: EnvV,
) -> Result<(ItemV, EnvV), InitError> {
    let rty = resolved_type(ty, env.scope, env.ctx);
    let rv = resolved(value, env.scope, env.ctx);
    let item = ItemV::Const { id, ty: rty, name, value: rv };
    match id {
        None => Ok((item, env)),
        Some(cid) => match rv {
            ExprV::Int(k) => Ok(
                (
                    item,
                    EnvV {
                        ctx: ContextV {
                            const_types: env.ctx.const_types.insert(cid, rty),
                            const_ints: env.ctx.const_ints.insert(cid, k),
                            ..env.ctx
                        },
                        ..env
                    },
                ),
            ),
            _ => Err(InitError::NonLiteralConst),
        },
    }
}

/// A component with its members registered and defined.
pub open spec fn resolve_component(
    id: Option<i64>,
    name: Seq<char>,
    members: Seq<MemberV>,
    query: Option<crate::ast::QueryV>,
    env: EnvV,
) -> Result<(ItemV, EnvV), InitError> {
    match lookup(env.ctx.struct_index, name) {
        None => Err(InitError::ComponentWithoutStruct),
        Some(sid) => match register_members_from(
            members,
            0,
            seq![],
            sid,
            EnvV { ctx: env.ctx.with_members(sid), ..env },
        ) {
            Err(x) => Err(x),
            Ok((ms, e1)) => match define_members_from(ms, 0, seq![], e1) {
                Err(x) => Err(x),
                Ok((ds, e2)) => Ok((ItemV::Component { id, name, members: ds, query }, e2)),
            },
        },
    }
}

/// A top-level item with everything inside it resolved. A free function has the identifier of its
/// item, to which its global name leads.
pub open spec fn resolve_item(item: ItemV, env: EnvV) -> Result<(ItemV, EnvV), InitError> {
    match item {
        ItemV::Import { .. } => Ok((item, env)),
        ItemV::Const { id, ty, name, value } => resolve_const(id, ty, name, value, env),
        ItemV::Enum { id, name, variants } => match id {
            None => Err(InitError::MissingId),
            Some(eid) => match resolve_variants_from(
                variants,
                0,
                seq![],
                eid,
                name,
                0,
                EnvV { ctx: with_enum_width(env.ctx, eid), ..env },
            ) {
                Ok((vs, e)) => Ok((ItemV::Enum { id, name, variants: vs }, e)),
                Err(x) => Err(x),
            },
        },
        ItemV::Struct { id, name, fields } => match id {
            None => Err(InitError::MissingId),
            Some(sid) => match resolve_fields_from(fields, 0, seq![], seq![], env) {
                Err(x) => Err(x),
                Ok((fs, members, e)) => Ok(
                    (
                        ItemV::Struct { id, name, fields: fs },
                        EnvV {
                            ctx: ContextV {
                                struct_fields: e.ctx.struct_fields.insert(sid, members),
                                ..e.ctx
                            },
                            ..e
                        },
                    ),
                ),
            },
        },
        ItemV::Component { id, name, members, query } => resolve_component(
            id,
            name,
            members,
            query,
            env,
        ),
        ItemV::Function { id, func } => match define_func(FuncV { id, ..func }, env) {
            Ok((g, e)) => Ok((ItemV::Function { id, func: g }, e)),
            Err(x) => Err(x),
        },
    }
}

/// The items from `i` on resolved, behind `acc`.
pub open spec fn resolve_items_from(items: Seq<ItemV>, i: int, acc: Seq<ItemV>, env: EnvV) -> Result<
    (Seq<ItemV>, EnvV),
    InitError,
>
    decreases items.len() - i,
{
    if i < 0 || i >= items.len() {
        Ok((acc, env))
    } else {
        match resolve_item(items[i], env) {
            Ok((it, e)) => resolve_items_from(items, i + 1, acc.push(it), e),
            Err(x) => Err(x),
        }
    }
}

/// The modules from `i` on resolved, each in a frame of its own, behind `acc`.
pub open spec fn resolve_modules_from(ms: Seq<ModuleV>, i: int, acc: Seq<ModuleV>, env: EnvV) -> Result<
    (Seq<ModuleV>, EnvV),
    InitError,
>
    decreases ms.len() - i,
{
    if i < 0 || i >= ms.len() {
        Ok((acc, env))
    } else {
        match resolve_items_from(
            ms[i].file.items,
            0,
            seq![],
            EnvV { scope: env.scope.pushed(), ..env },
        ) {
            Ok((items, e)) => resolve_modules_from(
                ms,
                i + 1,
                acc.push(ModuleV { path: ms[i].path, file: FileV { items } }),
                EnvV { scope: e.scope.popped(), ..e },
            ),
            Err(x) => Err(x),
        }
    }
}

/// The environment of an empty program.
pub open spec fn empty_env() -> EnvV {
    EnvV { ctx: empty_context(), scope: ScopeV { globals: Map::empty(), locals: seq![] } }
}

/// The resolved modules and the context of a program: all top-level names are published first,
/// then everything inside the items is resolved, and last the builtin permutations are added.
pub open spec fn program_context(ms: Seq<ModuleV>) -> Result<(Seq<ModuleV>, ContextV), InitError> {
    match publish_modules_from(ms, 0, seq![], empty_env()) {
        Err(x) => Err(x),
        Ok((ps, e1)) => match resolve_modules_from(ps, 0, seq![], e1) {
            Err(x) => Err(x),
            Ok((rs, e2)) => Ok(
                (
                    rs,
                    e2.ctx.with_permutation("Send"@, "Receive"@).with_permutation(
                        "SendInstruction"@,
                        "ReceiveInstruction"@,
                    ),
                ),
            ),
        },
    }
}

/// Gives a global name a fresh identifier.
fn publish(name: &String, ctx: &mut Context, scope: &mut Scope) -> (r: Option<i64>)
    ensures
        match r {
            Some(id) => old(ctx)@.has_fresh() && id == old(ctx)@.next_sym_id && (EnvV {
                ctx: final(ctx)@,
                scope: final(scope)@,
            }) == publish_name(EnvV { ctx: old(ctx)@, scope: old(scope)@ }, name@),
            None => !old(ctx)@.has_fresh(),
        },
{
    match ctx.fresh_id() {
        Some(id) => {
            scope.insert_global(name.clone(), id);
            Some(id)
        },
        None => None,
    }
}

fn publish_variants(vs: Vec<EnumVariant>, ctx: &mut Context, scope: &mut Scope) -> (r: Result<
    Vec<EnumVariant>,
    InitError,
>)
    ensures
        match r {
            Ok(v) => publish_variants_from(
                variants_of(vs@),
                0,
                seq![],
                EnvV { ctx: old(ctx)@, scope: old(scope)@ },
            ) == Ok::<(Seq<EnumVariantV>, EnvV), InitError>(
                (variants_of(v@), EnvV { ctx: final(ctx)@, scope: final(scope)@ }),
            ),
            Err(x) => publish_variants_from(
                variants_of(vs@),
                0,
                seq![],
                EnvV { ctx: old(ctx)@, scope: old(scope)@ },
            ) == Err::<(Seq<EnumVariantV>, EnvV), InitError>(x),
        },
{
    let ghost all = vs@;
    let ghost ts = variants_of(all);
    let ghost env = EnvV { ctx: ctx@, scope: scope@ };
    let mut out: Vec<EnumVariant> = Vec::new();
    #[verifier::loop_isolation(false)]
    for v in it: vs
        invariant
            it.seq() == all,
            publish_variants_from(ts, 0, seq![], env) == publish_variants_from(
                ts,
                it.index(),
                variants_of(out@),
                EnvV { ctx: ctx@, scope: scope@ },
            ),
    {
        proof {
            assert(ts[it.index()] == v@);
        }
        let EnumVariant { id: _, name, value } = v;
        match publish(&name, ctx, scope) {
            Some(id) => out.push(EnumVariant { id: Some(id), name, value }),
            None => return Err(InitError::TooManySymbols),
        }
    }
    Ok(out)
}

/// What the processing of an item ends with.
pub open spec fn item_outcome(r: Result<Item, InitError>, ctx: ContextV, scope: ScopeV) -> Result<
    (ItemV, EnvV),
    InitError,
> {
    match r {
        Ok(v) => Ok((v@, EnvV { ctx, scope })),
        Err(x) => Err(x),
    }
}

fn publish_one(item: Item, ctx: &mut Context, scope: &mut Scope) -> (r: Result<Item, InitError>)
    ensures
        item_outcome(r, final(ctx)@, final(scope)@) == publish_item(
            item@,
            EnvV { ctx: old(ctx)@, scope: old(scope)@ },
        ),
{
    match item {
        Item::Import { id, path } => Ok(Item::Import { id, path }),
        Item::Component { id, name, members, query } => Ok(
            Item::Component { id, name, members, query },
        ),
        Item::Const { ty, name, value, .. } => match publish(&name, ctx, scope) {
            Some(id) => Ok(Item::Const { id: Some(id), ty, name, value }),
            None => Err(InitError::TooManySymbols),
        },
        Item::Enum { name, variants, .. } => match publish(&name, ctx, scope) {
            Some(id) => {
                ctx.set_enum_index(name.clone(), id);
                ctx.set_enum_name(id, name.clone());
                match publish_variants(variants, ctx, scope) {
                    Ok(vs) => Ok(Item::Enum { id: Some(id), name, variants: vs }),
                    Err(x) => Err(x),
                }
            },
            None => Err(InitError::TooManySymbols),
        },
        Item::Struct { name, fields, .. } => match publish(&name, ctx, scope) {
            Some(id) => {
                ctx.set_struct_index(name.clone(), id);
                ctx.set_struct_name(id, name.clone());
                Ok(Item::Struct { id: Some(id), name, fields })
            },
            None => Err(InitError::TooManySymbols),
        },
        Item::Function { func, .. } => match publish(&func.name, ctx, scope) {
            Some(id) => Ok(Item::Function { id: Some(id), func }),
            None => Err(InitError::TooManySymbols),
        },
    }
}

/// What the processing of items ends with.
pub open spec fn items_outcome(
    r: Result<Vec<Item>, InitError>,
    ctx: ContextV,
    scope: ScopeV,
) -> Result<(Seq<ItemV>, EnvV), InitError> {
    match r {
        Ok(v) => Ok((items_of(v@), EnvV { ctx, scope })),
        Err(x) => Err(x),
    }
}

fn publish_items(items: Vec<Item>, ctx: &mut Context, scope: &mut Scope) -> (r: Result<
    Vec<Item>,
    InitError,
>)
    ensures
        items_outcome(r, final(ctx)@, final(scope)@) == publish_items_from(
            items_of(items@),
            0,
            seq![],
            EnvV { ctx: old(ctx)@, scope: old(scope)@ },
        ),
{
    let ghost all = items@;
    let ghost ts = items_of(all);
    let ghost env = EnvV { ctx: ctx@, scope: scope@ };
    let mut out: Vec<Item> = Vec::new();
    #[verifier::loop_isolation(false)]
    for x in it: items
        invariant
            it.seq() == all,
            publish_items_from(ts, 0, seq![], env) == publish_items_from(
                ts,
                it.index(),
                items_of(out@),
                EnvV { ctx: ctx@, scope: scope@ },
            ),
    {
        proof {
            assert(ts[it.index()] == x@);
        }
        match publish_one(x, ctx, scope) {
            Ok(y) => out.push(y),
            Err(e) => return Err(e),
        }
    }
    Ok(out)
}

/// What the processing of modules ends with.
pub open spec fn modules_outcome(
    r: Result<Vec<Module>, InitError>,
    ctx: ContextV,
    scope: ScopeV,
) -> Result<(Seq<ModuleV>, EnvV), InitError> {
    match r {
        Ok(v) => Ok((modules_of(v@), EnvV { ctx, scope })),
        Err(x) => Err(x),
    }
}

fn publish_modules(mods: Vec<Module>, ctx: &mut Context, scope: &mut Scope) -> (r: Result<
    Vec<Module>,
    InitError,
>)
    ensures
        modules_outcome(r, final(ctx)@, final(scope)@) == publish_modules_from(
            modules_of(mods@),
            0,
            seq![],
            EnvV { ctx: old(ctx)@, scope: old(scope)@ },
        ),
{
    let ghost all = mods@;
    let ghost ts = modules_of(all);
    let ghost env = EnvV { ctx: ctx@, scope: scope@ };
    let mut out: Vec<Module> = Vec::new();
    proof {
        assert(modules_of(out@) =~= seq![]);
    }
    #[verifier::loop_isolation(false)]
    for x in it: mods
        invariant
            it.seq() == all,
            publish_modules_from(ts, 0, seq![], env) == publish_modules_from(
                ts,
                it.index(),
                modules_of(out@),
                EnvV { ctx: ctx@, scope: scope@ },
            ),
    {
        proof {
            assert(ts[it.index()] == x@);
        }
        let ghost before = out@;
        let Module { path, file } = x;
        match publish_items(file.items, ctx, scope) {
            Ok(items) => {
                let m = Module { path, file: File { items } };
                out.push(m);
                proof {
                    assert(modules_of(out@) =~= modules_of(before).push(m@));
                }
            },
            Err(e) => return Err(e),
        }
    }
    Ok(out)
}

/// Evaluate an enum variant value into a concrete `u64`.
/// Supports integer literals and references to other integer constants.
fn eval_enum_value(e: &Expr, ctx: &Context) -> (r: Result<u64, InitError>)
    ensures
        r == enum_value(e@, ctx@),
    decreases e,
{
    match e {
        Expr::Int(k) => Ok(*k),
        Expr::Paren(inner) => eval_enum_value(inner, ctx),
        Expr::Path { ref_id: Some(cid), .. } => match ctx.const_int(*cid) {
            Some(k) => Ok(k),
            None => Err(InitError::EnumValueNotConstant),
        },
        _ => Err(InitError::EnumValueUnsupported),
    }
}

fn resolve_one_variant(
    v: EnumVariant,
    enum_id: i64,
    enum_name: &String,
    next: u64,
    ctx: &mut Context,
    scope: &mut Scope,
) -> (r: Result<(EnumVariant, u64), InitError>)
    ensures
        match r {
            Ok((w, n)) => resolve_variant(
                v@,
                enum_id,
                enum_name@,
                next,
                EnvV { ctx: old(ctx)@, scope: old(scope)@ },
            ) == Ok::<(EnumVariantV, u64, EnvV), InitError>(
                (w@, n, EnvV { ctx: final(ctx)@, scope: final(scope)@ }),
            ),
            Err(x) => resolve_variant(
                v@,
                enum_id,
                enum_name@,
                next,
                EnvV { ctx: old(ctx)@, scope: old(scope)@ },
            ) == Err::<(EnumVariantV, u64, EnvV), InitError>(x),
        },
{
    let EnumVariant { id, name, value } = v;
    let vid = match id {
        Some(vid) => vid,
        None => match publish(&name, ctx, scope) {
            Some(vid) => vid,
            None => return Err(InitError::TooManySymbols),
        },
    };
    let init = match value {
        Some(e) => Some(resolve_expr_ids_flat(e, scope, ctx)),
        None => None,
    };
    let k = match &init {
        Some(e) => match eval_enum_value(e, ctx) {
            Ok(k) => k,
            Err(x) => return Err(x),
        },
        None => next,
    };
    let mut segments: Vec<String> = Vec::new();
    segments.push(enum_name.clone());
    proof {
        assert(texts(segments@) =~= seq![enum_name@]);
    }
    ctx.set_const_type(vid, Type::Path { segments, ref_id: Some(enum_id) });
    ctx.set_const_int(vid, k);
    let n = if k == u64::MAX {
        k
    } else {
        k + 1
    };
    Ok((EnumVariant { id: Some(vid), name, value: init }, n))
}

fn resolve_variants(
    vs: Vec<EnumVariant>,
    enum_id: i64,
    enum_name: &String,
    ctx: &mut Context,
    scope: &mut Scope,
) -> (r: Result<Vec<EnumVariant>, InitError>)
    ensures
        match r {
            Ok(v) => resolve_variants_from(
                variants_of(vs@),
                0,
                seq![],
                enum_id,
                enum_name@,
                0,
                EnvV { ctx: old(ctx)@, scope: old(scope)@ },
            ) == Ok::<(Seq<EnumVariantV>, EnvV), InitError>(
                (variants_of(v@), EnvV { ctx: final(ctx)@, scope: final(scope)@ }),
            ),
            Err(x) => resolve_variants_from(
                variants_of(vs@),
                0,
                seq![],
                enum_id,
                enum_name@,
                0,
                EnvV { ctx: old(ctx)@, scope: old(scope)@ },
            ) == Err::<(Seq<EnumVariantV>, EnvV), InitError>(x),
        },
{
    let ghost all = vs@;
    let ghost ts = variants_of(all);
    let ghost env = EnvV { ctx: ctx@, scope: scope@ };
    let mut out: Vec<EnumVariant> = Vec::new();
    let mut next: u64 = 0;
    #[verifier::loop_isolation(false)]
    for v in it: vs
        invariant
            it.seq() == all,
            resolve_variants_from(ts, 0, seq![], enum_id, enum_name@, 0, env)
                == resolve_variants_from(
                ts,
                it.index(),
                variants_of(out@),
                enum_id,
                enum_name@,
                next,
                EnvV { ctx: ctx@, scope: scope@ },
            ),
    {
        proof {
            assert(ts[it.index()] == v@);
        }
        match resolve_one_variant(v, enum_id, enum_name, next, ctx, scope) {
            Ok((w, n)) => {
                out.push(w);
                next = n;
            },
            Err(x) => return Err(x),
        }
    }
    Ok(out)
}

fn resolve_fields(fs: Vec<Field>, ctx: &mut Context, scope: &Scope) -> (r: Result<
    (Vec<Field>, NameMap<MemberIndex>),
    InitError,
>)
    ensures
        match r {
            Ok((v, m)) => resolve_fields_from(
                fields_of(fs@),
                0,
                seq![],
                seq![],
                EnvV { ctx: old(ctx)@, scope: scope@ },
            ) == Ok::<(Seq<FieldV>, MembersV, EnvV), InitError>(
                (fields_of(v@), m.pairs(), EnvV { ctx: final(ctx)@, scope: scope@ }),
            ),
            Err(x) => resolve_fields_from(
                fields_of(fs@),
                0,
                seq![],
                seq![],
                EnvV { ctx: old(ctx)@, scope: scope@ },
            ) == Err::<(Seq<FieldV>, MembersV, EnvV), InitError>(x),
        },
{
    let ghost all = fs@;
    let ghost ts = fields_of(all);
    let ghost env = EnvV { ctx: ctx@, scope: scope@ };
    let mut out: Vec<Field> = Vec::new();
    let mut members: NameMap<MemberIndex> = NameMap::new();
    #[verifier::loop_isolation(false)]
    for f in it: fs
        invariant
            it.seq() == all,
            resolve_fields_from(ts, 0, seq![], seq![], env) == resolve_fields_from(
                ts,
                it.index(),
                fields_of(out@),
                members.pairs(),
                EnvV { ctx: ctx@, scope: scope@ },
            ),
    {
        proof {
            assert(ts[it.index()] == f@);
        }
        let Field { id: _, io, name, ty } = f;
        let fid = match ctx.fresh_id() {
            Some(id) => id,
            None => return Err(InitError::TooManySymbols),
        };
        let rty = resolve_type_ids_flat(ty.clone(), scope, ctx);
        ctx.set_field_type(fid, rty);
        members.set(name.clone(), MemberIndex::Field { field_id: fid });
        out.push(Field { id: Some(fid), io, name, ty });
    }
    Ok((out, members))
}

/// What the processing of members ends with.
pub open spec fn members_outcome(
    r: Result<Vec<Member>, InitError>,
    ctx: ContextV,
    scope: ScopeV,
) -> Result<(Seq<MemberV>, EnvV), InitError> {
    match r {
        Ok(v) => Ok((members_of(v@), EnvV { ctx, scope })),
        Err(x) => Err(x),
    }
}

fn register_members(ms: Vec<Member>, sid: i64, ctx: &mut Context, scope: &Scope) -> (r: Result<
    Vec<Member>,
    InitError,
>)
    ensures
        members_outcome(r, final(ctx)@, scope@) == register_members_from(
            members_of(ms@),
            0,
            seq![],
            sid,
            EnvV { ctx: old(ctx)@, scope: scope@ },
        ),
{
    let ghost all = ms@;
    let ghost ts = members_of(all);
    let ghost env = EnvV { ctx: ctx@, scope: scope@ };
    let mut out: Vec<Member> = Vec::new();
    #[verifier::loop_isolation(false)]
    for m in it: ms
        invariant
            it.seq() == all,
            register_members_from(ts, 0, seq![], sid, env) == register_members_from(
                ts,
                it.index(),
                members_of(out@),
                sid,
                EnvV { ctx: ctx@, scope: scope@ },
            ),
    {
        proof {
            assert(ts[it.index()] == m@);
        }
        let (mut f, computes) = match m {
            Member::Computation(f) => (f, true),
            Member::Constraint(f) => (f, false),
        };
        let fid = match f.id {
            Some(fid) => fid,
            None => match ctx.fresh_id() {
                Some(fid) => fid,
                None => return Err(InitError::TooManySymbols),
            },
        };
        let ghost before = f@;
        f.id = Some(fid);
        proof {
            assert(f@ == (FuncV { id: Some(fid), ..before }));
        }
        ctx.add_member(sid, f.name.clone(), MemberIndex::Method { func_id: fid });
        ctx.set_func_owner(fid, sid);
        if computes {
            out.push(Member::Computation(f));
        } else {
            out.push(Member::Constraint(f));
        }
    }
    Ok(out)
}

fn signature(f: &Func, ctx: &Context, scope: &Scope) -> (r: FnSig)
    ensures
        r@ == signature_of(f@, EnvV { ctx: ctx@, scope: scope@ }),
{
    let ghost ps = params_of(f.params@);
    let ghost env = EnvV { ctx: ctx@, scope: scope@ };
    let mut out: Vec<Type> = Vec::new();
    #[verifier::loop_isolation(false)]
    for i in 0..f.params.len()
        invariant
            param_types_from(ps, 0, seq![], env) == param_types_from(
                ps,
                i as int,
                types_of(out@),
                env,
            ),
    {
        proof {
            assert(ps[i as int] == f.params@[i as int]@);
        }
        if let Param::Typed { ty, .. } = &f.params[i] {
            out.push(resolve_type_ids_flat(ty.clone(), scope, ctx));
        }
    }
    let ret = match &f.ret {
        Some(t) => Some(t.clone()),
        None => None,
    };
    FnSig { params: out, ret: resolve_opt_type(ret, scope, ctx) }
}

fn define(f: Func, ctx: &mut Context, scope: &mut Scope) -> (r: Result<Func, InitError>)
    ensures
        match r {
            Ok(g) => define_func(f@, EnvV { ctx: old(ctx)@, scope: old(scope)@ }) == Ok::<
                (FuncV, EnvV),
                InitError,
            >((g@, EnvV { ctx: final(ctx)@, scope: final(scope)@ })),
            Err(x) => define_func(f@, EnvV { ctx: old(ctx)@, scope: old(scope)@ }) == Err::<
                (FuncV, EnvV),
                InitError,
            >(x),
        },
{
    let fid = match f.id {
        Some(fid) => fid,
        None => return Err(InitError::MissingId),
    };
    let sig = signature(&f, ctx, scope);
    ctx.set_fn_sig(fid, sig);
    match resolve_func_flat(f, ctx, scope) {
        Ok(g) => {
            ctx.set_func(fid, g.clone());
            Ok(g)
        },
        Err(x) => Err(x),
    }
}

fn define_members(ms: Vec<Member>, ctx: &mut Context, scope: &mut Scope) -> (r: Result<
    Vec<Member>,
    InitError,
>)
    ensures
        members_outcome(r, final(ctx)@, final(scope)@) == define_members_from(
            members_of(ms@),
            0,
            seq![],
            EnvV { ctx: old(ctx)@, scope: old(scope)@ },
        ),
{
    let ghost all = ms@;
    let ghost ts = members_of(all);
    let ghost env = EnvV { ctx: ctx@, scope: scope@ };
    let mut out: Vec<Member> = Vec::new();
    #[verifier::loop_isolation(false)]
    for m in it: ms
        invariant
            it.seq() == all,
            define_members_from(ts, 0, seq![], env) == define_members_from(
                ts,
                it.index(),
                members_of(out@),
                EnvV { ctx: ctx@, scope: scope@ },
            ),
    {
        proof {
            assert(ts[it.index()] == m@);
        }
        match m {
            Member::Computation(f) => match define(f, ctx, scope) {
                Ok(g) => out.push(Member::Computation(g)),
                Err(x) => return Err(x),
            },
            Member::Constraint(f) => match define(f, ctx, scope) {
                Ok(g) => out.push(Member::Constraint(g)),
                Err(x) => return Err(x),
            },
        }
    }
    Ok(out)
}

fn resolve_one_const(
    id: Option<i64>,
    ty: Type,
    name: String,
    value: Expr,
    ctx: &mut Context,
    scope: &Scope,
) -> (r: Result<Item, InitError>)
    ensures
        item_outcome(r, final(ctx)@, scope@) == resolve_const(
            id,
            ty@,
            name@,
            value@,
            EnvV { ctx: old(ctx)@, scope: scope@ },
        ),
{
    let ty = resolve_type_ids_flat(ty, scope, ctx);
    let value = resolve_expr_ids_flat(value, scope, ctx);
    if let Some(cid) = id {
        match &value {
            Expr::Int(k) => {
                ctx.set_const_type(cid, ty.clone());
                ctx.set_const_int(cid, *k);
            },
            _ => return Err(InitError::NonLiteralConst),
        }
    }
    Ok(Item::Const { id, ty, name, value })
}

fn resolve_one_component(
    id: Option<i64>,
    name: String,
    members: Vec<Member>,
    query: Option<crate::ast::Query>,
    ctx: &mut Context,
    scope: &mut Scope,
) -> (r: Result<Item, InitError>)
    ensures
        item_outcome(r, final(ctx)@, final(scope)@) == resolve_component(
            id,
            name@,
            members_of(members@),
            some_view(query),
            EnvV { ctx: old(ctx)@, scope: old(scope)@ },
        ),
{
    let sid = match ctx.struct_id_by_name(name.as_str()) {
        Some(sid) => sid,
        None => return Err(InitError::ComponentWithoutStruct),
    };
    ctx.ensure_members(sid);
    let ms = match register_members(members, sid, ctx, scope) {
        Ok(ms) => ms,
        Err(x) => return Err(x),
    };
    match define_members(ms, ctx, scope) {
        Ok(members) => Ok(Item::Component { id, name, members, query }),
        Err(x) => Err(x),
    }
}

fn resolve_one(item: Item, ctx: &mut Context, scope: &mut Scope) -> (r: Result<Item, InitError>)
    ensures
        item_outcome(r, final(ctx)@, final(scope)@) == resolve_item(
            item@,
            EnvV { ctx: old(ctx)@, scope: old(scope)@ },
        ),
{
    match item {
        Item::Import { id, path } => Ok(Item::Import { id, path }),
        Item::Const { id, ty, name, value } => resolve_one_const(id, ty, name, value, ctx, scope),
        Item::Enum { id, name, variants } => {
            let eid = match id {
                Some(eid) => eid,
                None => return Err(InitError::MissingId),
            };
            if !ctx.has_enum_width(eid) {
                ctx.set_enum_width(eid, DEFAULT_ENUM_WIDTH);
            }
            match resolve_variants(variants, eid, &name, ctx, scope) {
                Ok(variants) => Ok(Item::Enum { id, name, variants }),
                Err(x) => Err(x),
            }
        },
        Item::Struct { id, name, fields } => {
            let sid = match id {
                Some(sid) => sid,
                None => return Err(InitError::MissingId),
            };
            match resolve_fields(fields, ctx, scope) {
                Ok((fields, members)) => {
                    ctx.set_struct_members(sid, members);
                    Ok(Item::Struct { id, name, fields })
                },
                Err(x) => Err(x),
            }
        },
        Item::Component { id, name, members, query } => resolve_one_component(
            id,
            name,
            members,
            query,
            ctx,
            scope,
        ),
        Item::Function { id, func } => {
            let mut f = func;
            let ghost before = f@;
            f.id = id;
            proof {
                assert(f@ == (FuncV { id, ..before }));
            }
            match define(f, ctx, scope) {
                Ok(func) => Ok(Item::Function { id, func }),
                Err(x) => Err(x),
            }
        },
    }
}

fn resolve_items(items: Vec<Item>, ctx: &mut Context, scope: &mut Scope) -> (r: Result<
    Vec<Item>,
    InitError,
>)
    ensures
        items_outcome(r, final(ctx)@, final(scope)@) == resolve_items_from(
            items_of(items@),
            0,
            seq![],
            EnvV { ctx: old(ctx)@, scope: old(scope)@ },
        ),
{
    let ghost all = items@;
    let ghost ts = items_of(all);
    let ghost env = EnvV { ctx: ctx@, scope: scope@ };
    let mut out: Vec<Item> = Vec::new();
    #[verifier::loop_isolation(false)]
    for x in it: items
        invariant
            it.seq() == all,
            resolve_items_from(ts, 0, seq![], env) == resolve_items_from(
                ts,
                it.index(),
                items_of(out@),
                EnvV { ctx: ctx@, scope: scope@ },
            ),
    {
        proof {
            assert(ts[it.index()] == x@);
        }
        match resolve_one(x, ctx, scope) {
            Ok(y) => out.push(y),
            Err(e) => return Err(e),
        }
    }
    Ok(out)
}

fn resolve_modules(mods: Vec<Module>, ctx: &mut Context, scope: &mut Scope) -> (r: Result<
    Vec<Module>,
    InitError,
>)
    ensures
        modules_outcome(r, final(ctx)@, final(scope)@) == resolve_modules_from(
            modules_of(mods@),
            0,
            seq![],
            EnvV { ctx: old(ctx)@, scope: old(scope)@ },
        ),
{
    let ghost all = mods@;
    let ghost ts = modules_of(all);
    let ghost env = EnvV { ctx: ctx@, scope: scope@ };
    let mut out: Vec<Module> = Vec::new();
    proof {
        assert(modules_of(out@) =~= seq![]);
    }
    #[verifier::loop_isolation(false)]
    for x in it: mods
        invariant
            it.seq() == all,
            resolve_modules_from(ts, 0, seq![], env) == resolve_modules_from(
                ts,
                it.index(),
                modules_of(out@),
                EnvV { ctx: ctx@, scope: scope@ },
            ),
    {
        proof {
            assert(ts[it.index()] == x@);
        }
        let ghost before = out@;
        let Module { path, file } = x;
        scope.push();
        match resolve_items(file.items, ctx, scope) {
            Ok(items) => {
                let m = Module { path, file: File { items } };
                out.push(m);
                proof {
                    assert(modules_of(out@) =~= modules_of(before).push(m@));
                }
            },
            Err(e) => return Err(e),
        }
        scope.pop();
    }
    Ok(out)
}

/// Build flat globals, resolve types/exprs/functions, and collect exec-time indices.
/// All top-level symbols from all modules are global; imports are ignored.
pub fn init_context(mods: Vec<Module>) -> (r: Result<(Vec<Module>, Context), InitError>)
    ensures
        match r {
            Ok((ms, ctx)) => program_context(modules_of(mods@)) == Ok::<
                (Seq<ModuleV>, ContextV),
                InitError,
            >((modules_of(ms@), ctx@)),
            Err(x) => program_context(modules_of(mods@)) == Err::<
                (Seq<ModuleV>, ContextV),
                InitError,
            >(x),
        },
{
    let mut ctx = Context::default();
    let mut scope = Scope::new();
    let published = match publish_modules(mods, &mut ctx, &mut scope) {
        Ok(ms) => ms,
        Err(x) => return Err(x),
    };
    let out = match resolve_modules(published, &mut ctx, &mut scope) {
        Ok(ms) => ms,
        Err(x) => return Err(x),
    };
    ctx.register_memory_permutation("Send", "Receive");
    ctx.register_memory_permutation("SendInstruction", "ReceiveInstruction");
    Ok((out, ctx))
}

} // verus!
