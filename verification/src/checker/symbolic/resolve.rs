//! Attaching identifiers to expressions, types, statements and functions.

use vstd::prelude::*;
use vstd::string::*;
use crate::ast::{
    exprs_of, params_of, stmts_of, tails_of, types_of, Expr, ExprV, Func, FuncV, LValue, LValueV,
    LvTail, LvTailV, Param, ParamV, Stmt, StmtV, Type, TypeV,
};
use crate::checker::symbolic::context::{lookup, Context, ContextV, MemberIndex};
use crate::checker::symbolic::scope::{Scope, ScopeV};
use crate::view::some_view;

verus! {

broadcast use crate::ast::lists::group_lists;

/// Why a program has no context.
#[derive(Clone, Copy, Debug, PartialEq, Eq, Structural)]
pub enum InitError {
    /// The supply of identifiers is exhausted.
    TooManySymbols,
    /// A constant whose initializer is not an integer literal.
    NonLiteralConst,
    /// An enum value that refers to something that is not an integer constant.
    EnumValueNotConstant,
    /// An enum value of an unsupported form.
    EnumValueUnsupported,
    /// A component without a struct of the same name.
    ComponentWithoutStruct,
    /// A method whose owner has no recorded name.
    MissingStructName,
    /// A declaration without an identifier.
    MissingId,
}

/// A context and a scope.
pub struct EnvV {
    pub ctx: ContextV,
    pub scope: ScopeV,
}

/// The id of a struct member.
pub open spec fn member_id(m: MemberIndex) -> i64 {
    match m {
        MemberIndex::Field { field_id } => field_id,
        MemberIndex::Method { func_id } => func_id,
    }
}

/// What a field access refers to: the member of the struct that the base has as type, else what
/// it referred to before.
pub open spec fn field_ref(
    cx: ContextV,
    base: ExprV,
    name: Seq<char>,
    ref_id: Option<i64>,
) -> Option<i64> {
    match cx.infer(base) {
        Some(TypeV::Path { ref_id: Some(sid), .. }) => match cx.member(sid, name) {
            Some(m) => Some(member_id(m)),
            None => ref_id,
        },
        _ => ref_id,
    }
}

/// An expression with its names resolved.
pub open spec fn resolved(e: ExprV, sc: ScopeV, cx: ContextV) -> ExprV
    decreases e,
{
    match e {
        ExprV::Int(k) => ExprV::Int(k),
        ExprV::Bool(b) => ExprV::Bool(b),
        ExprV::Path { segments, .. } => ExprV::Path { segments, ref_id: sc.resolve_path(segments) },
        ExprV::Call(callee, args) => ExprV::Call(
            Box::new(resolved(*callee, sc, cx)),
            resolved_all(args, sc, cx),
        ),
        ExprV::Index(base, idx) => ExprV::Index(
            Box::new(resolved(*base, sc, cx)),
            Box::new(resolved(*idx, sc, cx)),
        ),
        ExprV::MapIndex { base, keys } => ExprV::MapIndex {
            base: Box::new(resolved(*base, sc, cx)),
            keys: resolved_all(keys, sc, cx),
        },
        ExprV::Field { base, name, ref_id } => {
            let b = resolved(*base, sc, cx);
            ExprV::Field { base: Box::new(b), name, ref_id: field_ref(cx, b, name, ref_id) }
        },
        ExprV::Binary { op, lhs, rhs } => ExprV::Binary {
            op,
            lhs: Box::new(resolved(*lhs, sc, cx)),
            rhs: Box::new(resolved(*rhs, sc, cx)),
        },
        ExprV::Paren(inner) => ExprV::Paren(Box::new(resolved(*inner, sc, cx))),
    }
}

/// [`resolved`] of each member.
pub open spec fn resolved_all(es: Seq<ExprV>, sc: ScopeV, cx: ContextV) -> Seq<ExprV>
    decreases es,
{
    if es.len() == 0 {
        seq![]
    } else {
        resolved_all(es.drop_last(), sc, cx).push(resolved(es.last(), sc, cx))
    }
}

/// A type with its names resolved.
pub open spec fn resolved_type(t: TypeV, sc: ScopeV, cx: ContextV) -> TypeV
    decreases t,
{
    match t {
        TypeV::Path { segments, .. } => TypeV::Path { segments, ref_id: sc.resolve_path(segments) },
        TypeV::Array(inner, len) => TypeV::Array(
            Box::new(resolved_type(*inner, sc, cx)),
            resolved(len, sc, cx),
        ),
        TypeV::Tuple(elems) => TypeV::Tuple(resolved_types(elems, sc, cx)),
        TypeV::Mapping { timestamp, key, value } => TypeV::Mapping {
            timestamp: Box::new(resolved_type(*timestamp, sc, cx)),
            key: Box::new(resolved_type(*key, sc, cx)),
            value: Box::new(resolved_type(*value, sc, cx)),
        },
        TypeV::Function { ref_id } => TypeV::Function { ref_id },
    }
}

/// [`resolved_type`] of each member.
pub open spec fn resolved_types(ts: Seq<TypeV>, sc: ScopeV, cx: ContextV) -> Seq<TypeV>
    decreases ts,
{
    if ts.len() == 0 {
        seq![]
    } else {
        resolved_types(ts.drop_last(), sc, cx).push(resolved_type(ts.last(), sc, cx))
    }
}

/// A step of a place with its names resolved; field names are left to execution.
pub open spec fn resolved_tail(t: LvTailV, sc: ScopeV, cx: ContextV) -> LvTailV {
    match t {
        LvTailV::Index(e) => LvTailV::Index(resolved(e, sc, cx)),
        LvTailV::MapIndex(a, b) => LvTailV::MapIndex(resolved(a, sc, cx), resolved(b, sc, cx)),
        LvTailV::Field { name } => LvTailV::Field { name },
    }
}

/// [`resolved_tail`] of each member.
pub open spec fn resolved_tails(ts: Seq<LvTailV>, sc: ScopeV, cx: ContextV) -> Seq<LvTailV> {
    Seq::new(ts.len(), |i: int| resolved_tail(ts[i], sc, cx))
}

/// A place with its names resolved.
pub open spec fn resolved_lvalue(lv: LValueV, sc: ScopeV, cx: ContextV) -> LValueV {
    LValueV {
        ref_id: sc.resolve_path(lv.head),
        head: lv.head,
        tails: resolved_tails(lv.tails, sc, cx),
    }
}

/// The environment after binding a name to a fresh identifier.
pub open spec fn bind_fresh(env: EnvV, name: Seq<char>) -> EnvV {
    EnvV {
        ctx: env.ctx.after_fresh(),
        scope: env.scope.with_local(name, env.ctx.next_sym_id as i64),
    }
}

/// The environment after recording the type of a variable.
pub open spec fn record_type(env: EnvV, id: i64, ty: TypeV) -> EnvV {
    EnvV { ctx: ContextV { var_types: env.ctx.var_types.insert(id, ty), ..env.ctx }, ..env }
}

/// A statement with its names resolved, and the environment behind it.
pub open spec fn resolved_stmt(s: StmtV, env: EnvV) -> Result<(StmtV, EnvV), InitError>
    decreases s, 0int,
{
    let sc = env.scope;
    let cx = env.ctx;
    match s {
        StmtV::VarDecl { ty, name, init, .. } => if !cx.has_fresh() {
            Err(InitError::TooManySymbols)
        } else {
            let nid = cx.next_sym_id as i64;
            let after = cx.after_fresh();
            let rty = resolved_type(ty, sc, after);
            Ok(
                (
                    StmtV::VarDecl {
                        id: Some(nid),
                        ty: rty,
                        name,
                        init: resolved(init, sc, after),
                    },
                    record_type(bind_fresh(env, name), nid, rty),
                ),
            )
        },
        StmtV::Assign { target, value } => Ok(
            (
                StmtV::Assign {
                    target: resolved_lvalue(target, sc, cx),
                    value: resolved(value, sc, cx),
                },
                env,
            ),
        ),
        StmtV::AndAssign { target, value } => Ok(
            (
                StmtV::AndAssign {
                    target: resolved_lvalue(target, sc, cx),
                    value: resolved(value, sc, cx),
                },
                env,
            ),
        ),
        StmtV::For { var, start, end, body, .. } => if !cx.has_fresh() {
            Err(InitError::TooManySymbols)
        } else {
            let inner = bind_fresh(EnvV { scope: sc.pushed(), ..env }, var);
            match resolved_stmts_from(body, 0, seq![], inner) {
                Err(x) => Err(x),
                Ok((b, e2)) => Ok(
                    (
                        StmtV::For {
                            id: Some(cx.next_sym_id as i64),
                            var,
                            start: resolved(start, sc, cx),
                            end: resolved(end, sc, cx),
                            body: b,
                        },
                        EnvV { scope: e2.scope.popped(), ..e2 },
                    ),
                ),
            }
        },
        StmtV::If { cond, then_branch, else_branch } => match resolved_stmts_from(
            then_branch,
            0,
            seq![],
            EnvV { scope: sc.pushed(), ..env },
        ) {
            Err(x) => Err(x),
            Ok((t, e1)) => match resolved_stmts_from(
                else_branch,
                0,
                seq![],
                EnvV { scope: e1.scope.popped().pushed(), ..e1 },
            ) {
                Err(x) => Err(x),
                Ok((f, e2)) => Ok(
                    (
                        StmtV::If {
                            cond: resolved(cond, sc, cx),
                            then_branch: t,
                            else_branch: f,
                        },
                        EnvV { scope: e2.scope.popped(), ..e2 },
                    ),
                ),
            },
        },
        StmtV::AssertBool(e) => Ok((StmtV::AssertBool(resolved(e, sc, cx)), env)),
        StmtV::AssertZero(e) => Ok((StmtV::AssertZero(resolved(e, sc, cx)), env)),
        StmtV::AssertEq(a, b) => Ok(
            (StmtV::AssertEq(resolved(a, sc, cx), resolved(b, sc, cx)), env),
        ),
        StmtV::AssertRange { value, ty } => Ok(
            (
                StmtV::AssertRange {
                    value: resolved(value, sc, cx),
                    ty: resolved_type(ty, sc, cx),
                },
                env,
            ),
        ),
        StmtV::Lookup { chip, opcode, args } => Ok(
            (
                StmtV::Lookup {
                    chip,
                    opcode: resolved(opcode, sc, cx),
                    args: resolved_all(args, sc, cx),
                },
                env,
            ),
        ),
        StmtV::Call { callee, args } => Ok(
            (
                StmtV::Call {
                    callee: resolved_lvalue(callee, sc, cx),
                    args: resolved_all(args, sc, cx),
                },
                env,
            ),
        ),
        StmtV::Return(e) => Ok((StmtV::Return(resolved(e, sc, cx)), env)),
    }
}

/// The statements from `i` on with their names resolved, behind `acc`.
pub open spec fn resolved_stmts_from(
    ss: Seq<StmtV>,
    i: int,
    acc: Seq<StmtV>,
    env: EnvV,
) -> Result<(Seq<StmtV>, EnvV), InitError>
    decreases ss, ss.len() - i,
{
    if i < 0 || i >= ss.len() {
        Ok((acc, env))
    } else {
        match resolved_stmt(ss[i], env) {
            Ok((s, e)) => resolved_stmts_from(ss, i + 1, acc.push(s), e),
            Err(x) => Err(x),
        }
    }
}

/// A parameter with its names resolved, of a function that struct `owner` owns.
pub open spec fn resolved_param(p: ParamV, owner: Option<i64>, env: EnvV) -> Result<
    (ParamV, EnvV),
    InitError,
> {
    let nid = env.ctx.next_sym_id as i64;
    if !env.ctx.has_fresh() {
        Err(InitError::TooManySymbols)
    } else {
        match p {
            ParamV::SelfParam { .. } => {
                let e1 = bind_fresh(env, "self"@);
                match owner {
                    None => Ok((ParamV::SelfParam { id: Some(nid) }, e1)),
                    Some(sid) => match e1.ctx.struct_path(sid) {
                        Some(ty) => Ok(
                            (ParamV::SelfParam { id: Some(nid) }, record_type(e1, nid, ty)),
                        ),
                        None => Err(InitError::MissingStructName),
                    },
                }
            },
            ParamV::Typed { name, ty, io, .. } => {
                let rty = resolved_type(ty, env.scope, env.ctx.after_fresh());
                Ok(
                    (
                        ParamV::Typed { id: Some(nid), name, ty: rty, io },
                        record_type(bind_fresh(env, name), nid, rty),
                    ),
                )
            },
        }
    }
}

/// The parameters from `i` on with their names resolved, behind `acc`.
pub open spec fn resolved_params_from(
    ps: Seq<ParamV>,
    i: int,
    acc: Seq<ParamV>,
    owner: Option<i64>,
    env: EnvV,
) -> Result<(Seq<ParamV>, EnvV), InitError>
    decreases ps.len() - i,
{
    if i < 0 || i >= ps.len() {
        Ok((acc, env))
    } else {
        match resolved_param(ps[i], owner, env) {
            Ok((p, e)) => resolved_params_from(ps, i + 1, acc.push(p), owner, e),
            Err(x) => Err(x),
        }
    }
}

/// An optional type with its names resolved.
pub open spec fn resolved_opt_type(t: Option<TypeV>, sc: ScopeV, cx: ContextV) -> Option<TypeV> {
    match t {
        Some(t) => Some(resolved_type(t, sc, cx)),
        None => None,
    }
}

/// A function with its names resolved in a frame of its own.
pub open spec fn resolved_func(f: FuncV, env: EnvV) -> Result<(FuncV, EnvV), InitError> {
    match f.id {
        None => Err(InitError::MissingId),
        Some(fid) => match resolved_params_from(
            f.params,
            0,
            seq![],
            lookup(env.ctx.func_owner, fid),
            EnvV { scope: env.scope.pushed(), ..env },
        ) {
            Err(x) => Err(x),
            Ok((params, e1)) => match resolved_stmts_from(f.body, 0, seq![], e1) {
                Err(x) => Err(x),
                Ok((body, e2)) => Ok(
                    (
                        FuncV {
                            params,
                            ret: resolved_opt_type(f.ret, e1.scope, e1.ctx),
                            body,
                            ..f
                        },
                        EnvV { scope: e2.scope.popped(), ..e2 },
                    ),
                ),
            },
        },
    }
}

/// Resolve expressions. Field access binds to field_id or func_id using the base type.
pub fn resolve_expr_ids_flat(e: Expr, scope: &Scope, ctx: &Context) -> (r: Expr)
    ensures
        r@ == resolved(e@, scope@, ctx@),
    decreases e,
{
    match e {
        Expr::Int(k) => Expr::Int(k),
        Expr::Bool(b) => Expr::Bool(b),
        Expr::Path { segments, .. } => {
            let ref_id = scope.resolve_path(&segments);
            Expr::Path { segments, ref_id }
        },
        Expr::Call(callee, args) => {
            let c = resolve_expr_ids_flat(*callee, scope, ctx);
            Expr::Call(Box::new(c), resolve_exprs(args, scope, ctx))
        },
        Expr::Index(base, idx) => {
            let b = resolve_expr_ids_flat(*base, scope, ctx);
            let i = resolve_expr_ids_flat(*idx, scope, ctx);
            Expr::Index(Box::new(b), Box::new(i))
        },
        Expr::MapIndex { base, keys } => {
            let b = resolve_expr_ids_flat(*base, scope, ctx);
            Expr::MapIndex { base: Box::new(b), keys: resolve_exprs(keys, scope, ctx) }
        },
        Expr::Field { base, name, ref_id } => {
            let b = resolve_expr_ids_flat(*base, scope, ctx);
            let target = match ctx.infer_expr_type_static(&b) {
                Some(Type::Path { ref_id: Some(sid), .. }) => member_ref(ctx, sid, &name, ref_id),
                _ => ref_id,
            };
            Expr::Field { base: Box::new(b), name, ref_id: target }
        },
        Expr::Binary { op, lhs, rhs } => {
            let l = resolve_expr_ids_flat(*lhs, scope, ctx);
            let r = resolve_expr_ids_flat(*rhs, scope, ctx);
            Expr::Binary { op, lhs: Box::new(l), rhs: Box::new(r) }
        },
        Expr::Paren(inner) => Expr::Paren(Box::new(resolve_expr_ids_flat(*inner, scope, ctx))),
    }
}

fn member_ref(ctx: &Context, sid: i64, name: &String, ref_id: Option<i64>) -> (r: Option<i64>)
    ensures
        r == match ctx@.member(sid, name@) {
            Some(m) => Some(member_id(m)),
            None => ref_id,
        },
{
    match ctx.struct_members(sid) {
        Some(members) => match members.get(name.as_str()) {
            Some(MemberIndex::Field { field_id }) => Some(*field_id),
            Some(MemberIndex::Method { func_id }) => Some(*func_id),
            None => ref_id,
        },
        None => ref_id,
    }
}

fn resolve_exprs(es: Vec<Expr>, scope: &Scope, ctx: &Context) -> (r: Vec<Expr>)
    ensures
        exprs_of(r@) == resolved_all(exprs_of(es@), scope@, ctx@),
    decreases es,
{
    let ghost all = es@;
    let ghost ts = exprs_of(all);
    let mut out: Vec<Expr> = Vec::new();
    proof {
        assert(ts.take(0) =~= seq![]);
    }
    #[verifier::loop_isolation(false)]
    for x in it: es
        invariant
            it.seq() == all,
            exprs_of(out@) == resolved_all(ts.take(it.index()), scope@, ctx@),
    {
        proof {
            let i = it.index();
            assert(ts.take(i + 1).drop_last() =~= ts.take(i));
            assert(ts.take(i + 1).last() == x@);
            assert(decreases_to!(all => all[i]));
        }
        out.push(resolve_expr_ids_flat(x, scope, ctx));
    }
    proof {
        assert(ts.take(ts.len() as int) =~= ts);
    }
    out
}

/// Resolve types that may contain paths or const-length expressions.
pub fn resolve_type_ids_flat(t: Type, scope: &Scope, ctx: &Context) -> (r: Type)
    ensures
        r@ == resolved_type(t@, scope@, ctx@),
    decreases t,
{
    match t {
        Type::Path { segments, .. } => {
            let ref_id = scope.resolve_path(&segments);
            Type::Path { segments, ref_id }
        },
        Type::Array(inner, len) => {
            let i = resolve_type_ids_flat(*inner, scope, ctx);
            Type::Array(Box::new(i), resolve_expr_ids_flat(len, scope, ctx))
        },
        Type::Tuple(elems) => Type::Tuple(resolve_types(elems, scope, ctx)),
        Type::Mapping { timestamp, key, value } => {
            let a = resolve_type_ids_flat(*timestamp, scope, ctx);
            let b = resolve_type_ids_flat(*key, scope, ctx);
            let c = resolve_type_ids_flat(*value, scope, ctx);
            Type::Mapping { timestamp: Box::new(a), key: Box::new(b), value: Box::new(c) }
        },
        Type::Function { ref_id } => Type::Function { ref_id },
    }
}

fn resolve_types(es: Vec<Type>, scope: &Scope, ctx: &Context) -> (r: Vec<Type>)
    ensures
        types_of(r@) == resolved_types(types_of(es@), scope@, ctx@),
    decreases es,
{
    let ghost all = es@;
    let ghost ts = types_of(all);
    let mut out: Vec<Type> = Vec::new();
    proof {
        assert(ts.take(0) =~= seq![]);
    }
    #[verifier::loop_isolation(false)]
    for x in it: es
        invariant
            it.seq() == all,
            types_of(out@) == resolved_types(ts.take(it.index()), scope@, ctx@),
    {
        proof {
            let i = it.index();
            assert(ts.take(i + 1).drop_last() =~= ts.take(i));
            assert(ts.take(i + 1).last() == x@);
            assert(decreases_to!(all => all[i]));
        }
        out.push(resolve_type_ids_flat(x, scope, ctx));
    }
    proof {
        assert(ts.take(ts.len() as int) =~= ts);
    }
    out
}

/// Resolve an optional type.
pub fn resolve_opt_type(t: Option<Type>, scope: &Scope, ctx: &Context) -> (r: Option<Type>)
    ensures
        some_view(r) == resolved_opt_type(some_view(t), scope@, ctx@),
{
    match t {
        Some(t) => Some(resolve_type_ids_flat(t, scope, ctx)),
        None => None,
    }
}

/// Resolve the lvalue head now; field tails are deferred to exec-time.
fn resolve_lvalue_ids_flat(lv: LValue, scope: &Scope, ctx: &Context) -> (r: LValue)
    ensures
        r@ == resolved_lvalue(lv@, scope@, ctx@),
{
    let LValue { ref_id: _, head, tails } = lv;
    let ref_id = scope.resolve_path(&head);
    let ghost all = tails@;
    let ghost ts = tails_of(all);
    let mut out: Vec<LvTail> = Vec::new();
    #[verifier::loop_isolation(false)]
    for x in it: tails
        invariant
            it.seq() == all,
            out@.len() == it.index(),
            forall|j: int|
                0 <= j < it.index() ==> (#[trigger] out@[j])@ == resolved_tail(
                    ts[j],
                    scope@,
                    ctx@,
                ),
    {
        proof {
            assert(ts[it.index()] == x@);
        }
        let y = match x {
            LvTail::Index(e) => LvTail::Index(resolve_expr_ids_flat(e, scope, ctx)),
            LvTail::MapIndex(a, b) => {
                let k1 = resolve_expr_ids_flat(a, scope, ctx);
                let k2 = resolve_expr_ids_flat(b, scope, ctx);
                LvTail::MapIndex(k1, k2)
            },
            LvTail::Field { name } => LvTail::Field { name },
        };
        out.push(y);
    }
    proof {
        assert(tails_of(out@) =~= resolved_tails(ts, scope@, ctx@));
    }
    LValue { ref_id, head, tails: out }
}

/// What a resolution of statements ends with.
pub open spec fn stmts_outcome(
    r: Result<Vec<Stmt>, InitError>,
    ctx: ContextV,
    scope: ScopeV,
) -> Result<(Seq<StmtV>, EnvV), InitError> {
    match r {
        Ok(v) => Ok((stmts_of(v@), EnvV { ctx, scope })),
        Err(x) => Err(x),
    }
}

/// What a resolution of a statement ends with.
pub open spec fn stmt_outcome(
    r: Result<Stmt, InitError>,
    ctx: ContextV,
    scope: ScopeV,
) -> Result<(StmtV, EnvV), InitError> {
    match r {
        Ok(v) => Ok((v@, EnvV { ctx, scope })),
        Err(x) => Err(x),
    }
}

fn resolve_stmts(ss: Vec<Stmt>, ctx: &mut Context, scope: &mut Scope) -> (r: Result<
    Vec<Stmt>,
    InitError,
>)
    ensures
        stmts_outcome(r, final(ctx)@, final(scope)@) == resolved_stmts_from(
            stmts_of(ss@),
            0,
            seq![],
            EnvV { ctx: old(ctx)@, scope: old(scope)@ },
        ),
    decreases ss, 0int,
{
    let ghost all = ss@;
    let ghost ts = stmts_of(all);
    let ghost env = EnvV { ctx: ctx@, scope: scope@ };
    let mut out: Vec<Stmt> = Vec::new();
    #[verifier::loop_isolation(false)]
    for x in it: ss
        invariant
            it.seq() == all,
            resolved_stmts_from(ts, 0, seq![], env) == resolved_stmts_from(
                ts,
                it.index(),
                stmts_of(out@),
                EnvV { ctx: ctx@, scope: scope@ },
            ),
    {
        proof {
            assert(ts[it.index()] == x@);
            assert(decreases_to!(all => all[it.index()]));
        }
        match resolve_stmt_ids_flat(x, ctx, scope) {
            Ok(s) => out.push(s),
            Err(x) => return Err(x),
        }
    }
    Ok(out)
}

/// Resolve statements and bind locals.
fn resolve_stmt_ids_flat(s: Stmt, ctx: &mut Context, scope: &mut Scope) -> (r: Result<
    Stmt,
    InitError,
>)
    ensures
        stmt_outcome(r, final(ctx)@, final(scope)@) == resolved_stmt(
            s@,
            EnvV { ctx: old(ctx)@, scope: old(scope)@ },
        ),
    decreases s, 0int,
{
    match s {
        Stmt::VarDecl { ty, name, init, .. } => {
            let nid = match ctx.fresh_id() {
                Some(id) => id,
                None => return Err(InitError::TooManySymbols),
            };
            let ty = resolve_type_ids_flat(ty, scope, ctx);
            let init = resolve_expr_ids_flat(init, scope, ctx);
            scope.insert_local(name.clone(), nid);
            ctx.set_var_type(nid, ty.clone());
            Ok(Stmt::VarDecl { id: Some(nid), ty, name, init })
        },
        Stmt::Assign { target, value } => {
            let target = resolve_lvalue_ids_flat(target, scope, ctx);
            Ok(Stmt::Assign { target, value: resolve_expr_ids_flat(value, scope, ctx) })
        },
        Stmt::AndAssign { target, value } => {
            let target = resolve_lvalue_ids_flat(target, scope, ctx);
            Ok(Stmt::AndAssign { target, value: resolve_expr_ids_flat(value, scope, ctx) })
        },
        Stmt::For { var, start, end, body, .. } => {
            let start = resolve_expr_ids_flat(start, scope, ctx);
            let end = resolve_expr_ids_flat(end, scope, ctx);
            scope.push();
            let nid = match ctx.fresh_id() {
                Some(id) => id,
                None => return Err(InitError::TooManySymbols),
            };
            scope.insert_local(var.clone(), nid);
            let body = match resolve_stmts(body, ctx, scope) {
                Ok(b) => b,
                Err(x) => return Err(x),
            };
            scope.pop();
            Ok(Stmt::For { id: Some(nid), var, start, end, body })
        },
        Stmt::If { cond, then_branch, else_branch } => {
            let cond = resolve_expr_ids_flat(cond, scope, ctx);
            scope.push();
            let then_branch = match resolve_stmts(then_branch, ctx, scope) {
                Ok(b) => b,
                Err(x) => return Err(x),
            };
            scope.pop();
            scope.push();
            let else_branch = match resolve_stmts(else_branch, ctx, scope) {
                Ok(b) => b,
                Err(x) => return Err(x),
            };
            scope.pop();
            Ok(Stmt::If { cond, then_branch, else_branch })
        },
        Stmt::AssertBool(e) => Ok(Stmt::AssertBool(resolve_expr_ids_flat(e, scope, ctx))),
        Stmt::AssertZero(e) => Ok(Stmt::AssertZero(resolve_expr_ids_flat(e, scope, ctx))),
        Stmt::AssertEq(a, b) => {
            let a = resolve_expr_ids_flat(a, scope, ctx);
            Ok(Stmt::AssertEq(a, resolve_expr_ids_flat(b, scope, ctx)))
        },
        Stmt::AssertRange { value, ty } => {
            let value = resolve_expr_ids_flat(value, scope, ctx);
            Ok(Stmt::AssertRange { value, ty: resolve_type_ids_flat(ty, scope, ctx) })
        },
        Stmt::Lookup { chip, opcode, args } => {
            let opcode = resolve_expr_ids_flat(opcode, scope, ctx);
            Ok(Stmt::Lookup { chip, opcode, args: resolve_exprs(args, scope, ctx) })
        },
        Stmt::Call { callee, args } => {
            let callee = resolve_lvalue_ids_flat(callee, scope, ctx);
            Ok(Stmt::Call { callee, args: resolve_exprs(args, scope, ctx) })
        },
        Stmt::Return(e) => Ok(Stmt::Return(resolve_expr_ids_flat(e, scope, ctx))),
    }
}

fn resolve_param(p: Param, owner: Option<i64>, ctx: &mut Context, scope: &mut Scope) -> (r: Result<
    Param,
    InitError,
>)
    ensures
        match r {
            Ok(q) => resolved_param(p@, owner, EnvV { ctx: old(ctx)@, scope: old(scope)@ }) == Ok::<
                (ParamV, EnvV),
                InitError,
            >((q@, EnvV { ctx: final(ctx)@, scope: final(scope)@ })),
            Err(x) => resolved_param(p@, owner, EnvV { ctx: old(ctx)@, scope: old(scope)@ })
                == Err::<(ParamV, EnvV), InitError>(x),
        },
{
    let nid = match ctx.fresh_id() {
        Some(id) => id,
        None => return Err(InitError::TooManySymbols),
    };
    match p {
        Param::SelfParam { .. } => {
            scope.insert_local("self".to_string(), nid);
            if let Some(sid) = owner {
                match ctx.struct_type(sid) {
                    Some(ty) => ctx.set_var_type(nid, ty),
                    None => return Err(InitError::MissingStructName),
                }
            }
            Ok(Param::SelfParam { id: Some(nid) })
        },
        Param::Typed { name, ty, io, .. } => {
            let ty = resolve_type_ids_flat(ty, scope, ctx);
            scope.insert_local(name.clone(), nid);
            ctx.set_var_type(nid, ty.clone());
            Ok(Param::Typed { id: Some(nid), name, ty, io })
        },
    }
}

/// Resolve params/locals/body in a fresh local frame and record the types of variables.
pub fn resolve_func_flat(fun: Func, ctx: &mut Context, scope: &mut Scope) -> (r: Result<
    Func,
    InitError,
>)
    ensures
        match r {
            Ok(f) => resolved_func(fun@, EnvV { ctx: old(ctx)@, scope: old(scope)@ }) == Ok::<
                (FuncV, EnvV),
                InitError,
            >((f@, EnvV { ctx: final(ctx)@, scope: final(scope)@ })),
            Err(x) => resolved_func(fun@, EnvV { ctx: old(ctx)@, scope: old(scope)@ }) == Err::<
                (FuncV, EnvV),
                InitError,
            >(x),
        },
{
    let Func { id, name, params, ret, body } = fun;
    let fid = match id {
        Some(fid) => fid,
        None => return Err(InitError::MissingId),
    };
    scope.push();
    let owner = ctx.method_owner(fid);
    let ghost all = params@;
    let ghost ps = params_of(all);
    let ghost env = EnvV { ctx: ctx@, scope: scope@ };
    let mut out: Vec<Param> = Vec::new();
    #[verifier::loop_isolation(false)]
    for p in it: params
        invariant
            it.seq() == all,
            resolved_params_from(ps, 0, seq![], owner, env) == resolved_params_from(
                ps,
                it.index(),
                params_of(out@),
                owner,
                EnvV { ctx: ctx@, scope: scope@ },
            ),
    {
        proof {
            assert(ps[it.index()] == p@);
        }
        match resolve_param(p, owner, ctx, scope) {
            Ok(q) => out.push(q),
            Err(x) => return Err(x),
        }
    }
    let ret = resolve_opt_type(ret, scope, ctx);
    let body = match resolve_stmts(body, ctx, scope) {
        Ok(b) => b,
        Err(x) => return Err(x),
    };
    scope.pop();
    Ok(Func { id, name, params: out, ret, body })
}

} // verus!
