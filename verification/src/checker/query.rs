//! Equivalence queries: what is compared, and the formulas that decide it.

use std::collections::HashMap;
use std::rc::Rc;
use vstd::prelude::*;
use vstd::slice::slice_subrange;
use crate::ast::helpers::{
    component_view, components_of, member_func, param_io, query_exprs, ComponentV,
};
use crate::ast::{
    exprs_of, fields_of, items_of, members_of, paths_of, Expr, ExprV, Field, FieldV, File, FileV,
    Func, FuncV, IOType, Item, ItemV, Member, MemberV, Query,
};
use crate::checker::drive::{conclusion_view, follows, run_tasks};
use crate::checker::solver::{backend_from_config, selected};
use crate::checker::symbolic::context::{lookup, Context, ContextV, PathKind};
use crate::checker::symbolic::error::ExecError;
use crate::checker::symbolic::execute::SymbolicExecutor;
use crate::checker::symbolic::expr::{
    conj, disj, formulas_of, BoolExpr, Formula, SymExpr, Term,
};
use crate::checker::symbolic::meaning::{
    all_hold, conj_keeps_truth, disj_keeps_truth, holds, lemma_all_index, lemma_some_index,
    some_holds, value,
};
use crate::checker::symbolic::results::{outcomes_in, pop_outcome, OutcomeV, Outcomes};
use crate::checker::symbolic::semantics::{interp, run_of};
use crate::checker::symbolic::state::{
    initial_state, share, views, EventV, MemoryEvent, StateV, SymState,
};
use crate::checker::symbolic::store::{
    as_ints, key_list, node_pairs, term_pairs, FieldMap, NodeV, StoreNode,
};
use crate::checker::task::{
    ends_in_failure, fail, failed, failing, no_spot, start_spot, tasks_of, CheckError, CheckFault,
    Spot, Task, TaskV,
};
use crate::text::{same_text, texts};
use crate::utils::SetConfig;
use crate::view::{ok_view, some_view};

verus! {

broadcast use {
    crate::ast::lists::group_lists,
    crate::checker::symbolic::expr_lists::group_lists,
    crate::checker::task::lemma_tasks_push,
};

/// Pairs of terms.
pub type PairsV = Seq<(Term, Term)>;

/// How deep expressions, statements and calls may nest: deeper than any machine can.
pub const NESTING: usize = usize::MAX;

/// The roles of the fields from `i` on, besides those in `acc`.
pub open spec fn roles_from(fields: Seq<FieldV>, i: int, acc: Map<i64, IOType>) -> Result<
    Map<i64, IOType>,
    CheckFault,
>
    decreases fields.len() - i,
{
    if i < 0 || i >= fields.len() {
        Ok(acc)
    } else {
        match fields[i].id {
            None => Err(CheckFault::UnresolvedField),
            Some(fid) => roles_from(fields, i + 1, acc.insert(fid, fields[i].io)),
        }
    }
}

/// The roles of the fields of the struct with an id, among the items from `i` on.
pub open spec fn struct_roles(items: Seq<ItemV>, i: int, sid: i64) -> Result<
    Map<i64, IOType>,
    CheckFault,
>
    decreases items.len() - i,
{
    if i < 0 || i >= items.len() {
        Err(CheckFault::NoStruct)
    } else {
        match items[i] {
            ItemV::Struct { id, fields, .. } => if id == Some(sid) {
                roles_from(fields, 0, Map::empty())
            } else {
                struct_roles(items, i + 1, sid)
            },
            _ => struct_roles(items, i + 1, sid),
        }
    }
}

/// A query that is ready to be checked.
pub struct QueryCheckV {
    pub items: Seq<ItemV>,
    pub ctx: ContextV,
    pub lhs: FuncV,
    pub rhs: FuncV,
    pub lhs_paths: Seq<Seq<Seq<char>>>,
    pub rhs_paths: Seq<Seq<Seq<char>>>,
    pub lhs_roots: Seq<ExprV>,
    pub rhs_roots: Seq<ExprV>,
}

/// Input and output pairs with more pairs of a role.
pub open spec fn sorted_in(ins: PairsV, outs: PairsV, role: IOType, ps: PairsV) -> (PairsV, PairsV) {
    match role {
        IOType::Input => (ins + ps, outs),
        IOType::Output => (ins, outs + ps),
    }
}

/// The pairs of the fields with the keys from `i` on, besides those found before.
pub open spec fn field_pairs(
    keys: Seq<int>,
    i: int,
    lf: Map<int, NodeV>,
    rf: Map<int, NodeV>,
    roles: Map<i64, IOType>,
    ins: PairsV,
    outs: PairsV,
) -> Result<(PairsV, PairsV), CheckFault>
    decreases keys.len() - i,
{
    if i < 0 || i >= keys.len() {
        Ok((ins, outs))
    } else {
        match lookup(roles, keys[i] as i64) {
            None => Err(CheckFault::FieldRole),
            Some(role) => match (lookup(lf, keys[i]), lookup(rf, keys[i])) {
                (Some(l), Some(r)) => match node_pairs(l, r) {
                    Err(x) => Err(CheckFault::Shape(x)),
                    Ok(ps) => {
                        let (ins2, outs2) = sorted_in(ins, outs, role, ps);
                        field_pairs(keys, i + 1, lf, rf, roles, ins2, outs2)
                    },
                },
                _ => Err(CheckFault::MissingField),
            },
        }
    }
}

/// The node of a root at the end of a path.
pub open spec fn root_node(st: StateV, root: ExprV, missing: CheckFault) -> Result<NodeV, CheckFault> {
    match st.expr_node(root) {
        Err(x) => Err(CheckFault::Exec(x)),
        Ok(None) => Err(missing),
        Ok(Some(n)) => Ok(n),
    }
}

/// The pairs of memory events from `i` on, behind `outs`.
pub open spec fn event_pairs(ls: Seq<EventV>, rs: Seq<EventV>, i: int, outs: PairsV) -> Result<
    PairsV,
    CheckFault,
>
    decreases ls.len() - i,
{
    if i < 0 || i >= ls.len() || i >= rs.len() {
        Ok(outs)
    } else if ls[i].kind != rs[i].kind {
        Err(CheckFault::EventKind)
    } else {
        event_pairs(
            ls,
            rs,
            i + 1,
            outs.push((ls[i].clk, rs[i].clk)).push((ls[i].addr, rs[i].addr)).push(
                (ls[i].value, rs[i].value),
            ),
        )
    }
}

/// The equations of pairs.
pub open spec fn equations(ps: PairsV) -> Seq<Formula> {
    Seq::new(ps.len(), |i: int| Formula::Eq(ps[i].0, ps[i].1))
}

/// The disequations of pairs.
pub open spec fn differences(ps: PairsV) -> Seq<Formula> {
    Seq::new(ps.len(), |i: int| Formula::Ne(ps[i].0, ps[i].1))
}

/// All pairs are equal.
pub open spec fn equal_pairs(ps: PairsV) -> Formula {
    if ps.len() == 0 {
        Formula::Bool(true)
    } else {
        conj(equations(ps))
    }
}

/// The formula for a counterexample: both paths are taken, the inputs are equal and an output
/// differs.
pub open spec fn counterexample(l: StateV, r: StateV, ins: PairsV, outs: PairsV) -> Formula {
    conj(
        seq![
            conj(l.path_cond),
            conj(r.path_cond),
            equal_pairs(ins),
            disj(differences(outs)),
        ],
    )
}

/// The formula of a path pair holds of exactly those inputs that take both paths, agree on all
/// input pairs and tell some output pair apart.
pub proof fn counterexample_is_exact(
    l: StateV,
    r: StateV,
    ins: PairsV,
    outs: PairsV,
    env: spec_fn(Seq<char>) -> int,
)
    ensures
        holds(counterexample(l, r, ins, outs), env) == (all_hold(l.path_cond, env) && all_hold(
            r.path_cond,
            env,
        ) && (forall|i: int|
            0 <= i < ins.len() ==> value((#[trigger] ins[i]).0, env) == value(ins[i].1, env)) && (
        exists|i: int|
            0 <= i < outs.len() && value((#[trigger] outs[i]).0, env) != value(outs[i].1, env))),
{
    let parts = seq![
        conj(l.path_cond),
        conj(r.path_cond),
        equal_pairs(ins),
        disj(differences(outs)),
    ];
    conj_keeps_truth(parts, env);
    conj_keeps_truth(l.path_cond, env);
    conj_keeps_truth(r.path_cond, env);
    conj_keeps_truth(equations(ins), env);
    disj_keeps_truth(differences(outs), env);
    lemma_all_index(parts, env);
    lemma_all_index(equations(ins), env);
    lemma_some_index(differences(outs), env);
    assert(all_hold(parts, env) == (holds(parts[0], env) && holds(parts[1], env) && holds(
        parts[2],
        env,
    ) && holds(parts[3], env)));
    let eqs = equations(ins);
    let nes = differences(outs);
    assert forall|i: int| 0 <= i < ins.len() implies holds(#[trigger] eqs[i], env) == (value(
        ins[i].0,
        env,
    ) == value(ins[i].1, env)) by {
        assert(eqs[i] == Formula::Eq(ins[i].0, ins[i].1));
    }
    assert forall|i: int| 0 <= i < outs.len() implies holds(#[trigger] nes[i], env) == (value(
        outs[i].0,
        env,
    ) != value(outs[i].1, env)) by {
        assert(nes[i] == Formula::Ne(outs[i].0, outs[i].1));
    }
    let same = forall|i: int|
        0 <= i < ins.len() ==> value((#[trigger] ins[i]).0, env) == value(ins[i].1, env);
    let differ = exists|i: int|
        0 <= i < outs.len() && value((#[trigger] outs[i]).0, env) != value(outs[i].1, env);
    assert(holds(equal_pairs(ins), env) == same) by {
        if ins.len() > 0 {
            if same {
                assert forall|i: int| 0 <= i < eqs.len() implies holds(#[trigger] eqs[i], env) by {
                    assert(ins[i] == ins[i]);
                }
            }
            if holds(equal_pairs(ins), env) {
                assert forall|i: int| 0 <= i < ins.len() implies value((#[trigger] ins[i]).0, env)
                    == value(ins[i].1, env) by {
                    assert(holds(eqs[i], env));
                }
            }
        }
    }
    assert(holds(disj(nes), env) == differ) by {
        if differ {
            let i = choose|i: int|
                0 <= i < outs.len() && value((#[trigger] outs[i]).0, env) != value(outs[i].1, env);
            assert(holds(nes[i], env));
        }
        if some_holds(nes, env) {
            let i = choose|i: int| 0 <= i < nes.len() && holds(#[trigger] nes[i], env);
            assert(outs[i] == outs[i]);
        }
    }
}

impl QueryCheckV {
    /// The pairs that a root contributes, besides those found before.
    #[verifier::opaque]
    pub open spec fn root_pairs(self, k: int, l: StateV, r: StateV, ins: PairsV, outs: PairsV) -> Result<
        (PairsV, PairsV),
        CheckFault,
    > {
        match (self.ctx.infer(self.lhs_roots[k]), self.ctx.infer(self.rhs_roots[k])) {
            (None, _) => Err(CheckFault::LhsType),
            (_, None) => Err(CheckFault::RhsType),
            (Some(lt), Some(rt)) => match (self.ctx.classify(lt), self.ctx.classify(rt)) {
                (Ok(PathKind::Struct(a)), Ok(PathKind::Struct(b))) => if a != b {
                    Err(CheckFault::StructTypes)
                } else {
                    self.struct_pairs(k, a, l, r, ins, outs)
                },
                _ => self.param_pairs(k, l, r, ins, outs),
            },
        }
    }

    /// The pairs that a struct root contributes, by the roles of its fields.
    #[verifier::opaque]
    pub open spec fn struct_pairs(
        self,
        k: int,
        sid: i64,
        l: StateV,
        r: StateV,
        ins: PairsV,
        outs: PairsV,
    ) -> Result<(PairsV, PairsV), CheckFault> {
        match struct_roles(self.items, 0, sid) {
            Err(x) => Err(x),
            Ok(roles) => match root_node(l, self.lhs_roots[k], CheckFault::LhsRoot) {
                Err(x) => Err(x),
                Ok(ln) => match root_node(r, self.rhs_roots[k], CheckFault::RhsRoot) {
                    Err(x) => Err(x),
                    Ok(rn) => match (ln, rn) {
                        (NodeV::Struct { fields: lf }, NodeV::Struct { fields: rf }) => if lf.dom().len()
                            != rf.dom().len() {
                            Err(CheckFault::FieldCount)
                        } else {
                            field_pairs(key_list(lf.dom()), 0, lf, rf, roles, ins, outs)
                        },
                        _ => Err(CheckFault::NotAStruct),
                    },
                },
            },
        }
    }

    /// The pairs that another root contributes, by the role of its parameter.
    #[verifier::opaque]
    pub open spec fn param_pairs(self, k: int, l: StateV, r: StateV, ins: PairsV, outs: PairsV) -> Result<
        (PairsV, PairsV),
        CheckFault,
    > {
        match (
            param_io(self.lhs.params, self.lhs_paths[k + 1]),
            param_io(self.rhs.params, self.rhs_paths[k + 1]),
        ) {
            (None, _) => Err(CheckFault::LhsRole),
            (_, None) => Err(CheckFault::RhsRole),
            (Some(a), Some(b)) => if a != b {
                Err(CheckFault::RoleMismatch)
            } else {
                match root_node(l, self.lhs_roots[k], CheckFault::LhsRoot) {
                    Err(x) => Err(x),
                    Ok(ln) => match root_node(r, self.rhs_roots[k], CheckFault::RhsRoot) {
                        Err(x) => Err(x),
                        Ok(rn) => match node_pairs(ln, rn) {
                            Err(x) => Err(CheckFault::Shape(x)),
                            Ok(ps) => Ok(sorted_in(ins, outs, a, ps)),
                        },
                    },
                }
            },
        }
    }

    /// The pairs that the roots from `k` on contribute, besides those found before.
    pub open spec fn all_pairs(self, k: int, l: StateV, r: StateV, ins: PairsV, outs: PairsV) -> Result<
        (PairsV, PairsV),
        CheckFault,
    >
        decreases self.lhs_roots.len() - k,
    {
        if k < 0 || k >= self.lhs_roots.len() {
            Ok((ins, outs))
        } else {
            match self.root_pairs(k, l, r, ins, outs) {
                Err(x) => Err(x),
                Ok((ins2, outs2)) => self.all_pairs(k + 1, l, r, ins2, outs2),
            }
        }
    }

    /// The formula that decides a path pair.
    #[verifier::opaque]
    pub open spec fn obligation(self, l: StateV, r: StateV) -> Result<Formula, CheckFault> {
        match self.all_pairs(0, l, r, seq![], seq![]) {
            Err(x) => Err(x),
            Ok((ins, outs)) => if l.events.len() != r.events.len() {
                Err(CheckFault::TraceLength)
            } else {
                match event_pairs(l.events, r.events, 0, outs) {
                    Err(x) => Err(x),
                    Ok(outs2) => if outs2.len() == 0 {
                        Err(CheckFault::NoOutputs)
                    } else {
                        Ok(counterexample(l, r, ins, outs2))
                    },
                }
            },
        }
    }

    /// The steps for the path pairs from `(i, j)` on, behind `acc`.
    pub open spec fn pair_tasks(
        self,
        name: Seq<char>,
        ls: Seq<StateV>,
        rs: Seq<StateV>,
        i: int,
        j: int,
        acc: Seq<TaskV>,
    ) -> Seq<TaskV>
        decreases ls.len() - i, rs.len() - j,
    {
        if i < 0 || j < 0 || i >= ls.len() {
            acc.push(TaskV::Passed { component: name })
        } else if j >= rs.len() {
            self.pair_tasks(name, ls, rs, i + 1, 0, acc)
        } else {
            let spot = Spot { first: i as usize, second: j as usize, third: 0 };
            match self.obligation(ls[i], rs[j]) {
                Err(x) => acc.push(failing(name, spot, x)),
                Ok(phi) => self.pair_tasks(
                    name,
                    ls,
                    rs,
                    i,
                    j + 1,
                    acc.push(TaskV::Solve { component: name, spot, phi, wanted: false }),
                ),
            }
        }
    }
}

/// The states of outcomes.
pub open spec fn end_states(rs: Seq<OutcomeV>) -> Seq<StateV> {
    Seq::new(rs.len(), |i: int| rs[i].1)
}

/// The greatest number of symbols drawn on any path.
pub open spec fn most_fresh(states: Seq<StateV>) -> usize
    decreases states.len(),
{
    if states.len() == 0 {
        0
    } else {
        let rest = most_fresh(states.drop_last());
        if states.last().fresh > rest {
            states.last().fresh
        } else {
            rest
        }
    }
}

/// The states at the ends of a function with fresh parameters, its symbols numbered from `start`
/// on.
#[verifier::opaque]
pub open spec fn runs_of(f: FuncV, ctx: ContextV, start: usize, sid: Option<i64>, depth: nat) -> Result<
    Seq<StateV>,
    ExecError,
> {
    match (StateV { fresh: start, ..initial_state(ctx) }).with_fresh_params(f.params, 0, sid) {
        Err(x) => Err(x),
        Ok(st) => match run_of(f, st, interp(depth)) {
            Err(x) => Err(x),
            Ok(rs) => Ok(end_states(rs)),
        },
    }
}

/// The first member of a name, from `i` on.
pub open spec fn member_called(members: Seq<MemberV>, i: int, name: Seq<char>) -> Option<MemberV>
    decreases members.len() - i,
{
    if i < 0 || i >= members.len() {
        None
    } else if member_func(members[i]).name == name {
        Some(members[i])
    } else {
        member_called(members, i + 1, name)
    }
}

/// The name of the member that a query side is about.
pub open spec fn query_head(side: Seq<Seq<Seq<char>>>) -> Result<Seq<char>, CheckFault> {
    if side.len() == 0 || side[0].len() == 0 {
        Err(CheckFault::EmptyQuery)
    } else {
        Ok(side[0].last())
    }
}

/// The roots of a query side.
pub open spec fn side_roots(f: FuncV, side: Seq<Seq<Seq<char>>>) -> Result<Seq<ExprV>, CheckFault> {
    match query_exprs(f.params, side.subrange(1, side.len() as int)) {
        Err(x) => Err(CheckFault::Root(x)),
        Ok(es) => Ok(es),
    }
}

/// The query of a component, ready to be checked.
#[verifier::opaque]
pub open spec fn prepared(items: Seq<ItemV>, ctx: ContextV, comp: ComponentV) -> Result<
    QueryCheckV,
    CheckFault,
> {
    match comp.3 {
        None => Err(CheckFault::MissingQuery),
        Some(q) => match (query_head(q.lhs), query_head(q.rhs)) {
            (Err(x), _) => Err(x),
            (_, Err(x)) => Err(x),
            (Ok(lh), Ok(rh)) => match (
                member_called(comp.2, 0, lh),
                member_called(comp.2, 0, rh),
            ) {
                (None, _) => Err(CheckFault::LhsMember),
                (_, None) => Err(CheckFault::RhsMember),
                (Some(lm), Some(rm)) => if q.lhs.len() != q.rhs.len() {
                    Err(CheckFault::QueryLength)
                } else if q.lhs.len() < 2 {
                    Err(CheckFault::NoRoots)
                } else {
                    match (
                        side_roots(member_func(lm), q.lhs),
                        side_roots(member_func(rm), q.rhs),
                    ) {
                        (Err(x), _) => Err(x),
                        (_, Err(x)) => Err(x),
                        (Ok(lr), Ok(rr)) => Ok(
                            QueryCheckV {
                                items,
                                ctx,
                                lhs: member_func(lm),
                                rhs: member_func(rm),
                                lhs_paths: q.lhs,
                                rhs_paths: q.rhs,
                                lhs_roots: lr,
                                rhs_roots: rr,
                            },
                        ),
                    }
                },
            },
        },
    }
}

/// The states at the ends of both sides of a query; the symbols of the right side come after those
/// of the left.
#[verifier::opaque]
pub open spec fn both_runs(q: QueryCheckV, depth: nat) -> Result<
    (Seq<StateV>, Seq<StateV>),
    CheckFault,
> {
    match q.lhs.id {
        None => Err(CheckFault::UnresolvedFunction),
        Some(fid) => {
            let sid = lookup(q.ctx.func_owner, fid);
            match runs_of(q.lhs, q.ctx, 0, sid, depth) {
                Err(x) => Err(CheckFault::Exec(x)),
                Ok(ls) => if ls.len() == 0 {
                    Err(CheckFault::NoLhsPaths)
                } else {
                    match runs_of(q.rhs, q.ctx, most_fresh(ls), sid, depth) {
                        Err(x) => Err(CheckFault::Exec(x)),
                        Ok(rs) => if rs.len() == 0 {
                            Err(CheckFault::NoRhsPaths)
                        } else {
                            Ok((ls, rs))
                        },
                    }
                },
            }
        },
    }
}

/// The steps for a component.
pub open spec fn component_tasks(items: Seq<ItemV>, ctx: ContextV, comp: ComponentV, depth: nat) -> Seq<
    TaskV,
> {
    match prepared(items, ctx, comp) {
        Err(x) => seq![failing(comp.1, no_spot(), x)],
        Ok(q) => match both_runs(q, depth) {
            Err(x) => seq![failing(comp.1, no_spot(), x)],
            Ok((ls, rs)) => q.pair_tasks(comp.1, ls, rs, 0, 0, seq![]),
        },
    }
}

/// The steps for the components from `i` on, behind `acc`, up to the first failure.
pub open spec fn plan_from(
    items: Seq<ItemV>,
    ctx: ContextV,
    comps: Seq<ComponentV>,
    i: int,
    depth: nat,
    acc: Seq<TaskV>,
) -> Seq<TaskV>
    decreases comps.len() - i,
{
    if i < 0 || i >= comps.len() {
        acc
    } else {
        let ts = component_tasks(items, ctx, comps[i], depth);
        if failed(ts) {
            acc + ts
        } else {
            plan_from(items, ctx, comps, i + 1, depth, acc + ts)
        }
    }
}

/// The steps of the equivalence check of a file.
pub open spec fn equivalence_plan(file: FileV, ctx: ContextV, depth: nat) -> Seq<TaskV> {
    plan_from(file.items, ctx, components_of(file.items), 0, depth, seq![])
}

fn field_roles(fields: &Vec<Field>) -> (r: Result<HashMap<i64, IOType>, CheckFault>)
    ensures
        ok_view(r) == roles_from(fields_of(fields@), 0, Map::empty()),
{
    let ghost fs = fields_of(fields@);
    let mut roles: HashMap<i64, IOType> = HashMap::new();
    #[verifier::loop_isolation(false)]
    for i in 0..fields.len()
        invariant
            roles_from(fs, 0, Map::empty()) == roles_from(fs, i as int, roles@),
    {
        proof {
            assert(fs[i as int] == fields@[i as int]@);
        }
        match fields[i].id {
            None => return Err(CheckFault::UnresolvedField),
            Some(fid) => {
                roles.insert(fid, fields[i].io);
            },
        }
    }
    Ok(roles)
}

/// Build a map from field id to IOType for the given struct id.
fn build_field_roles(items: &Vec<Item>, struct_id: i64) -> (r: Result<
    HashMap<i64, IOType>,
    CheckFault,
>)
    ensures
        ok_view(r) == struct_roles(items_of(items@), 0, struct_id),
{
    let ghost all = items_of(items@);
    #[verifier::loop_isolation(false)]
    for i in 0..items.len()
        invariant
            struct_roles(all, 0, struct_id) == struct_roles(all, i as int, struct_id),
    {
        proof {
            assert(all[i as int] == items@[i as int]@);
        }
        if let Item::Struct { id, fields, .. } = &items[i] {
            if let Some(sid) = *id {
                if sid == struct_id {
                    return field_roles(fields);
                }
            }
        }
    }
    Err(CheckFault::NoStruct)
}

/// Pairs of expressions that are compared: those of inputs and those of outputs.
struct Pairs {
    ins: Vec<(SymExpr, SymExpr)>,
    outs: Vec<(SymExpr, SymExpr)>,
}

impl Pairs {
    spec fn both(self) -> (PairsV, PairsV) {
        (term_pairs(self.ins@), term_pairs(self.outs@))
    }
}

/// The outcome of collecting pairs.
spec fn pairs_view(r: Result<Pairs, CheckFault>) -> Result<(PairsV, PairsV), CheckFault> {
    match r {
        Ok(p) => Ok(p.both()),
        Err(x) => Err(x),
    }
}

/// Collects the pairs of two nodes under a role.
fn add_pairs(p: Pairs, role: IOType, l: &StoreNode, r: &StoreNode) -> (out: Result<Pairs, CheckFault>)
    ensures
        pairs_view(out) == match node_pairs(l@, r@) {
            Err(x) => Err(CheckFault::Shape(x)),
            Ok(ps) => Ok(sorted_in(p.both().0, p.both().1, role, ps)),
        },
{
    let mut p = p;
    match role {
        IOType::Input => match l.collect_scalar_pairs_with(r, &mut p.ins) {
            Ok(_) => Ok(p),
            Err(x) => Err(CheckFault::Shape(x)),
        },
        IOType::Output => match l.collect_scalar_pairs_with(r, &mut p.outs) {
            Ok(_) => Ok(p),
            Err(x) => Err(CheckFault::Shape(x)),
        },
    }
}

fn collect_fields(lf: &FieldMap, rf: &FieldMap, roles: &HashMap<i64, IOType>, p: Pairs) -> (out: Result<
    Pairs,
    CheckFault,
>)
    ensures
        pairs_view(out) == field_pairs(
            key_list(lf@.dom()),
            0,
            lf@,
            rf@,
            roles@,
            p.both().0,
            p.both().1,
        ),
{
    let keys = lf.sorted_keys();
    let ghost ks = key_list(lf@.dom());
    let ghost start = p.both();
    let mut p = p;
    #[verifier::loop_isolation(false)]
    for i in 0..keys.len()
        invariant
            field_pairs(ks, 0, lf@, rf@, roles@, start.0, start.1) == field_pairs(
                ks,
                i as int,
                lf@,
                rf@,
                roles@,
                p.both().0,
                p.both().1,
            ),
    {
        let fid: i64 = keys[i] as i64;
        proof {
            assert(ks[i as int] == as_ints(keys@)[i as int]);
            assert(fid == ks[i as int]);
        }
        let role = match roles.get(&fid) {
            Some(r) => *r,
            None => return Err(CheckFault::FieldRole),
        };
        let l = match lf.get(fid) {
            Some(n) => n,
            None => return Err(CheckFault::MissingField),
        };
        let r = match rf.get(fid) {
            Some(n) => n,
            None => return Err(CheckFault::MissingField),
        };
        p = add_pairs(p, role, l, r)?;
    }
    Ok(p)
}

fn node_of_root<'a>(st: &'a SymState, root: &Expr, missing: CheckFault) -> (r: Result<
    &'a StoreNode,
    CheckFault,
>)
    ensures
        match r {
            Ok(n) => root_node(st@, root@, missing) == Ok::<NodeV, CheckFault>(n@),
            Err(x) => root_node(st@, root@, missing) == Err::<NodeV, CheckFault>(x),
        },
{
    match st.query_expr_node(root) {
        Err(x) => Err(CheckFault::Exec(x)),
        Ok(None) => Err(missing),
        Ok(Some(n)) => Ok(n),
    }
}

/// Per-component query checking environment.
pub struct QueryCheck<'a> {
    items: &'a Vec<Item>,
    ctx: &'a Context,
    lhs_func: &'a Func,
    rhs_func: &'a Func,
    lhs_paths: &'a Vec<Vec<String>>,
    rhs_paths: &'a Vec<Vec<String>>,
    lhs_roots: Vec<Expr>,
    rhs_roots: Vec<Expr>,
}

impl<'a> View for QueryCheck<'a> {
    type V = QueryCheckV;

    closed spec fn view(&self) -> QueryCheckV {
        QueryCheckV {
            items: items_of(self.items@),
            ctx: self.ctx@,
            lhs: self.lhs_func@,
            rhs: self.rhs_func@,
            lhs_paths: paths_of(self.lhs_paths@),
            rhs_paths: paths_of(self.rhs_paths@),
            lhs_roots: exprs_of(self.lhs_roots@),
            rhs_roots: exprs_of(self.rhs_roots@),
        }
    }
}

impl<'a> QueryCheck<'a> {
    /// Every root has a path, and both sides have the same number of roots.
    spec fn wf(self) -> bool {
        &&& self.lhs_paths@.len() == self.lhs_roots@.len() + 1
        &&& self.rhs_paths@.len() == self.rhs_roots@.len() + 1
        &&& self.lhs_roots@.len() == self.rhs_roots@.len()
    }

    fn collect_struct(&self, k: usize, sid: i64, l: &SymState, r: &SymState, p: Pairs) -> (out: Result<
        Pairs,
        CheckFault,
    >)
        requires
            self.wf(),
            k < self.lhs_roots@.len(),
        ensures
            pairs_view(out) == self@.struct_pairs(k as int, sid, l@, r@, p.both().0, p.both().1),
    {
        proof {
            reveal(QueryCheckV::struct_pairs);
        }
        proof {
            assert(self@.lhs_roots[k as int] == self.lhs_roots@[k as int]@);
            assert(self@.rhs_roots[k as int] == self.rhs_roots@[k as int]@);
        }
        let roles = build_field_roles(self.items, sid)?;
        let ln = node_of_root(l, &self.lhs_roots[k], CheckFault::LhsRoot)?;
        let rn = node_of_root(r, &self.rhs_roots[k], CheckFault::RhsRoot)?;
        match (ln, rn) {
            (StoreNode::Struct { fields: lf }, StoreNode::Struct { fields: rf }) => {
                if lf.len() != rf.len() {
                    return Err(CheckFault::FieldCount);
                }
                collect_fields(lf, rf, &roles, p)
            },
            _ => Err(CheckFault::NotAStruct),
        }
    }

    fn collect_param(&self, k: usize, l: &SymState, r: &SymState, p: Pairs) -> (out: Result<
        Pairs,
        CheckFault,
    >)
        requires
            self.wf(),
            k < self.lhs_roots@.len(),
        ensures
            pairs_view(out) == self@.param_pairs(k as int, l@, r@, p.both().0, p.both().1),
    {
        proof {
            reveal(QueryCheckV::param_pairs);
        }
        proof {
            assert(self@.lhs_roots[k as int] == self.lhs_roots@[k as int]@);
            assert(self@.rhs_roots[k as int] == self.rhs_roots@[k as int]@);
            assert(self@.lhs_paths[k + 1] == texts(self.lhs_paths@[k + 1]@));
            assert(self@.rhs_paths[k + 1] == texts(self.rhs_paths@[k + 1]@));
        }
        let n = self.lhs_paths.len();
        proof {
            assert(k + 1 < n);
        }
        let a = match self.lhs_func.param_io_for_query_path(self.lhs_paths[k + 1].as_slice()) {
            Some(io) => io,
            None => return Err(CheckFault::LhsRole),
        };
        let b = match self.rhs_func.param_io_for_query_path(self.rhs_paths[k + 1].as_slice()) {
            Some(io) => io,
            None => return Err(CheckFault::RhsRole),
        };
        if a != b {
            return Err(CheckFault::RoleMismatch);
        }
        let ln = node_of_root(l, &self.lhs_roots[k], CheckFault::LhsRoot)?;
        let rn = node_of_root(r, &self.rhs_roots[k], CheckFault::RhsRoot)?;
        add_pairs(p, a, ln, rn)
    }

    /// Collect scalar input/output pairs contributed by the k-th root pair.
    fn collect_root_pairs(&self, k: usize, l: &SymState, r: &SymState, p: Pairs) -> (out: Result<
        Pairs,
        CheckFault,
    >)
        requires
            self.wf(),
            k < self.lhs_roots@.len(),
        ensures
            pairs_view(out) == self@.root_pairs(k as int, l@, r@, p.both().0, p.both().1),
    {
        proof {
            reveal(QueryCheckV::root_pairs);
        }
        proof {
            assert(self@.lhs_roots[k as int] == self.lhs_roots@[k as int]@);
            assert(self@.rhs_roots[k as int] == self.rhs_roots@[k as int]@);
        }
        let lt = match self.ctx.infer_expr_type_static(&self.lhs_roots[k]) {
            Some(t) => t,
            None => return Err(CheckFault::LhsType),
        };
        let rt = match self.ctx.infer_expr_type_static(&self.rhs_roots[k]) {
            Some(t) => t,
            None => return Err(CheckFault::RhsType),
        };
        match (self.ctx.classify_type(&lt), self.ctx.classify_type(&rt)) {
            (Ok(PathKind::Struct(a)), Ok(PathKind::Struct(b))) => {
                if a != b {
                    return Err(CheckFault::StructTypes);
                }
                self.collect_struct(k, a, l, r, p)
            },
            _ => self.collect_param(k, l, r, p),
        }
    }

    fn collect_all(&self, l: &SymState, r: &SymState) -> (out: Result<Pairs, CheckFault>)
        requires
            self.wf(),
        ensures
            pairs_view(out) == self@.all_pairs(0, l@, r@, seq![], seq![]),
    {
        let mut p = Pairs { ins: Vec::new(), outs: Vec::new() };
        proof {
            assert(p.both().0 =~= seq![]);
            assert(p.both().1 =~= seq![]);
        }
        #[verifier::loop_isolation(false)]
        for k in 0..self.lhs_roots.len()
            invariant
                self@.all_pairs(0, l@, r@, seq![], seq![]) == self@.all_pairs(
                    k as int,
                    l@,
                    r@,
                    p.both().0,
                    p.both().1,
                ),
        {
            p = self.collect_root_pairs(k, l, r, p)?;
        }
        Ok(p)
    }

    /// The formula that decides a path pair: a model of it has equal inputs and different outputs.
    fn obligation_for(&self, l: &SymState, r: &SymState) -> (out: Result<BoolExpr, CheckFault>)
        requires
            self.wf(),
        ensures
            ok_view(out) == self@.obligation(l@, r@),
    {
        proof {
            reveal(QueryCheckV::obligation);
        }
        let p = self.collect_all(l, r)?;
        let les = l.memory_trace();
        let res = r.memory_trace();
        if les.len() != res.len() {
            return Err(CheckFault::TraceLength);
        }
        let outs = collect_events(les, res, p.outs)?;
        if outs.len() == 0 {
            return Err(CheckFault::NoOutputs);
        }
        let mut parts: Vec<BoolExpr> = Vec::new();
        let ghost ins = term_pairs(p.ins@);
        let equal = if p.ins.len() == 0 {
            BoolExpr::Bool(true)
        } else {
            BoolExpr::and(equation_list(&p.ins))
        };
        parts.push(l.pc());
        parts.push(r.pc());
        parts.push(equal);
        parts.push(BoolExpr::or(difference_list(&outs)));
        proof {
            assert(formulas_of(parts@) =~= seq![
                conj(l@.path_cond),
                conj(r@.path_cond),
                equal_pairs(ins),
                disj(differences(term_pairs(outs@))),
            ]);
        }
        Ok(BoolExpr::and(parts))
    }

    /// The steps for all path pairs.
    fn plan_pairs(&self, name: &str, ls: &Vec<SymState>, rs: &Vec<SymState>) -> (out: Vec<Task>)
        requires
            self.wf(),
        ensures
            tasks_of(out@) == self@.pair_tasks(name@, views(ls@), views(rs@), 0, 0, seq![]),
    {
        let ghost lv = views(ls@);
        let ghost rv = views(rs@);
        let mut out: Vec<Task> = Vec::new();
        proof {
            assert(tasks_of(out@) =~= seq![]);
        }
        let ghost total = self@.pair_tasks(name@, lv, rv, 0, 0, seq![]);
        #[verifier::loop_isolation(false)]
        for i in 0..ls.len()
            invariant
                total == self@.pair_tasks(name@, lv, rv, i as int, 0, tasks_of(out@)),
        {
            #[verifier::loop_isolation(false)]
            for j in 0..rs.len()
                invariant
                    total == self@.pair_tasks(name@, lv, rv, i as int, j as int, tasks_of(out@)),
            {
                proof {
                    assert(lv[i as int] == ls@[i as int]@);
                    assert(rv[j as int] == rs@[j as int]@);
                }
                let spot = Spot { first: i, second: j, third: 0 };
                match self.obligation_for(&ls[i], &rs[j]) {
                    Err(x) => {
                        out.push(fail(name, spot, x));
                        return out;
                    },
                    Ok(phi) => {
                        out.push(
                            Task::Solve { component: name.to_string(), spot, phi, wanted: false },
                        );
                    },
                }
            }
        }
        out.push(Task::Passed { component: name.to_string() });
        out
    }
}

fn collect_events(
    les: &[MemoryEvent],
    res: &[MemoryEvent],
    outs: Vec<(SymExpr, SymExpr)>,
) -> (out: Result<Vec<(SymExpr, SymExpr)>, CheckFault>)
    requires
        les@.len() == res@.len(),
    ensures
        match out {
            Ok(v) => event_pairs(views(les@), views(res@), 0, term_pairs(outs@)) == Ok::<
                PairsV,
                CheckFault,
            >(term_pairs(v@)),
            Err(x) => event_pairs(views(les@), views(res@), 0, term_pairs(outs@)) == Err::<
                PairsV,
                CheckFault,
            >(x),
        },
{
    let ghost lv = views(les@);
    let ghost rv = views(res@);
    let ghost start = term_pairs(outs@);
    let mut v = outs;
    #[verifier::loop_isolation(false)]
    for i in 0..les.len()
        invariant
            event_pairs(lv, rv, 0, start) == event_pairs(lv, rv, i as int, term_pairs(v@)),
    {
        let a = &les[i];
        let b = &res[i];
        proof {
            assert(lv[i as int] == a@);
            assert(rv[i as int] == b@);
        }
        if a.kind != b.kind {
            return Err(CheckFault::EventKind);
        }
        let ghost before = v@;
        v.push((a.clk.clone(), b.clk.clone()));
        v.push((a.addr.clone(), b.addr.clone()));
        v.push((a.value.clone(), b.value.clone()));
        proof {
            assert(term_pairs(v@) =~= term_pairs(before).push((a@.clk, b@.clk)).push(
                (a@.addr, b@.addr),
            ).push((a@.value, b@.value)));
        }
    }
    Ok(v)
}

fn equation_list(ps: &Vec<(SymExpr, SymExpr)>) -> (r: Vec<BoolExpr>)
    ensures
        formulas_of(r@) == equations(term_pairs(ps@)),
{
    let mut out: Vec<BoolExpr> = Vec::new();
    for i in 0..ps.len()
        invariant
            out@.len() == i,
            forall|j: int|
                0 <= j < i ==> (#[trigger] out@[j])@ == Formula::Eq(ps@[j].0@, ps@[j].1@),
    {
        out.push(ps[i].0.clone().eq_to(ps[i].1.clone()));
    }
    proof {
        assert(formulas_of(out@) =~= equations(term_pairs(ps@)));
    }
    out
}

fn difference_list(ps: &Vec<(SymExpr, SymExpr)>) -> (r: Vec<BoolExpr>)
    ensures
        formulas_of(r@) == differences(term_pairs(ps@)),
{
    let mut out: Vec<BoolExpr> = Vec::new();
    for i in 0..ps.len()
        invariant
            out@.len() == i,
            forall|j: int|
                0 <= j < i ==> (#[trigger] out@[j])@ == Formula::Ne(ps@[j].0@, ps@[j].1@),
    {
        out.push(ps[i].0.clone().ne(ps[i].1.clone()));
    }
    proof {
        assert(formulas_of(out@) =~= differences(term_pairs(ps@)));
    }
    out
}

/// The states of outcomes.
pub(crate) fn states_at_end(rs: Outcomes) -> (r: Vec<SymState>)
    ensures
        views(r@) == end_states(outcomes_in(rs)),
{
    let ghost all = outcomes_in(rs);
    let mut rest = rs;
    let mut out: Vec<SymState> = Vec::new();
    proof {
        assert(views(out@) =~= end_states(all.take(0)));
        assert(all.skip(0) =~= all);
    }
    #[verifier::loop_isolation(false)]
    loop
        invariant
            out@.len() <= all.len(),
            outcomes_in(rest) == all.skip(out@.len() as int),
            views(out@) == end_states(all.take(out@.len() as int)),
        decreases outcomes_in(rest).len(),
    {
        let ghost n = out@.len() as int;
        match pop_outcome(&mut rest) {
            None => {
                proof {
                    assert(all.take(n) =~= all);
                }
                return out;
            },
            Some((_, s)) => {
                let ghost before = out@;
                out.push(s);
                proof {
                    assert(all.skip(n)[0] == all[n]);
                    assert(all.skip(n).drop_first() =~= all.skip(n + 1));
                    assert(views(out@) =~= views(before).push(s@));
                    assert(end_states(all.take(n + 1)) =~= end_states(all.take(n)).push(all[n].1));
                }
            },
        }
    }
}

fn greatest_fresh(states: &Vec<SymState>) -> (r: usize)
    ensures
        r == most_fresh(views(states@)),
{
    let ghost all = views(states@);
    let mut best: usize = 0;
    #[verifier::loop_isolation(false)]
    for i in 0..states.len()
        invariant
            best == most_fresh(all.take(i as int)),
    {
        proof {
            assert(all.take(i + 1).drop_last() =~= all.take(i as int));
            assert(all.take(i + 1).last() == states@[i as int]@);
        }
        let f = states[i].fresh_index();
        if f > best {
            best = f;
        }
    }
    proof {
        assert(all.take(all.len() as int) =~= all);
    }
    best
}

/// The states at the ends of a function with fresh parameters.
fn run_side(f: &Func, ctx: &Rc<Context>, start: usize, sid: Option<i64>, depth: usize) -> (r: Result<
    Vec<SymState>,
    ExecError,
>)
    ensures
        match r {
            Ok(v) => runs_of(f@, ctx@, start, sid, depth as nat) == Ok::<Seq<StateV>, ExecError>(
                views(v@),
            ),
            Err(x) => runs_of(f@, ctx@, start, sid, depth as nat) == Err::<Seq<StateV>, ExecError>(
                x,
            ),
        },
{
    proof {
        reveal(runs_of);
    }
    let mut st = SymState::new(share(ctx)).with_fresh_start(start);
    st.init_params_for_func(f, sid)?;
    let rs = f.clone().execute(st, depth)?;
    Ok(states_at_end(rs))
}

fn find_member<'a>(members: &'a Vec<Member>, name: &str) -> (r: Option<&'a Member>)
    ensures
        match r {
            Some(m) => member_called(members_of(members@), 0, name@) == Some(m@),
            None => member_called(members_of(members@), 0, name@) is None,
        },
{
    let ghost ms = members_of(members@);
    #[verifier::loop_isolation(false)]
    for i in 0..members.len()
        invariant
            member_called(ms, 0, name@) == member_called(ms, i as int, name@),
    {
        proof {
            assert(ms[i as int] == members@[i as int]@);
        }
        if same_text(members[i].name(), name) {
            return Some(&members[i]);
        }
    }
    None
}

fn head_of_side(side: &Vec<Vec<String>>) -> (r: Result<&String, CheckFault>)
    ensures
        match r {
            Ok(s) => query_head(paths_of(side@)) == Ok::<Seq<char>, CheckFault>(s@),
            Err(x) => query_head(paths_of(side@)) == Err::<Seq<char>, CheckFault>(x),
        },
{
    if side.len() == 0 {
        return Err(CheckFault::EmptyQuery);
    }
    let n = side[0].len();
    proof {
        assert(paths_of(side@)[0] == texts(side@[0]@));
    }
    if n == 0 {
        return Err(CheckFault::EmptyQuery);
    }
    proof {
        assert(texts(side@[0]@).last() == side@[0]@[n - 1]@);
    }
    Ok(&side[0][n - 1])
}

proof fn lemma_query_exprs_len(
    params: Seq<crate::ast::ParamV>,
    paths: Seq<Seq<Seq<char>>>,
)
    requires
        query_exprs(params, paths) is Ok,
    ensures
        query_exprs(params, paths)->Ok_0.len() == paths.len(),
    decreases paths.len(),
{
    if paths.len() > 0 {
        lemma_query_exprs_len(params, paths.drop_last());
    }
}

fn roots_of_side(f: &Func, side: &Vec<Vec<String>>) -> (r: Result<Vec<Expr>, CheckFault>)
    requires
        side@.len() >= 2,
    ensures
        match r {
            Ok(es) => side_roots(f@, paths_of(side@)) == Ok::<Seq<ExprV>, CheckFault>(
                exprs_of(es@),
            ) && es@.len() + 1 == side@.len(),
            Err(x) => side_roots(f@, paths_of(side@)) == Err::<Seq<ExprV>, CheckFault>(x),
        },
{
    let ps = slice_subrange(side.as_slice(), 1, side.len());
    proof {
        assert(paths_of(ps@) =~= paths_of(side@).subrange(1, side@.len() as int));
    }
    match f.query_root_exprs(ps) {
        Ok(es) => {
            proof {
                lemma_query_exprs_len(f@.params, paths_of(ps@));
                assert(exprs_of(es@).len() == es@.len());
            }
            Ok(es)
        },
        Err(x) => Err(CheckFault::Root(x)),
    }
}

impl<'a> QueryCheck<'a> {
    /// Construct the environment from a component-level Query.
    fn new(
        items: &'a Vec<Item>,
        ctx: &'a Context,
        members: &'a Vec<Member>,
        query: &'a Option<Query>,
    ) -> (r: Result<QueryCheck<'a>, CheckFault>)
        ensures
            match r {
                Ok(q) => q.wf() && q@.ctx == ctx@,
                Err(_) => true,
            },
            forall|id: Option<i64>, name: Seq<char>|
                ok_view(r) == #[trigger] prepared(
                    items_of(items@),
                    ctx@,
                    (id, name, members_of(members@), some_view(*query)),
                ),
    {
        proof {
            reveal(prepared);
        }
        let q = match query {
            Some(q) => q,
            None => return Err(CheckFault::MissingQuery),
        };
        let lh = head_of_side(&q.lhs)?;
        let rh = head_of_side(&q.rhs)?;
        let lm = match find_member(members, lh.as_str()) {
            Some(m) => m,
            None => return Err(CheckFault::LhsMember),
        };
        let rm = match find_member(members, rh.as_str()) {
            Some(m) => m,
            None => return Err(CheckFault::RhsMember),
        };
        if q.lhs.len() != q.rhs.len() {
            return Err(CheckFault::QueryLength);
        }
        if q.lhs.len() < 2 {
            return Err(CheckFault::NoRoots);
        }
        let lhs_func = lm.as_func();
        let rhs_func = rm.as_func();
        let lhs_roots = roots_of_side(lhs_func, &q.lhs)?;
        let rhs_roots = roots_of_side(rhs_func, &q.rhs)?;
        Ok(
            QueryCheck {
                items,
                ctx,
                lhs_func,
                rhs_func,
                lhs_paths: &q.lhs,
                rhs_paths: &q.rhs,
                lhs_roots,
                rhs_roots,
            },
        )
    }

    /// The states at the ends of both sides.
    fn run_both(&self, ctx: &Rc<Context>, depth: usize) -> (r: Result<
        (Vec<SymState>, Vec<SymState>),
        CheckFault,
    >)
        requires
            ctx@ == self@.ctx,
        ensures
            match r {
                Ok((a, b)) => both_runs(self@, depth as nat) == Ok::<
                    (Seq<StateV>, Seq<StateV>),
                    CheckFault,
                >((views(a@), views(b@))),
                Err(x) => both_runs(self@, depth as nat) == Err::<
                    (Seq<StateV>, Seq<StateV>),
                    CheckFault,
                >(x),
            },
    {
        proof {
            reveal(both_runs);
        }
        let fid = match self.lhs_func.id {
            Some(id) => id,
            None => return Err(CheckFault::UnresolvedFunction),
        };
        let sid = ctx.method_owner(fid);
        let ls = match run_side(self.lhs_func, ctx, 0, sid, depth) {
            Ok(v) => v,
            Err(x) => return Err(CheckFault::Exec(x)),
        };
        if ls.len() == 0 {
            return Err(CheckFault::NoLhsPaths);
        }
        let rs = match run_side(self.rhs_func, ctx, greatest_fresh(&ls), sid, depth) {
            Ok(v) => v,
            Err(x) => return Err(CheckFault::Exec(x)),
        };
        if rs.len() == 0 {
            return Err(CheckFault::NoRhsPaths);
        }
        Ok((ls, rs))
    }
}

fn plan_component(
    items: &Vec<Item>,
    ctx: &Rc<Context>,
    comp: &(Option<i64>, &String, &Vec<Member>, &Option<Query>),
    depth: usize,
) -> (r: Vec<Task>)
    ensures
        tasks_of(r@) == component_tasks(
            items_of(items@),
            ctx@,
            component_view(*comp),
            depth as nat,
        ),
{
    let name = comp.1.as_str();
    let mut failing_only: Vec<Task> = Vec::new();
    proof {
        assert(tasks_of(failing_only@) =~= seq![]);
    }
    match QueryCheck::new(items, ctx, comp.2, comp.3) {
        Err(x) => {
            failing_only.push(fail(name, start_spot(), x));
            proof {
                assert(tasks_of(failing_only@) =~= seq![failing(name@, no_spot(), x)]);
            }
            failing_only
        },
        Ok(q) => match q.run_both(ctx, depth) {
            Err(x) => {
                failing_only.push(fail(name, start_spot(), x));
                proof {
                    assert(tasks_of(failing_only@) =~= seq![failing(name@, no_spot(), x)]);
                }
                failing_only
            },
            Ok((ls, rs)) => q.plan_pairs(name, &ls, &rs),
        },
    }
}

/// The steps of the equivalence check of a file, up to the first failure that needs no solver.
///
/// A Query has the general shape:
///   Query(f, r1, r2, ...; g, r1', r2', ...)
///
/// Entry 0 on each side is the member name (`f`, `g`); remaining entries are
/// roots (either struct-typed or scalar-typed parameters).
pub fn plan_equivalence(file: &File, ctx: &Rc<Context>, depth: usize) -> (r: Vec<Task>)
    ensures
        tasks_of(r@) == equivalence_plan(file@, ctx@, depth as nat),
{
    let comps = file.components();
    let ghost cs = components_of(file@.items);
    let ghost items = file@.items;
    let mut out: Vec<Task> = Vec::new();
    proof {
        assert(tasks_of(out@) =~= seq![]);
    }
    #[verifier::loop_isolation(false)]
    for i in 0..comps.len()
        invariant
            equivalence_plan(file@, ctx@, depth as nat) == plan_from(
                items,
                ctx@,
                cs,
                i as int,
                depth as nat,
                tasks_of(out@),
            ),
    {
        proof {
            assert(comps@.map_values(|c| component_view(c))[i as int] == component_view(
                comps@[i as int],
            ));
        }
        let mut ts = plan_component(&file.items, ctx, &comps[i], depth);
        let stop = ends_in_failure(&ts);
        let ghost before = out@;
        let ghost added = ts@;
        out.append(&mut ts);
        proof {
            assert(tasks_of(out@) =~= tasks_of(before) + tasks_of(added));
        }
        if stop {
            return out;
        }
    }
    out
}

/// Equivalence checking under a Query specification, with the solver that is configured. The
/// components that passed are returned.
pub fn check_equivalence(file: &File, ctx: &Rc<Context>, config: &SetConfig) -> (r: Result<
    Vec<String>,
    CheckError,
>)
    ensures
        follows(
            selected(config@),
            equivalence_plan(file@, ctx@, NESTING as nat),
            conclusion_view(r),
        ),
{
    let backend = backend_from_config(config);
    let tasks = plan_equivalence(file, ctx, NESTING);
    run_tasks(&tasks, &backend)
}

} // verus!
