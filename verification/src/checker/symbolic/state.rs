//! Symbolic states: path condition, store and traces.

use std::rc::Rc;
use vstd::prelude::*;
use crate::checker::symbolic::canonical::{canonical_formula, canonicalize_bool_expr};
use crate::checker::symbolic::context::{Context, ContextV, MemoryEventKind};
use crate::checker::symbolic::expr::{
    clone_formulas, clone_terms, conj, formulas_of, terms_of, BoolExpr, Formula, SymExpr, Term,
};
use crate::checker::symbolic::range::{
    as_interval, greatest, hint_map, least, max_of, min_of, range_of, symexpr_range, Hints,
};
use crate::checker::symbolic::simplify::{
    clone_hints, simplified, simplify_bool_expr, BoolSimplifyResult, Simp,
};
use crate::checker::symbolic::simplify_laws::{
    formula_size, formulas_size, lemma_size_member, simplification_shrinks,
};
use crate::checker::symbolic::store::{NodeV, Store};
use crate::name_map::NameMap;

verus! {

broadcast use crate::checker::symbolic::expr_lists::group_lists;

/// Execution status of the current state.
#[derive(Clone, Copy, Debug, PartialEq, Eq, Structural)]
pub enum ExecStatus {
    Step,
    Continue,
    Break,
    Return,
}

/// Cached map read entry to keep clk_prev/value consistent across projections.
#[derive(Debug)]
pub struct MapReadRecord {
    pub base_id: Option<i64>,
    pub base_repr: String,
    pub clk: SymExpr,
    pub addr: SymExpr,
    pub clk_prev: SymExpr,
    pub value: SymExpr,
    /// Canonical form of `clk`.
    pub clk_key: SymExpr,
    /// Canonical form of `addr`.
    pub addr_key: SymExpr,
}

/// Mathematical model of [`MapReadRecord`].
pub struct MapReadV {
    pub base_id: Option<i64>,
    pub base_repr: Seq<char>,
    pub clk: Term,
    pub addr: Term,
    pub clk_prev: Term,
    pub value: Term,
    pub clk_key: Term,
    pub addr_key: Term,
}

impl View for MapReadRecord {
    type V = MapReadV;

    open spec fn view(&self) -> MapReadV {
        MapReadV {
            base_id: self.base_id,
            base_repr: self.base_repr@,
            clk: self.clk@,
            addr: self.addr@,
            clk_prev: self.clk_prev@,
            value: self.value@,
            clk_key: self.clk_key@,
            addr_key: self.addr_key@,
        }
    }
}

impl Clone for MapReadRecord {
    fn clone(&self) -> (r: Self)
        ensures
            r@ == self@,
    {
        MapReadRecord {
            base_id: self.base_id,
            base_repr: self.base_repr.clone(),
            clk: self.clk.clone(),
            addr: self.addr.clone(),
            clk_prev: self.clk_prev.clone(),
            value: self.value.clone(),
            clk_key: self.clk_key.clone(),
            addr_key: self.addr_key.clone(),
        }
    }
}

/// A single memory access record collected from lookups or map reads.
#[derive(Debug)]
pub struct MemoryEvent {
    pub kind: MemoryEventKind,
    pub clk: SymExpr,
    pub addr: SymExpr,
    pub value: SymExpr,
}

/// Mathematical model of [`MemoryEvent`].
pub struct EventV {
    pub kind: MemoryEventKind,
    pub clk: Term,
    pub addr: Term,
    pub value: Term,
}

impl View for MemoryEvent {
    type V = EventV;

    open spec fn view(&self) -> EventV {
        EventV { kind: self.kind, clk: self.clk@, addr: self.addr@, value: self.value@ }
    }
}

impl Clone for MemoryEvent {
    fn clone(&self) -> (r: Self)
        ensures
            r@ == self@,
    {
        MemoryEvent {
            kind: self.kind,
            clk: self.clk.clone(),
            addr: self.addr.clone(),
            value: self.value.clone(),
        }
    }
}

/// A byte operation that has been constrained before: its name and its canonical operands.
#[derive(Debug)]
pub struct ByteOpKey {
    pub op: String,
    pub out: SymExpr,
    pub lhs: SymExpr,
    pub rhs: SymExpr,
}

/// Mathematical model of [`ByteOpKey`].
pub struct ByteOpV {
    pub op: Seq<char>,
    pub out: Term,
    pub lhs: Term,
    pub rhs: Term,
}

impl View for ByteOpKey {
    type V = ByteOpV;

    open spec fn view(&self) -> ByteOpV {
        ByteOpV { op: self.op@, out: self.out@, lhs: self.lhs@, rhs: self.rhs@ }
    }
}

impl Clone for ByteOpKey {
    fn clone(&self) -> (r: Self)
        ensures
            r@ == self@,
    {
        ByteOpKey {
            op: self.op.clone(),
            out: self.out.clone(),
            lhs: self.lhs.clone(),
            rhs: self.rhs.clone(),
        }
    }
}

/// The bits that a value has been decomposed into.
#[derive(Debug)]
pub struct BitsRecord {
    pub key: SymExpr,
    pub bits: Vec<SymExpr>,
}

/// Mathematical model of [`BitsRecord`].
pub struct BitsV {
    pub key: Term,
    pub bits: Seq<Term>,
}

impl View for BitsRecord {
    type V = BitsV;

    open spec fn view(&self) -> BitsV {
        BitsV { key: self.key@, bits: terms_of(self.bits@) }
    }
}

impl Clone for BitsRecord {
    fn clone(&self) -> (r: Self)
        ensures
            r@ == self@,
    {
        BitsRecord { key: self.key.clone(), bits: clone_terms(&self.bits) }
    }
}

/// The models of a list.
pub open spec fn views<T: View>(s: Seq<T>) -> Seq<T::V> {
    Seq::new(s.len(), |i: int| s[i]@)
}

/// Symbolic state with path condition and persistent store.
#[derive(Debug)]
pub struct SymState {
    pub ctx: Rc<Context>,
    pub path_cond: Vec<BoolExpr>,
    pub store: Store,
    pub status: ExecStatus,
    pub memory_events: Vec<MemoryEvent>,
    pub map_reads: Vec<MapReadRecord>,
    pub bit_decomp_cache: Vec<BitsRecord>,
    pub byte_op_cache: Vec<ByteOpKey>,
    pub range_hints: NameMap<(i128, i128)>,
    pub fresh: usize,
    /// True if the accumulated path condition is already contradictory.
    pub unsat: bool,
}

/// Mathematical model of [`SymState`].
pub struct StateV {
    pub ctx: ContextV,
    pub path_cond: Seq<Formula>,
    pub store: Map<int, NodeV>,
    pub status: ExecStatus,
    pub events: Seq<EventV>,
    pub map_reads: Seq<MapReadV>,
    pub bits: Seq<BitsV>,
    pub byte_ops: Seq<ByteOpV>,
    pub hints: Hints,
    pub fresh: usize,
    pub unsat: bool,
}

impl View for SymState {
    type V = StateV;

    open spec fn view(&self) -> StateV {
        StateV {
            ctx: self.ctx@,
            path_cond: formulas_of(self.path_cond@),
            store: self.store@,
            status: self.status,
            events: views(self.memory_events@),
            map_reads: views(self.map_reads@),
            bits: views(self.bit_decomp_cache@),
            byte_ops: views(self.byte_op_cache@),
            hints: hint_map(self.range_hints),
            fresh: self.fresh,
            unsat: self.unsat,
        }
    }
}

/// `Rc::clone`: the copy points to the same value.
#[verifier::external_body]
pub(crate) fn share<T>(r: &Rc<T>) -> (c: Rc<T>)
    ensures
        c == *r,
{
    r.clone()
}

fn clone_events(v: &Vec<MemoryEvent>) -> (r: Vec<MemoryEvent>)
    ensures
        views(r@) == views(v@),
{
    let mut out: Vec<MemoryEvent> = Vec::new();
    for i in 0..v.len()
        invariant
            out@.len() == i,
            forall|j: int| 0 <= j < i ==> (#[trigger] out@[j])@ == v@[j]@,
    {
        out.push(v[i].clone());
    }
    proof {
        assert(views(out@) =~= views(v@));
    }
    out
}

fn clone_reads(v: &Vec<MapReadRecord>) -> (r: Vec<MapReadRecord>)
    ensures
        views(r@) == views(v@),
{
    let mut out: Vec<MapReadRecord> = Vec::new();
    for i in 0..v.len()
        invariant
            out@.len() == i,
            forall|j: int| 0 <= j < i ==> (#[trigger] out@[j])@ == v@[j]@,
    {
        out.push(v[i].clone());
    }
    proof {
        assert(views(out@) =~= views(v@));
    }
    out
}

fn clone_bits(v: &Vec<BitsRecord>) -> (r: Vec<BitsRecord>)
    ensures
        views(r@) == views(v@),
{
    let mut out: Vec<BitsRecord> = Vec::new();
    for i in 0..v.len()
        invariant
            out@.len() == i,
            forall|j: int| 0 <= j < i ==> (#[trigger] out@[j])@ == v@[j]@,
    {
        out.push(v[i].clone());
    }
    proof {
        assert(views(out@) =~= views(v@));
    }
    out
}

fn clone_byte_ops(v: &Vec<ByteOpKey>) -> (r: Vec<ByteOpKey>)
    ensures
        views(r@) == views(v@),
{
    let mut out: Vec<ByteOpKey> = Vec::new();
    for i in 0..v.len()
        invariant
            out@.len() == i,
            forall|j: int| 0 <= j < i ==> (#[trigger] out@[j])@ == v@[j]@,
    {
        out.push(v[i].clone());
    }
    proof {
        assert(views(out@) =~= views(v@));
    }
    out
}

impl Clone for SymState {
    fn clone(&self) -> (r: Self)
        ensures
            r@ == self@,
    {
        SymState {
            ctx: share(&self.ctx),
            path_cond: clone_formulas(&self.path_cond),
            store: self.store.clone(),
            status: self.status,
            memory_events: clone_events(&self.memory_events),
            map_reads: clone_reads(&self.map_reads),
            bit_decomp_cache: clone_bits(&self.bit_decomp_cache),
            byte_op_cache: clone_byte_ops(&self.byte_op_cache),
            range_hints: clone_hints(&self.range_hints),
            fresh: self.fresh,
            unsat: self.unsat,
        }
    }
}

/// The variable that a simple projection stands for: a variable, a sum or product of one such
/// operand, or a choice between equal ones.
pub open spec fn projected_var(t: Term) -> Option<Seq<char>>
    decreases t,
{
    match t {
        Term::Var(name, _) => Some(name),
        Term::Add(vs) => if vs.len() == 1 {
            projected_var(vs[0])
        } else {
            None
        },
        Term::Mul(vs) => if vs.len() == 1 {
            projected_var(vs[0])
        } else {
            None
        },
        Term::Ite(_, a, b) => if *a == *b {
            projected_var(*a)
        } else {
            None
        },
        _ => None,
    }
}

/// Whether a simplified condition contradicts the hints.
pub open spec fn contradicts(f: Formula, h: Hints) -> bool {
    match f {
        Formula::Bool(b) => !b,
        Formula::Range { value, min, max, .. } => min > max || (match value {
            Term::Var(name, _) => h.contains_key(name) && (max < h[name].0 || min > h[name].1),
            _ => false,
        }),
        Formula::Eq(a, b) => match (a, b) {
            (Term::Int(x), Term::Int(y)) => x != y,
            (Term::Var(name, _), Term::Int(k)) => h.contains_key(name) && (k < h[name].0 || k
                > h[name].1),
            (Term::Int(k), Term::Var(name, _)) => h.contains_key(name) && (k < h[name].0 || k
                > h[name].1),
            _ => false,
        },
        Formula::Ne(a, b) => match (a, b) {
            (Term::Int(x), Term::Int(y)) => x == y,
            _ => false,
        },
        _ => false,
    }
}

/// Path conditions are compacted from this length on.
pub const PATH_COND_COMPACT_THRESHOLD: usize = 64;

/// The conditions from `i` on without tautologies and without repetitions of the canonical forms
/// `seen`, behind `acc`; a false condition replaces everything, and is reported.
pub open spec fn compacted_from(
    pcs: Seq<Formula>,
    i: int,
    seen: Seq<Formula>,
    acc: Seq<Formula>,
) -> (Seq<Formula>, bool)
    decreases pcs.len() - i,
{
    if i < 0 || i >= pcs.len() {
        (acc, false)
    } else {
        match pcs[i] {
            Formula::Bool(b) => if b {
                compacted_from(pcs, i + 1, seen, acc)
            } else {
                (seq![Formula::Bool(false)], true)
            },
            f => if seen.contains(canonical_formula(f)) {
                compacted_from(pcs, i + 1, seen, acc)
            } else {
                compacted_from(pcs, i + 1, seen.push(canonical_formula(f)), acc.push(f))
            },
        }
    }
}

impl StateV {
    /// The state after a contradiction has been found.
    pub open spec fn contradicted(self) -> StateV {
        StateV { unsat: true, path_cond: self.path_cond.push(Formula::Bool(false)), ..self }
    }

    /// The state after an interval of a projection has been recorded.
    pub open spec fn with_range_hint(self, v: Term, min: int, max: int) -> StateV {
        if min > max {
            self
        } else {
            match projected_var(v) {
                None => self,
                Some(name) => if self.hints.contains_key(name) {
                    let lo = greatest(self.hints[name].0, min);
                    let hi = least(self.hints[name].1, max);
                    if lo <= hi {
                        StateV { hints: self.hints.insert(name, (lo, hi)), ..self }
                    } else {
                        StateV { unsat: true, ..self }
                    }
                } else {
                    StateV { hints: self.hints.insert(name, (min, max)), ..self }
                },
            }
        }
    }

    /// The state after an equation of a projection with a constant has been recorded.
    pub open spec fn with_eq_hint(self, a: Term, b: Term) -> StateV {
        match b {
            Term::Int(k) => if projected_var(a) is Some {
                self.with_range_hint(a, k, k)
            } else {
                self
            },
            _ => self,
        }
    }

    /// The state after the hints of a condition have been recorded.
    pub open spec fn harvested(self, f: Formula) -> StateV {
        match f {
            Formula::Range { value, min, max, .. } => self.with_range_hint(value, min, max),
            Formula::Eq(a, b) => self.with_eq_hint(a, b).with_eq_hint(b, a),
            _ => self,
        }
    }

    /// The state with its path condition compacted, where it is long enough.
    pub open spec fn compacted(self) -> StateV {
        if self.path_cond.len() < PATH_COND_COMPACT_THRESHOLD {
            self
        } else {
            let r = compacted_from(self.path_cond, 0, seq![], seq![]);
            StateV { path_cond: r.0, unsat: self.unsat || r.1, ..self }
        }
    }

    /// The state after a simplified condition that is no conjunction has been added.
    pub open spec fn with_atom(self, f: Formula) -> StateV {
        if self.unsat {
            self
        } else if contradicts(f, self.hints) {
            self.contradicted()
        } else {
            let s = self.harvested(f);
            StateV { path_cond: s.path_cond.push(f), ..s }.compacted()
        }
    }

    /// The state after a condition has been added to the path condition.
    #[verifier::opaque]
    pub open spec fn with_cond(self, cond: Formula) -> StateV
        decreases formula_size(cond), 0int,
    {
        match simplified(cond, self.hints).0 {
            Simp::Known(b) => if b {
                self
            } else {
                self.contradicted()
            },
            Simp::Open(f) => match f {
                Formula::And(vs) => {
                    proof {
                        simplification_shrinks(cond, self.hints);
                        assert(formula_size(f) == 1 + formulas_size(vs));
                    }
                    self.with_conds(vs, 0)
                },
                _ => self.with_atom(f),
            },
        }
    }

    /// The state after the conditions from `i` on have been added, up to a contradiction.
    pub open spec fn with_conds(self, vs: Seq<Formula>, i: int) -> StateV
        decreases formulas_size(vs), vs.len() - i,
    {
        if i < 0 || i >= vs.len() {
            self
        } else {
            proof {
                lemma_size_member(vs, i);
            }
            let s = self.with_cond(vs[i]);
            if s.unsat {
                s
            } else {
                s.with_conds(vs, i + 1)
            }
        }
    }

    /// The interval of a term under the recorded hints.
    pub open spec fn range(self, t: Term) -> Option<(int, int)> {
        range_of(t, self.hints)
    }
}

/// The state before anything has happened.
pub open spec fn initial_state(ctx: ContextV) -> StateV {
    StateV {
        ctx,
        path_cond: seq![],
        store: Map::empty(),
        status: ExecStatus::Step,
        events: seq![],
        map_reads: seq![],
        bits: seq![],
        byte_ops: seq![],
        hints: Map::empty(),
        fresh: 0,
        unsat: false,
    }
}

/// Try to extract a canonical variable name from simple projections (bare var,
/// single-element Add/Mul, or degenerate ite). This lets range hints attach
/// to field/array projections that are materialized as scalars.
pub fn project_var_name(t: &SymExpr) -> (r: Option<String>)
    ensures
        crate::view::some_view(r) == projected_var(t@),
    decreases t,
{
    match t {
        SymExpr::Var(name, _) => Some(name.clone()),
        SymExpr::Add(vs) => {
            proof {
                assert(terms_of(vs@).len() == vs@.len());
            }
            if vs.len() == 1 {
                proof {
                    assert(terms_of(vs@)[0] == vs@[0]@);
                }
                project_var_name(&vs[0])
            } else {
                None
            }
        },
        SymExpr::Mul(vs) => {
            proof {
                assert(terms_of(vs@).len() == vs@.len());
            }
            if vs.len() == 1 {
                proof {
                    assert(terms_of(vs@)[0] == vs@[0]@);
                }
                project_var_name(&vs[0])
            } else {
                None
            }
        },
        SymExpr::Ite(_, a, b) => if a.same_as(b) {
            project_var_name(a)
        } else {
            None
        },
        _ => None,
    }
}

fn seen_before(seen: &Vec<BoolExpr>, f: &BoolExpr) -> (r: bool)
    ensures
        r == formulas_of(seen@).contains(f@),
{
    for i in 0..seen.len()
        invariant
            forall|j: int| 0 <= j < i ==> (#[trigger] formulas_of(seen@)[j]) != f@,
    {
        if seen[i].same_as(f) {
            proof {
                assert(formulas_of(seen@)[i as int] == f@);
            }
            return true;
        }
    }
    false
}

impl SymState {
    /// The state before anything has happened.
    pub fn new(ctx: Rc<Context>) -> (r: Self)
        ensures
            r@ == initial_state(ctx@),
    {
        let r = SymState {
            ctx,
            path_cond: Vec::new(),
            store: Store::default(),
            status: ExecStatus::Step,
            memory_events: Vec::new(),
            map_reads: Vec::new(),
            bit_decomp_cache: Vec::new(),
            byte_op_cache: Vec::new(),
            range_hints: NameMap::new(),
            fresh: 0,
            unsat: false,
        };
        proof {
            assert(r@.events =~= seq![]);
            assert(r@.map_reads =~= seq![]);
            assert(r@.bits =~= seq![]);
            assert(r@.byte_ops =~= seq![]);
            assert(r@.hints =~= Map::empty());
        }
        r
    }

    /// Returns the next fresh index for symbol allocation.
    pub fn fresh_index(&self) -> (r: usize)
        ensures
            r == self@.fresh,
    {
        self.fresh
    }

    /// Overrides the starting fresh index.
    /// This is intended for orchestrating multiple symbolic runs that
    /// should not reuse symbol names.
    pub fn with_fresh_start(self, start: usize) -> (r: Self)
        ensures
            r@ == (StateV { fresh: start, ..self@ }),
    {
        let mut s = self;
        s.fresh = start;
        s
    }

    fn record_range_hint(self, t: &SymExpr, min: i128, max: i128) -> (r: Self)
        ensures
            r@ == self@.with_range_hint(t@, min as int, max as int),
    {
        if min > max {
            return self;
        }
        let mut s = self;
        if let Some(name) = project_var_name(t) {
            let known = match s.range_hints.get(name.as_str()) {
                Some(h) => Some(*h),
                None => None,
            };
            let ghost before = s.range_hints;
            match known {
                Some((lo, hi)) => {
                    let new_lo = max_of(lo, min);
                    let new_hi = min_of(hi, max);
                    if new_lo <= new_hi {
                        s.range_hints.set(name, (new_lo, new_hi));
                        proof {
                            assert(hint_map(s.range_hints) =~= hint_map(before).insert(
                                name@,
                                (new_lo as int, new_hi as int),
                            ));
                        }
                    } else {
                        s.unsat = true;
                    }
                },
                None => {
                    s.range_hints.set(name, (min, max));
                    proof {
                        assert(hint_map(s.range_hints) =~= hint_map(before).insert(
                            name@,
                            (min as int, max as int),
                        ));
                    }
                },
            }
        }
        s
    }

    fn record_eq_hint(self, a: &SymExpr, b: &SymExpr) -> (r: Self)
        ensures
            r@ == self@.with_eq_hint(a@, b@),
    {
        match b {
            SymExpr::Int(k) => self.record_range_hint(a, *k, *k),
            _ => self,
        }
    }

    fn harvest(self, f: &BoolExpr) -> (r: Self)
        ensures
            r@ == self@.harvested(f@),
    {
        match f {
            BoolExpr::Range { value, min, max, .. } => self.record_range_hint(value, *min, *max),
            BoolExpr::Eq(a, b) => self.record_eq_hint(a, b).record_eq_hint(b, a),
            _ => self,
        }
    }

    /// Periodically compact the accumulated path condition by dropping tautologies,
    /// merging duplicates, and short-circuiting on false.
    fn maybe_compact_path_cond(self) -> (r: Self)
        ensures
            r@ == self@.compacted(),
    {
        if self.path_cond.len() < PATH_COND_COMPACT_THRESHOLD {
            return self;
        }
        let mut s = self;
        let mut pcs: Vec<BoolExpr> = Vec::new();
        std::mem::swap(&mut pcs, &mut s.path_cond);
        let ghost all = pcs@;
        let ghost fs = formulas_of(all);
        let mut seen: Vec<BoolExpr> = Vec::new();
        let mut out: Vec<BoolExpr> = Vec::new();
        #[verifier::loop_isolation(false)]
        for c in it: pcs
            invariant
                it.seq() == all,
                compacted_from(fs, 0, seq![], seq![]) == compacted_from(
                    fs,
                    it.index(),
                    formulas_of(seen@),
                    formulas_of(out@),
                ),
        {
            proof {
                assert(fs[it.index()] == c@);
            }
            match c {
                BoolExpr::Bool(b) => {
                    if !b {
                        let mut only: Vec<BoolExpr> = Vec::new();
                        only.push(BoolExpr::Bool(false));
                        proof {
                            assert(formulas_of(only@) =~= seq![Formula::Bool(false)]);
                        }
                        return SymState { path_cond: only, unsat: true, ..s };
                    }
                },
                other => {
                    let key = canonicalize_bool_expr(&other);
                    if !seen_before(&seen, &key) {
                        seen.push(key);
                        out.push(other);
                    }
                },
            }
        }
        SymState { path_cond: out, ..s }
    }

    /// Whether a variable is known to lie outside an interval.
    fn known_outside(&self, name: &String, min: i128, max: i128) -> (r: bool)
        ensures
            r == (self@.hints.contains_key(name@) && (max < self@.hints[name@].0 || min
                > self@.hints[name@].1)),
    {
        match self.range_hints.get(name.as_str()) {
            Some(h) => max < h.0 || min > h.1,
            None => false,
        }
    }

    /// Lightweight contradiction check using recorded hints and constant folding.
    fn is_contradiction(&self, f: &BoolExpr) -> (r: bool)
        ensures
            r == contradicts(f@, self@.hints),
    {
        match f {
            BoolExpr::Bool(b) => !*b,
            BoolExpr::Range { value, min, max, bits: _ } => {
                proof {
                    assert(value@ == crate::checker::symbolic::expr::term_of(*value));
                }
                *min > *max || (match value {
                    SymExpr::Var(name, _) => self.known_outside(name, *min, *max),
                    _ => false,
                })
            },
            BoolExpr::Eq(a, b) => {
                proof {
                    assert(a@ == crate::checker::symbolic::expr::term_of(*a));
                    assert(b@ == crate::checker::symbolic::expr::term_of(*b));
                }
                match (a, b) {
                    (SymExpr::Int(x), SymExpr::Int(y)) => *x != *y,
                    (SymExpr::Var(name, _), SymExpr::Int(k)) => self.known_outside(name, *k, *k),
                    (SymExpr::Int(k), SymExpr::Var(name, _)) => self.known_outside(name, *k, *k),
                    _ => false,
                }
            },
            BoolExpr::Ne(a, b) => {
                proof {
                    assert(a@ == crate::checker::symbolic::expr::term_of(*a));
                    assert(b@ == crate::checker::symbolic::expr::term_of(*b));
                }
                match (a, b) {
                    (SymExpr::Int(x), SymExpr::Int(y)) => *x == *y,
                    _ => false,
                }
            },
            _ => false,
        }
    }

    fn push_false(self) -> (r: Self)
        ensures
            r@ == self@.contradicted(),
    {
        let mut s = self;
        s.unsat = true;
        s.path_cond.push(BoolExpr::Bool(false));
        s
    }

    fn with_simplified(self, f: BoolExpr) -> (r: Self)
        ensures
            r@ == self@.with_atom(f@),
    {
        if self.unsat {
            return self;
        }
        if self.is_contradiction(&f) {
            return self.push_false();
        }
        let mut s = self.harvest(&f);
        s.path_cond.push(f);
        s.maybe_compact_path_cond()
    }

    /// Return a new state with an additional path constraint appended.
    pub fn with_pc(self, cond: BoolExpr) -> (r: Self)
        ensures
            r@ == self@.with_cond(cond@),
        decreases formula_size(cond@), 0int,
    {
        let mut hints = clone_hints(&self.range_hints);
        proof {
            reveal(StateV::with_cond);
            simplification_shrinks(cond@, self@.hints);
        }
        match simplify_bool_expr(cond, &mut hints) {
            BoolSimplifyResult::Known(b) => if b {
                self
            } else {
                self.push_false()
            },
            BoolSimplifyResult::Open(f) => match f {
                BoolExpr::And(vs) => {
                    proof {
                        assert(formula_size(Formula::And(formulas_of(vs@))) == 1 + formulas_size(
                            formulas_of(vs@),
                        ));
                    }
                    self.with_pcs(vs)
                },
                other => self.with_simplified(other),
            },
        }
    }

    fn with_pcs(self, vs: Vec<BoolExpr>) -> (r: Self)
        ensures
            r@ == self@.with_conds(formulas_of(vs@), 0),
        decreases formulas_size(formulas_of(vs@)), 1int,
    {
        proof {
            reveal(StateV::with_cond);
        }
        let ghost all = vs@;
        let ghost fs = formulas_of(all);
        let ghost start = self@;
        let mut cur = self;
        #[verifier::loop_isolation(false)]
        for c in it: vs
            invariant
                it.seq() == all,
                start.with_conds(fs, 0) == cur@.with_conds(fs, it.index()),
        {
            proof {
                assert(fs[it.index()] == c@);
                lemma_size_member(fs, it.index());
            }
            cur = cur.with_pc(c);
            if cur.unsat {
                return cur;
            }
        }
        cur
    }

    /// Conjoin all accumulated path conditions; returns `true` if empty.
    pub fn pc(&self) -> (r: BoolExpr)
        ensures
            r@ == conj(self@.path_cond),
    {
        BoolExpr::and(clone_formulas(&self.path_cond))
    }

    /// Set execution status and return the updated state.
    pub fn with_status(self, status: ExecStatus) -> (r: Self)
        ensures
            r@ == (StateV { status, ..self@ }),
    {
        let mut s = self;
        s.status = status;
        s
    }

    /// State is active.
    pub fn is_active(&self) -> (r: bool)
        ensures
            r == (self@.status == ExecStatus::Step && !self@.unsat),
    {
        self.status == ExecStatus::Step && !self.unsat
    }

    /// State is terminal for the current control region (Break/Return).
    pub fn is_terminal(&self) -> (r: bool)
        ensures
            r == (self@.status != ExecStatus::Step),
    {
        self.status != ExecStatus::Step
    }

    /// State has already been proven inconsistent.
    pub fn is_inconsistent(&self) -> (r: bool)
        ensures
            r == self@.unsat,
    {
        self.unsat
    }

    /// Conservative range inference for a symbolic expression using recorded hints.
    /// Returns (min, max) if a finite interval can be derived.
    pub fn symexpr_range(&self, e: &SymExpr) -> (r: Option<(i128, i128)>)
        ensures
            as_interval(r) == self@.range(e@),
    {
        symexpr_range(e, &self.range_hints)
    }
}

} // verus!
