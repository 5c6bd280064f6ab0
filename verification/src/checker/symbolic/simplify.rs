//! Light simplification of Boolean conditions without a solver.

use vstd::prelude::*;
use crate::checker::symbolic::expr::{formulas_of, BoolExpr, Formula, SymExpr, Term};
use crate::checker::symbolic::meaning::value;
use crate::checker::symbolic::range::{
    as_interval, greatest, hint_map, least, max_of, min_of, Hints,
};
use crate::name_map::NameMap;

verus! {

broadcast use crate::checker::symbolic::expr_lists::group_lists;

/// Result of a lightweight Boolean simplification used during path pruning.
#[derive(Debug)]
pub enum BoolSimplifyResult {
    /// The condition is always true or always false.
    Known(bool),
    /// What is left of the condition.
    Open(BoolExpr),
}

/// Mathematical model of [`BoolSimplifyResult`].
pub enum Simp {
    Known(bool),
    Open(Formula),
}

impl View for BoolSimplifyResult {
    type V = Simp;

    open spec fn view(&self) -> Simp {
        match self {
            BoolSimplifyResult::Known(b) => Simp::Known(*b),
            BoolSimplifyResult::Open(f) => Simp::Open(f@),
        }
    }
}

/// Narrowing the interval of a variable: whether that is contradictory, whether it was known
/// before, and the intervals afterwards.
pub open spec fn tighten(h: Hints, name: Seq<char>, min: int, max: int) -> (bool, bool, Hints) {
    if min > max {
        (true, false, h)
    } else if h.contains_key(name) {
        let lo = h[name].0;
        let hi = h[name].1;
        let implied = lo >= min && hi <= max;
        let new_lo = greatest(lo, min);
        let new_hi = least(hi, max);
        if new_lo > new_hi {
            (true, implied, h)
        } else {
            (false, implied, h.insert(name, (new_lo, new_hi)))
        }
    } else {
        (false, false, h.insert(name, (min, max)))
    }
}

/// What narrowing a variable says of a condition `f` that states the interval.
pub open spec fn narrowed(h: Hints, name: Seq<char>, min: int, max: int, f: Formula) -> (
    Simp,
    Hints,
) {
    let t = tighten(h, name, min, max);
    if t.0 {
        (Simp::Known(false), t.2)
    } else if t.1 {
        (Simp::Known(true), t.2)
    } else {
        (Simp::Open(f), t.2)
    }
}

/// The interval of a constant or of a variable with a hint.
pub open spec fn atom_range(t: Term, h: Hints) -> Option<(int, int)> {
    match t {
        Term::Int(k) => Some((k, k)),
        Term::Var(name, _) => if h.contains_key(name) {
            Some(h[name])
        } else {
            None
        },
        _ => None,
    }
}

/// The intervals of two atoms, at least one of which is a constant.
pub open spec fn atom_ranges(a: Term, b: Term, h: Hints) -> Option<((int, int), (int, int))> {
    if a is Int || b is Int {
        match (atom_range(a, h), atom_range(b, h)) {
            (Some(x), Some(y)) => Some((x, y)),
            _ => None,
        }
    } else {
        None
    }
}

/// Whether `a <= b` is decided by the intervals.
pub open spec fn le_known(a: Term, b: Term, h: Hints) -> Option<bool> {
    match atom_ranges(a, b, h) {
        Some((x, y)) => if x.0 > y.1 {
            Some(false)
        } else if x.1 <= y.0 {
            Some(true)
        } else {
            None
        },
        None => None,
    }
}

/// Whether `a < b` is decided by the intervals.
pub open spec fn lt_known(a: Term, b: Term, h: Hints) -> Option<bool> {
    match atom_ranges(a, b, h) {
        Some((x, y)) => if x.0 >= y.1 {
            Some(false)
        } else if x.1 < y.0 {
            Some(true)
        } else {
            None
        },
        None => None,
    }
}

/// A verdict, or what is left open.
pub open spec fn verdict_or(v: Option<bool>, f: Formula) -> Simp {
    match v {
        Some(b) => Simp::Known(b),
        None => Simp::Open(f),
    }
}

/// Whether a variable with interval `r` differs from `k`, if that is decided.
pub open spec fn ne_known(r: Option<(int, int)>, k: int) -> Option<bool> {
    match r {
        Some((lo, hi)) => if lo == hi {
            Some(lo != k)
        } else if k < lo || k > hi {
            Some(true)
        } else {
            None
        },
        None => None,
    }
}

/// A disequality after simplification.
pub open spec fn simplified_ne(a: Term, b: Term, h: Hints) -> Simp {
    let f = Formula::Ne(a, b);
    if a == b {
        Simp::Known(false)
    } else {
        match (a, b) {
            (Term::Int(x), Term::Int(y)) => Simp::Known(x != y),
            (Term::Var(_, _), Term::Int(k)) => verdict_or(ne_known(atom_range(a, h), k), f),
            (Term::Int(k), Term::Var(_, _)) => verdict_or(ne_known(atom_range(b, h), k), f),
            _ => Simp::Open(f),
        }
    }
}

/// An equation after simplification.
pub open spec fn simplified_eq(a: Term, b: Term, h: Hints) -> (Simp, Hints) {
    let f = Formula::Eq(a, b);
    if a == b {
        (Simp::Known(true), h)
    } else {
        match (a, b) {
            (Term::Int(x), Term::Int(y)) => (Simp::Known(x == y), h),
            (Term::Var(name, _), Term::Int(k)) => narrowed(h, name, k, k, f),
            (Term::Int(k), Term::Var(name, _)) => narrowed(h, name, k, k, f),
            _ => (Simp::Open(f), h),
        }
    }
}

/// A range condition after simplification.
pub open spec fn simplified_range(
    v: Term,
    min: int,
    max: int,
    bits: Option<usize>,
    h: Hints,
) -> (Simp, Hints) {
    let f = Formula::Range { value: v, min, max, bits };
    if min > max {
        (Simp::Known(false), h)
    } else {
        match v {
            Term::Int(k) => (Simp::Known(min <= k <= max), h),
            Term::Var(name, _) => narrowed(h, name, min, max, f),
            _ => (Simp::Open(f), h),
        }
    }
}

/// A condition after simplification, and the hints after it: conjuncts narrow the hints for
/// their successors, disjuncts are simplified independently of each other, and what is found
/// under a negation is kept there.
pub open spec fn simplified(c: Formula, h: Hints) -> (Simp, Hints)
    decreases c,
{
    match c {
        Formula::Bool(b) => (Simp::Known(b), h),
        Formula::Not(x) => {
            let r = simplified(*x, h);
            (
                match r.0 {
                    Simp::Known(b) => Simp::Known(!b),
                    Simp::Open(f) => Simp::Open(Formula::Not(Box::new(f))),
                },
                h,
            )
        },
        Formula::And(vs) => simplified_and(vs, 0, seq![], h),
        Formula::Or(vs) => (simplified_or(vs, 0, seq![], h), h),
        Formula::Range { value: v, min, max, bits } => simplified_range(v, min, max, bits, h),
        Formula::Eq(a, b) => simplified_eq(a, b, h),
        Formula::Ne(a, b) => (simplified_ne(a, b, h), h),
        Formula::Le(a, b) => (verdict_or(le_known(a, b, h), c), h),
        Formula::Lt(a, b) => (verdict_or(lt_known(a, b, h), c), h),
        Formula::Ge(a, b) => (verdict_or(le_known(b, a, h), c), h),
        Formula::Gt(a, b) => (verdict_or(lt_known(b, a, h), c), h),
    }
}

/// The conjuncts from `i` on, behind the simplified conjuncts `acc`.
pub open spec fn simplified_and(vs: Seq<Formula>, i: int, acc: Seq<Formula>, h: Hints) -> (
    Simp,
    Hints,
)
    decreases vs, vs.len() - i,
{
    if i < 0 || i >= vs.len() {
        (
            if acc.len() == 0 {
                Simp::Known(true)
            } else if acc.len() == 1 {
                Simp::Open(acc[0])
            } else {
                Simp::Open(Formula::And(acc))
            },
            h,
        )
    } else {
        let r = simplified(vs[i], h);
        match r.0 {
            Simp::Known(false) => (Simp::Known(false), r.1),
            Simp::Known(true) => simplified_and(vs, i + 1, acc, r.1),
            Simp::Open(f) => simplified_and(vs, i + 1, acc.push(f), r.1),
        }
    }
}

/// The disjuncts from `i` on, behind the simplified disjuncts `acc`.
pub open spec fn simplified_or(vs: Seq<Formula>, i: int, acc: Seq<Formula>, h: Hints) -> Simp
    decreases vs, vs.len() - i,
{
    if i < 0 || i >= vs.len() {
        if acc.len() == 0 {
            Simp::Known(false)
        } else if acc.len() == 1 {
            Simp::Open(acc[0])
        } else {
            Simp::Open(Formula::Or(acc))
        }
    } else {
        match simplified(vs[i], h).0 {
            Simp::Known(true) => Simp::Known(true),
            Simp::Known(false) => simplified_or(vs, i + 1, acc, h),
            Simp::Open(f) => simplified_or(vs, i + 1, acc.push(f), h),
        }
    }
}

/// The table of hints with one entry set.
proof fn lemma_hint_set(a: NameMap<(i128, i128)>, b: NameMap<(i128, i128)>, name: Seq<char>, p: (
    i128,
    i128,
))
    requires
        b@ == a@.insert(name, p),
    ensures
        hint_map(b) == hint_map(a).insert(name, (p.0 as int, p.1 as int)),
{
    assert(hint_map(b) =~= hint_map(a).insert(name, (p.0 as int, p.1 as int)));
}

/// Narrows the interval of a variable.
pub fn tighten_range(hints: &mut NameMap<(i128, i128)>, name: &String, min: i128, max: i128) -> (r: (
    bool,
    bool,
))
    ensures
        (r.0, r.1, hint_map(*final(hints))) == tighten(
            hint_map(*old(hints)),
            name@,
            min as int,
            max as int,
        ),
{
    if min > max {
        return (true, false);
    }
    match hints.get(name.as_str()) {
        Some(h) => {
            let (lo, hi): (i128, i128) = *h;
            let implied = lo >= min && hi <= max;
            let new_lo = max_of(lo, min);
            let new_hi = min_of(hi, max);
            if new_lo > new_hi {
                return (true, implied);
            }
            hints.set(name.clone(), (new_lo, new_hi));
            proof {
                lemma_hint_set(*old(hints), *hints, name@, (new_lo, new_hi));
            }
            (false, implied)
        },
        None => {
            hints.set(name.clone(), (min, max));
            proof {
                lemma_hint_set(*old(hints), *hints, name@, (min, max));
            }
            (false, false)
        },
    }
}

fn narrow(
    hints: &mut NameMap<(i128, i128)>,
    name: &String,
    min: i128,
    max: i128,
    f: BoolExpr,
) -> (r: BoolSimplifyResult)
    ensures
        (r@, hint_map(*final(hints))) == narrowed(
            hint_map(*old(hints)),
            name@,
            min as int,
            max as int,
            f@,
        ),
{
    let (contradiction, implied) = tighten_range(hints, name, min, max);
    if contradiction {
        BoolSimplifyResult::Known(false)
    } else if implied {
        BoolSimplifyResult::Known(true)
    } else {
        BoolSimplifyResult::Open(f)
    }
}

fn range_of_atom(t: &SymExpr, hints: &NameMap<(i128, i128)>) -> (r: Option<(i128, i128)>)
    ensures
        as_interval(r) == atom_range(t@, hint_map(*hints)),
{
    match t {
        SymExpr::Int(k) => Some((*k, *k)),
        SymExpr::Var(name, _) => match hints.get(name.as_str()) {
            Some(h) => Some(*h),
            None => None,
        },
        _ => None,
    }
}

fn is_const(t: &SymExpr) -> (r: bool)
    ensures
        r == (t@ is Int),
{
    match t {
        SymExpr::Int(_) => true,
        _ => false,
    }
}

/// Whether `a <= b`, or `a < b` where `strict`, is decided by the intervals.
fn order_known(a: &SymExpr, b: &SymExpr, strict: bool, hints: &NameMap<(i128, i128)>) -> (r: Option<
    bool,
>)
    ensures
        r == if strict {
            lt_known(a@, b@, hint_map(*hints))
        } else {
            le_known(a@, b@, hint_map(*hints))
        },
{
    if !(is_const(a) || is_const(b)) {
        return None;
    }
    match (range_of_atom(a, hints), range_of_atom(b, hints)) {
        (Some(x), Some(y)) => {
            if strict {
                if x.0 >= y.1 {
                    Some(false)
                } else if x.1 < y.0 {
                    Some(true)
                } else {
                    None
                }
            } else if x.0 > y.1 {
                Some(false)
            } else if x.1 <= y.0 {
                Some(true)
            } else {
                None
            }
        },
        _ => None,
    }
}

fn decided(v: Option<bool>, f: BoolExpr) -> (r: BoolSimplifyResult)
    ensures
        r@ == verdict_or(v, f@),
{
    match v {
        Some(b) => BoolSimplifyResult::Known(b),
        None => BoolSimplifyResult::Open(f),
    }
}

fn simplify_range(
    v: SymExpr,
    min: i128,
    max: i128,
    bits: Option<usize>,
    hints: &mut NameMap<(i128, i128)>,
) -> (r: BoolSimplifyResult)
    ensures
        (r@, hint_map(*final(hints))) == simplified_range(
            v@,
            min as int,
            max as int,
            bits,
            hint_map(*old(hints)),
        ),
{
    if min > max {
        return BoolSimplifyResult::Known(false);
    }
    if let SymExpr::Int(k) = &v {
        return BoolSimplifyResult::Known(*k >= min && *k <= max);
    }
    let name = match &v {
        SymExpr::Var(name, _) => Some(name.clone()),
        _ => None,
    };
    let f = BoolExpr::Range { value: v, min, max, bits };
    match name {
        Some(name) => narrow(hints, &name, min, max, f),
        None => BoolSimplifyResult::Open(f),
    }
}

fn simplify_eq(a: SymExpr, b: SymExpr, hints: &mut NameMap<(i128, i128)>) -> (r: BoolSimplifyResult)
    ensures
        (r@, hint_map(*final(hints))) == simplified_eq(a@, b@, hint_map(*old(hints))),
{
    if a.same_as(&b) {
        return BoolSimplifyResult::Known(true);
    }
    let narrowing = match (&a, &b) {
        (SymExpr::Int(x), SymExpr::Int(y)) => return BoolSimplifyResult::Known(*x == *y),
        (SymExpr::Var(name, _), SymExpr::Int(k)) => Some((name.clone(), *k)),
        (SymExpr::Int(k), SymExpr::Var(name, _)) => Some((name.clone(), *k)),
        _ => None,
    };
    let f = BoolExpr::Eq(a, b);
    match narrowing {
        Some((name, k)) => narrow(hints, &name, k, k, f),
        None => BoolSimplifyResult::Open(f),
    }
}

fn ne_decided(r: Option<(i128, i128)>, k: i128) -> (v: Option<bool>)
    ensures
        v == ne_known(as_interval(r), k as int),
{
    match r {
        Some((lo, hi)) => if lo == hi {
            Some(lo != k)
        } else if k < lo || k > hi {
            Some(true)
        } else {
            None
        },
        None => None,
    }
}

fn simplify_ne(a: SymExpr, b: SymExpr, hints: &NameMap<(i128, i128)>) -> (r: BoolSimplifyResult)
    ensures
        r@ == simplified_ne(a@, b@, hint_map(*hints)),
{
    if a.same_as(&b) {
        return BoolSimplifyResult::Known(false);
    }
    let v = match (&a, &b) {
        (SymExpr::Int(x), SymExpr::Int(y)) => Some(*x != *y),
        (SymExpr::Var(_, _), SymExpr::Int(k)) => ne_decided(range_of_atom(&a, hints), *k),
        (SymExpr::Int(k), SymExpr::Var(_, _)) => ne_decided(range_of_atom(&b, hints), *k),
        _ => None,
    };
    decided(v, BoolExpr::Ne(a, b))
}

fn simplify_le(a: SymExpr, b: SymExpr, hints: &NameMap<(i128, i128)>) -> (r: BoolSimplifyResult)
    ensures
        r@ == verdict_or(le_known(a@, b@, hint_map(*hints)), Formula::Le(a@, b@)),
{
    let v = order_known(&a, &b, false, hints);
    decided(v, BoolExpr::Le(a, b))
}

fn simplify_lt(a: SymExpr, b: SymExpr, hints: &NameMap<(i128, i128)>) -> (r: BoolSimplifyResult)
    ensures
        r@ == verdict_or(lt_known(a@, b@, hint_map(*hints)), Formula::Lt(a@, b@)),
{
    let v = order_known(&a, &b, true, hints);
    decided(v, BoolExpr::Lt(a, b))
}

fn simplify_ge(a: SymExpr, b: SymExpr, hints: &NameMap<(i128, i128)>) -> (r: BoolSimplifyResult)
    ensures
        r@ == verdict_or(le_known(b@, a@, hint_map(*hints)), Formula::Ge(a@, b@)),
{
    let v = order_known(&b, &a, false, hints);
    decided(v, BoolExpr::Ge(a, b))
}

fn simplify_gt(a: SymExpr, b: SymExpr, hints: &NameMap<(i128, i128)>) -> (r: BoolSimplifyResult)
    ensures
        r@ == verdict_or(lt_known(b@, a@, hint_map(*hints)), Formula::Gt(a@, b@)),
{
    let v = order_known(&b, &a, true, hints);
    decided(v, BoolExpr::Gt(a, b))
}

/// A copy of a table of hints.
pub fn clone_hints(h: &NameMap<(i128, i128)>) -> (r: NameMap<(i128, i128)>)
    ensures
        hint_map(r) == hint_map(*h),
        r@ == h@,
{
    let mut out: NameMap<(i128, i128)> = NameMap::new();
    let n = h.entries.len();
    let mut i: usize = n;
    let ghost all = h.pairs();
    proof {
        assert(all.subrange(n as int, n as int) =~= seq![]);
    }
    while i > 0
        invariant
            i <= n,
            n == h.entries@.len(),
            all == h.pairs(),
            out@ == crate::name_map::map_of(all.subrange(i as int, n as int)),
        decreases i,
    {
        i = i - 1;
        let name = h.entries[i].0.clone();
        let p: (i128, i128) = h.entries[i].1;
        proof {
            let s = all.subrange(i as int, n as int);
            assert(s.subrange(1, s.len() as int) =~= all.subrange(i + 1, n as int));
            assert(s[0] == (name@, p));
        }
        out.set(name, p);
    }
    proof {
        assert(all.subrange(0, n as int) =~= all);
    }
    out
}

fn simplify_conjuncts(vs: Vec<BoolExpr>, hints: &mut NameMap<(i128, i128)>) -> (r:
    BoolSimplifyResult)
    ensures
        (r@, hint_map(*final(hints))) == simplified_and(
            formulas_of(vs@),
            0,
            seq![],
            hint_map(*old(hints)),
        ),
    decreases vs,
{
    let ghost all = vs@;
    let ghost fs = formulas_of(all);
    let mut flat: Vec<BoolExpr> = Vec::new();
    #[verifier::loop_isolation(false)]
    for v in it: vs
        invariant
            it.seq() == all,
            simplified_and(fs, 0, seq![], hint_map(*old(hints))) == simplified_and(
                fs,
                it.index(),
                formulas_of(flat@),
                hint_map(*hints),
            ),
    {
        proof {
            assert(fs[it.index()] == v@);
            assert(decreases_to!(all => all[it.index()]));
        }
        match simplify_bool_expr(v, hints) {
            BoolSimplifyResult::Known(b) => {
                if !b {
                    return BoolSimplifyResult::Known(false);
                }
            },
            BoolSimplifyResult::Open(f) => flat.push(f),
        }
    }
    if flat.len() == 0 {
        BoolSimplifyResult::Known(true)
    } else if flat.len() == 1 {
        BoolSimplifyResult::Open(flat.remove(0))
    } else {
        BoolSimplifyResult::Open(BoolExpr::And(flat))
    }
}

fn simplify_disjuncts(vs: Vec<BoolExpr>, hints: &NameMap<(i128, i128)>) -> (r: BoolSimplifyResult)
    ensures
        r@ == simplified_or(formulas_of(vs@), 0, seq![], hint_map(*hints)),
    decreases vs,
{
    let ghost all = vs@;
    let ghost fs = formulas_of(all);
    let mut flat: Vec<BoolExpr> = Vec::new();
    #[verifier::loop_isolation(false)]
    for v in it: vs
        invariant
            it.seq() == all,
            simplified_or(fs, 0, seq![], hint_map(*hints)) == simplified_or(
                fs,
                it.index(),
                formulas_of(flat@),
                hint_map(*hints),
            ),
    {
        proof {
            assert(fs[it.index()] == v@);
            assert(decreases_to!(all => all[it.index()]));
        }
        let mut branch = clone_hints(hints);
        match simplify_bool_expr(v, &mut branch) {
            BoolSimplifyResult::Known(b) => {
                if b {
                    return BoolSimplifyResult::Known(true);
                }
            },
            BoolSimplifyResult::Open(f) => flat.push(f),
        }
    }
    if flat.len() == 0 {
        BoolSimplifyResult::Known(false)
    } else if flat.len() == 1 {
        BoolSimplifyResult::Open(flat.remove(0))
    } else {
        BoolSimplifyResult::Open(BoolExpr::Or(flat))
    }
}

/// Simplifies a condition under hints, which it narrows.
pub fn simplify_bool_expr(cond: BoolExpr, hints: &mut NameMap<(i128, i128)>) -> (r:
    BoolSimplifyResult)
    ensures
        (r@, hint_map(*final(hints))) == simplified(cond@, hint_map(*old(hints))),
    decreases cond,
{
    match cond {
        BoolExpr::Bool(b) => BoolSimplifyResult::Known(b),
        BoolExpr::Not(inner) => {
            let mut under = clone_hints(hints);
            match simplify_bool_expr(*inner, &mut under) {
                BoolSimplifyResult::Known(b) => BoolSimplifyResult::Known(!b),
                BoolSimplifyResult::Open(f) => BoolSimplifyResult::Open(BoolExpr::Not(Box::new(f))),
            }
        },
        BoolExpr::And(vs) => simplify_conjuncts(vs, hints),
        BoolExpr::Or(vs) => simplify_disjuncts(vs, hints),
        BoolExpr::Range { value, min, max, bits } => simplify_range(value, min, max, bits, hints),
        BoolExpr::Eq(a, b) => simplify_eq(a, b, hints),
        BoolExpr::Ne(a, b) => simplify_ne(a, b, hints),
        BoolExpr::Le(a, b) => simplify_le(a, b, hints),
        BoolExpr::Lt(a, b) => simplify_lt(a, b, hints),
        BoolExpr::Ge(a, b) => simplify_ge(a, b, hints),
        BoolExpr::Gt(a, b) => simplify_gt(a, b, hints),
    }
}

} // verus!
