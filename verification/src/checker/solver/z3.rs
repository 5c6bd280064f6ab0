//! The Z3 back end: integer arithmetic with range constraints.
//!
//! A formula is written as an SMT-LIB script, in which the variables are numbered in the order of
//! their first occurrence.

use vstd::prelude::*;
use vstd::string::*;
use crate::checker::solver::smt::{refuted, witnessed};
use crate::checker::solver::SolveError;
use crate::checker::symbolic::expr::{
    formulas_of, terms_of, BoolExpr, Formula, SymExpr, SymType, Term,
};
use crate::checker::symbolic::meaning::value;
use crate::checker::symbolic::range::{
    as_interval, greatest, hint_map, least, max_of, min_of, range_is_sound,
    range_of, respects_hints, respects_sorts, symexpr_range, symtype_range, type_range, Hints,
};
use crate::name_map::NameMap;
use crate::text::{decimal, joined, join_text, push_nat, same_text, texts};

verus! {

broadcast use crate::checker::symbolic::expr_lists::group_lists;

/// Z3 backend using integer arithmetic with range constraints.
#[derive(Debug)]
pub struct Z3NiaBackend {
    /// The variables in the order of their first occurrence.
    vars: Vec<(String, SymType)>,
    /// The asserted conditions.
    asserts: Vec<String>,
    /// Optional range hints supplied by `assert_range` / Range predicates.
    range_hints: NameMap<(i128, i128)>,
}

/// Mathematical model of [`Z3NiaBackend`].
pub struct Z3V {
    pub vars: Seq<(Seq<char>, SymType)>,
    pub asserts: Seq<Seq<char>>,
    pub hints: Hints,
}

/// Names with their sorts.
pub open spec fn sorted_names(s: Seq<(String, SymType)>) -> Seq<(Seq<char>, SymType)> {
    Seq::new(s.len(), |i: int| (s[i].0@, s[i].1))
}

impl View for Z3NiaBackend {
    type V = Z3V;

    closed spec fn view(&self) -> Z3V {
        Z3V {
            vars: sorted_names(self.vars@),
            asserts: texts(self.asserts@),
            hints: hint_map(self.range_hints),
        }
    }
}

/// The place of a name, from place `i` on.
pub open spec fn place_from(vars: Seq<(Seq<char>, SymType)>, i: int, name: Seq<char>) -> Option<int>
    decreases vars.len() - i,
{
    if i < 0 || i >= vars.len() {
        None
    } else if vars[i].0 == name {
        Some(i)
    } else {
        place_from(vars, i + 1, name)
    }
}

/// The name of a variable in a script.
pub open spec fn script_name(i: int) -> Seq<char> {
    "v"@ + decimal(i as nat)
}

/// An integer in a script.
pub open spec fn script_int(k: int) -> Seq<char> {
    if k < 0 {
        "(- "@ + decimal((-k) as nat) + ")"@
    } else {
        decimal(k as nat)
    }
}

/// An application of an operator to one operand.
pub open spec fn unary(op: Seq<char>, a: Seq<char>) -> Seq<char> {
    "("@ + op + " "@ + a + ")"@
}

/// An application of an operator to two operands.
pub open spec fn binary(op: Seq<char>, a: Seq<char>, b: Seq<char>) -> Seq<char> {
    "("@ + op + " "@ + a + " "@ + b + ")"@
}

/// An application of an operator to three operands.
pub open spec fn ternary(op: Seq<char>, a: Seq<char>, b: Seq<char>, c: Seq<char>) -> Seq<char> {
    "("@ + op + " "@ + a + " "@ + b + " "@ + c + ")"@
}

/// A machine integer of 64 bits can hold the number.
pub open spec fn fits_word(k: int) -> bool {
    i64::MIN <= k <= i64::MAX
}

/// What the sort of a variable and the hint for it say together.
pub open spec fn merged_range(hint: Option<(int, int)>, sort: SymType) -> Option<(int, int)> {
    match (hint, type_range(sort)) {
        (Some(h), Some(t)) => Some((greatest(t.0, h.0), least(t.1, h.1))),
        (Some(h), None) => Some(h),
        (None, t) => t,
    }
}

/// The conditions for the range of a variable.
pub open spec fn range_asserts(v: Seq<char>, range: Option<(int, int)>) -> Seq<Seq<char>> {
    match range {
        None => seq![],
        Some((lo, hi)) => seq![
            binary(">="@, v, script_int(lo)),
            binary("<="@, v, script_int(hi)),
        ],
    }
}

/// A hint narrowed, unless nothing would be left of it.
pub open spec fn narrowed_hint(hints: Hints, name: Seq<char>, min: int, max: int) -> Hints {
    if min > max {
        hints
    } else if hints.contains_key(name) {
        let lo = greatest(hints[name].0, min);
        let hi = least(hints[name].1, max);
        if lo <= hi {
            hints.insert(name, (lo, hi))
        } else {
            hints
        }
    } else {
        hints.insert(name, (min, max))
    }
}

/// A hint for a variable.
pub open spec fn hinted(hints: Hints, t: Term, min: int, max: int) -> Hints {
    match t {
        Term::Var(name, _) => narrowed_hint(hints, name, min, max),
        _ => hints,
    }
}

/// The hints that a formula gives by its conjuncts; what stands under a negation or in a
/// disjunction gives none.
pub open spec fn preloaded(f: Formula, hints: Hints) -> Hints
    decreases f,
{
    match f {
        Formula::Range { value, min, max, .. } => hinted(hints, value, min, max),
        Formula::Eq(a, b) => {
            let first = match b {
                Term::Int(k) => hinted(hints, a, k, k),
                _ => hints,
            };
            match a {
                Term::Int(k) => hinted(first, b, k, k),
                _ => first,
            }
        },
        Formula::And(fs) => preloaded_from(fs, 0, hints),
        _ => hints,
    }
}

/// The hints that the formulas from `i` on give.
pub open spec fn preloaded_from(fs: Seq<Formula>, i: int, hints: Hints) -> Hints
    decreases fs, fs.len() - i,
{
    if i < 0 || i >= fs.len() {
        hints
    } else {
        preloaded_from(fs, i + 1, preloaded(fs[i], hints))
    }
}

/// The hints that a formula gives by those of its conjuncts that are ranges.
pub open spec fn ranged(f: Formula, hints: Hints) -> Hints
    decreases f,
{
    match f {
        Formula::Range { value, min, max, .. } => hinted(hints, value, min, max),
        Formula::And(fs) => ranged_from(fs, 0, hints),
        _ => hints,
    }
}

/// The hints that the formulas from `i` on give by ranges.
pub open spec fn ranged_from(fs: Seq<Formula>, i: int, hints: Hints) -> Hints
    decreases fs, fs.len() - i,
{
    if i < 0 || i >= fs.len() {
        hints
    } else {
        ranged_from(fs, i + 1, ranged(fs[i], hints))
    }
}

/// A reduction modulo a number does nothing to a term.
pub open spec fn mod_is_idle(a: Term, m: Term, hints: Hints) -> bool {
    match m {
        Term::Int(k) => k > 0 && match range_of(a, hints) {
            Some((lo, hi)) => lo >= 0 && hi < k,
            None => false,
        },
        _ => false,
    }
}

/// A reduction that is left out would not have changed the value.
pub proof fn idle_mod_keeps_value(
    a: Term,
    m: Term,
    hints: Hints,
    env: spec_fn(Seq<char>) -> int,
)
    requires
        mod_is_idle(a, m, hints),
        respects_hints(hints, env),
        respects_sorts(a, hints, env),
    ensures
        value(Term::Mod(Box::new(a), Box::new(m)), env) == value(a, env),
{
    range_is_sound(a, hints, env);
    let k = m->Int_0;
    let v = value(a, env);
    assert(value(m, env) == k);
    assert(v % k == v) by (nonlinear_arith)
        requires
            0 <= v < k,
    ;
}

/// The outcome of writing a part of a script.
pub type Written = Result<(Seq<char>, Z3V), SolveError>;

impl Z3V {
    /// The text of a variable; a new one is declared with its range.
    pub open spec fn var(self, name: Seq<char>, sort: SymType) -> Written {
        match place_from(self.vars, 0, name) {
            Some(i) => if self.vars[i].1 == sort {
                Ok((script_name(i), self))
            } else {
                Err(SolveError::InconsistentSort)
            },
            None => {
                let v = script_name(self.vars.len() as int);
                let hint = if self.hints.contains_key(name) {
                    Some(self.hints[name])
                } else {
                    None
                };
                Ok(
                    (
                        v,
                        Z3V {
                            vars: self.vars.push((name, sort)),
                            asserts: self.asserts + range_asserts(v, merged_range(hint, sort)),
                            ..self
                        },
                    ),
                )
            },
        }
    }

    /// The text of a term.
    pub open spec fn term(self, t: Term) -> Written
        decreases t,
    {
        match t {
            Term::Int(k) => if fits_word(k) {
                Ok((script_int(k), self))
            } else {
                Err(SolveError::ConstantTooLarge)
            },
            Term::Var(name, sort) => self.var(name, sort),
            Term::Neg(a) => with_unary("-"@, self.term(*a)),
            Term::Add(xs) => if xs.len() == 0 {
                Ok(("0"@, self))
            } else {
                match self.term(xs[0]) {
                    Err(x) => Err(x),
                    Ok((s, z)) => z.fold("+"@, xs, 1, s),
                }
            },
            Term::Mul(xs) => if xs.len() == 0 {
                Ok(("1"@, self))
            } else {
                match self.term(xs[0]) {
                    Err(x) => Err(x),
                    Ok((s, z)) => z.fold("*"@, xs, 1, s),
                }
            },
            Term::Sub(a, b) => match self.term(*a) {
                Err(x) => Err(x),
                Ok((s, z)) => with_binary("-"@, s, z.term(*b)),
            },
            Term::Div(a, b) => match self.term(*a) {
                Err(x) => Err(x),
                Ok((s, z)) => with_binary("div"@, s, z.term(*b)),
            },
            Term::Mod(a, b) => if mod_is_idle(*a, *b, self.hints) {
                self.term(*a)
            } else {
                match self.term(*a) {
                    Err(x) => Err(x),
                    Ok((s, z)) => with_binary("mod"@, s, z.term(*b)),
                }
            },
            Term::Ite(c, a, b) => match self.formula(*c) {
                Err(x) => Err(x),
                Ok((cs, z1)) => match z1.term(*a) {
                    Err(x) => Err(x),
                    Ok((s1, z2)) => match z2.term(*b) {
                        Err(x) => Err(x),
                        Ok((s2, z3)) => Ok((ternary("ite"@, cs, s1, s2), z3)),
                    },
                },
            },
        }
    }

    /// The text of an operator applied to the terms from `i` on, one after the other, with those
    /// before already in `acc`.
    pub open spec fn fold(self, op: Seq<char>, xs: Seq<Term>, i: int, acc: Seq<char>) -> Written
        decreases xs, xs.len() - i,
    {
        if i < 0 || i >= xs.len() {
            Ok((acc, self))
        } else {
            match self.term(xs[i]) {
                Err(x) => Err(x),
                Ok((s, z)) => z.fold(op, xs, i + 1, binary(op, acc, s)),
            }
        }
    }

    /// The text of a formula.
    pub open spec fn formula(self, f: Formula) -> Written
        decreases f,
    {
        match f {
            Formula::Bool(b) => Ok(
                (
                    if b {
                        "true"@
                    } else {
                        "false"@
                    },
                    self,
                ),
            ),
            Formula::Not(a) => with_unary("not"@, self.formula(*a)),
            Formula::And(fs) => if fs.len() == 0 {
                Ok(("true"@, self))
            } else {
                with_list("and"@, self.all(fs, 0, seq![]))
            },
            Formula::Or(fs) => if fs.len() == 0 {
                Ok(("false"@, self))
            } else {
                with_list("or"@, self.all(fs, 0, seq![]))
            },
            Formula::Eq(a, b) => match self.term(a) {
                Err(x) => Err(x),
                Ok((s, z)) => with_binary("="@, s, z.term(b)),
            },
            Formula::Ne(a, b) => match self.term(a) {
                Err(x) => Err(x),
                Ok((s, z)) => with_binary("distinct"@, s, z.term(b)),
            },
            Formula::Le(a, b) => match self.term(a) {
                Err(x) => Err(x),
                Ok((s, z)) => with_binary("<="@, s, z.term(b)),
            },
            Formula::Lt(a, b) => match self.term(a) {
                Err(x) => Err(x),
                Ok((s, z)) => with_binary("<"@, s, z.term(b)),
            },
            Formula::Ge(a, b) => match self.term(a) {
                Err(x) => Err(x),
                Ok((s, z)) => with_binary(">="@, s, z.term(b)),
            },
            Formula::Gt(a, b) => match self.term(a) {
                Err(x) => Err(x),
                Ok((s, z)) => with_binary(">"@, s, z.term(b)),
            },
            Formula::Range { value, min, max, .. } => with_bounds(self.term(value), min, max),
        }
    }

    /// The texts of the formulas from `i` on, behind `parts`.
    pub open spec fn all(self, fs: Seq<Formula>, i: int, parts: Seq<Seq<char>>) -> Result<
        (Seq<Seq<char>>, Z3V),
        SolveError,
    >
        decreases fs, fs.len() - i,
    {
        if i < 0 || i >= fs.len() {
            Ok((parts, self))
        } else {
            match self.formula(fs[i]) {
                Err(x) => Err(x),
                Ok((s, z)) => z.all(fs, i + 1, parts.push(s)),
            }
        }
    }

    /// The script: declarations, conditions.
    pub open spec fn script(self) -> Seq<char> {
        with_asserts(with_decls(seq![], self.vars.len() as int), self.asserts, self.asserts.len() as int)
    }
}

/// An operator applied to what was written.
pub open spec fn with_unary(op: Seq<char>, r: Written) -> Written {
    match r {
        Err(x) => Err(x),
        Ok((s, z)) => Ok((unary(op, s), z)),
    }
}

/// An operator applied to an operand and what was written.
pub open spec fn with_binary(op: Seq<char>, a: Seq<char>, r: Written) -> Written {
    match r {
        Err(x) => Err(x),
        Ok((s, z)) => Ok((binary(op, a, s), z)),
    }
}

/// An operator applied to a list.
pub open spec fn with_list(op: Seq<char>, r: Result<(Seq<Seq<char>>, Z3V), SolveError>) -> Written {
    match r {
        Err(x) => Err(x),
        Ok((parts, z)) => Ok((unary(op, joined(parts, " "@)), z)),
    }
}

/// The condition that what was written lies in an interval.
pub open spec fn with_bounds(r: Written, min: int, max: int) -> Written {
    match r {
        Err(x) => Err(x),
        Ok((s, z)) => if !fits_word(min) || !fits_word(max) {
            Err(SolveError::BoundTooLarge)
        } else {
            Ok(
                (
                    binary(
                        "and"@,
                        binary(">="@, s, script_int(min)),
                        binary("<="@, s, script_int(max)),
                    ),
                    z,
                ),
            )
        },
    }
}

/// `s` followed by the declarations of the first `n` variables.
pub open spec fn with_decls(s: Seq<char>, n: int) -> Seq<char>
    decreases n,
{
    if n <= 0 {
        s
    } else {
        with_decls(s, n - 1) + "(declare-const "@ + script_name(n - 1) + " Int)\n"@
    }
}

/// `s` followed by the first `n` conditions.
pub open spec fn with_asserts(s: Seq<char>, asserts: Seq<Seq<char>>, n: int) -> Seq<char>
    decreases n,
{
    if n <= 0 || n > asserts.len() {
        s
    } else {
        with_asserts(s, asserts, n - 1) + "(assert "@ + asserts[n - 1] + ")\n"@
    }
}

/// Nothing declared, nothing asserted.
pub open spec fn empty_z3() -> Z3V {
    Z3V { vars: seq![], asserts: seq![], hints: Map::empty() }
}

/// The back end after a formula has been asserted.
pub open spec fn asserted(z: Z3V, f: Formula) -> Result<Z3V, SolveError> {
    match (Z3V { hints: ranged(f, z.hints), ..z }).formula(f) {
        Err(x) => Err(x),
        Ok((s, z2)) => Ok(Z3V { asserts: z2.asserts.push(s), ..z2 }),
    }
}

/// The script that asks whether a formula is satisfiable, besides what has been asserted.
pub open spec fn script_with(z: Z3V, f: Formula) -> Result<Seq<char>, SolveError> {
    match asserted(Z3V { hints: preloaded(f, z.hints), ..z }, f) {
        Err(x) => Err(x),
        Ok(z2) => Ok(z2.script()),
    }
}

/// A script that can be handed to the solver.
pub open spec fn runnable(script: Seq<char>) -> bool {
    !script.contains('\0')
}

/// The outcome of writing a part of a script.
pub open spec fn written_view(r: Result<(String, Z3NiaBackend), SolveError>) -> Written {
    match r {
        Ok((s, z)) => Ok((s@, z@)),
        Err(x) => Err(x),
    }
}

fn int_script(k: i128) -> (r: String)
    ensures
        r@ == script_int(k as int),
{
    let mut s = String::new();
    if k < 0 {
        s.append("(- ");
        push_nat(&mut s, (-(k + 1)) as u128 + 1);
        s.append(")");
        proof {
            assert(s@ =~= "(- "@ + decimal((-k) as nat) + ")"@);
        }
    } else {
        push_nat(&mut s, k as u128);
        proof {
            assert(s@ =~= decimal(k as nat));
        }
    }
    s
}

fn name_script(i: usize) -> (r: String)
    ensures
        r@ == script_name(i as int),
{
    let mut s = "v".to_string();
    push_nat(&mut s, i as u128);
    s
}

fn unary_script(op: &str, a: &str) -> (r: String)
    ensures
        r@ == unary(op@, a@),
{
    let mut s = "(".to_string();
    s.append(op);
    s.append(" ");
    s.append(a);
    s.append(")");
    s
}

fn binary_script(op: &str, a: &str, b: &str) -> (r: String)
    ensures
        r@ == binary(op@, a@, b@),
{
    let mut s = "(".to_string();
    s.append(op);
    s.append(" ");
    s.append(a);
    s.append(" ");
    s.append(b);
    s.append(")");
    s
}

fn ternary_script(op: &str, a: &str, b: &str, c: &str) -> (r: String)
    ensures
        r@ == ternary(op@, a@, b@, c@),
{
    let mut s = "(".to_string();
    s.append(op);
    s.append(" ");
    s.append(a);
    s.append(" ");
    s.append(b);
    s.append(" ");
    s.append(c);
    s.append(")");
    s
}

fn word(k: i128) -> (r: bool)
    ensures
        r == fits_word(k as int),
{
    i64::MIN as i128 <= k && k <= i64::MAX as i128
}

fn narrow_hint(hints: &mut NameMap<(i128, i128)>, name: &String, min: i128, max: i128)
    ensures
        hint_map(*final(hints)) == narrowed_hint(
            hint_map(*old(hints)),
            name@,
            min as int,
            max as int,
        ),
{
    let ghost before = hint_map(*hints);
    if min > max {
        return;
    }
    let new = match hints.get(name.as_str()) {
        Some(h) => {
            let lo = max_of(h.0, min);
            let hi = min_of(h.1, max);
            if lo > hi {
                return;
            }
            (lo, hi)
        },
        None => (min, max),
    };
    hints.set(name.clone(), new);
    proof {
        assert(hint_map(*hints) =~= before.insert(name@, (new.0 as int, new.1 as int)));
    }
}

fn record_hint(hints: &mut NameMap<(i128, i128)>, e: &SymExpr, min: i128, max: i128)
    ensures
        hint_map(*final(hints)) == hinted(hint_map(*old(hints)), e@, min as int, max as int),
{
    if let SymExpr::Var(name, _) = e {
        narrow_hint(hints, name, min, max);
    }
}

fn preload_list(fs: &Vec<BoolExpr>, hints: &mut NameMap<(i128, i128)>)
    ensures
        hint_map(*final(hints)) == preloaded_from(formulas_of(fs@), 0, hint_map(*old(hints))),
    decreases fs,
{
    let ghost all = formulas_of(fs@);
    let ghost start = hint_map(*hints);
    #[verifier::loop_isolation(false)]
    for i in 0..fs.len()
        invariant
            preloaded_from(all, 0, start) == preloaded_from(all, i as int, hint_map(*hints)),
    {
        proof {
            assert(all[i as int] == fs@[i as int]@);
        }
        preload_ranges(&fs[i], hints);
    }
}

/// Records the hints that a formula gives by its conjuncts. Disjunctions are skipped, since hints
/// drawn from different branches can conflict, and so are negations.
fn preload_ranges(f: &BoolExpr, hints: &mut NameMap<(i128, i128)>)
    ensures
        hint_map(*final(hints)) == preloaded(f@, hint_map(*old(hints))),
    decreases f,
{
    match f {
        BoolExpr::Range { value, min, max, .. } => record_hint(hints, value, *min, *max),
        BoolExpr::Eq(a, b) => {
            if let SymExpr::Int(k) = b {
                record_hint(hints, a, *k, *k);
            }
            if let SymExpr::Int(k) = a {
                record_hint(hints, b, *k, *k);
            }
        },
        BoolExpr::And(fs) => preload_list(fs, hints),
        _ => {},
    }
}

fn record_range_list(fs: &Vec<BoolExpr>, hints: &mut NameMap<(i128, i128)>)
    ensures
        hint_map(*final(hints)) == ranged_from(formulas_of(fs@), 0, hint_map(*old(hints))),
    decreases fs,
{
    let ghost all = formulas_of(fs@);
    let ghost start = hint_map(*hints);
    #[verifier::loop_isolation(false)]
    for i in 0..fs.len()
        invariant
            ranged_from(all, 0, start) == ranged_from(all, i as int, hint_map(*hints)),
    {
        proof {
            assert(all[i as int] == fs@[i as int]@);
        }
        record_ranges(&fs[i], hints);
    }
}

/// Records the hints that a formula gives by those of its conjuncts that are ranges.
fn record_ranges(f: &BoolExpr, hints: &mut NameMap<(i128, i128)>)
    ensures
        hint_map(*final(hints)) == ranged(f@, hint_map(*old(hints))),
    decreases f,
{
    match f {
        BoolExpr::Range { value, min, max, .. } => record_hint(hints, value, *min, *max),
        BoolExpr::And(fs) => record_range_list(fs, hints),
        _ => {},
    }
}

fn mod_can_drop(a: &SymExpr, m: &SymExpr, hints: &NameMap<(i128, i128)>) -> (r: bool)
    ensures
        r == mod_is_idle(a@, m@, hint_map(*hints)),
{
    if let SymExpr::Int(k) = m {
        if *k <= 0 {
            return false;
        }
        if let Some((lo, hi)) = symexpr_range(a, hints) {
            return lo >= 0 && hi < *k;
        }
    }
    false
}

fn merge_range(hint: Option<&(i128, i128)>, sort: &SymType) -> (r: Option<(i128, i128)>)
    ensures
        as_interval(r) == merged_range(
            match hint {
                Some(h) => Some((h.0 as int, h.1 as int)),
                None => None,
            },
            *sort,
        ),
{
    match (hint, symtype_range(sort)) {
        (Some(h), Some(t)) => Some((max_of(t.0, h.0), min_of(t.1, h.1))),
        (Some(h), None) => Some((h.0, h.1)),
        (None, t) => t,
    }
}

impl Z3NiaBackend {
    /// A back end with nothing declared and nothing asserted.
    pub fn new() -> (r: Self)
        ensures
            r@ == empty_z3(),
    {
        let r = Z3NiaBackend { vars: Vec::new(), asserts: Vec::new(), range_hints: NameMap::new() };
        proof {
            assert(r@.vars =~= seq![]);
            assert(r@.asserts =~= seq![]);
            assert(r@.hints =~= Map::empty());
        }
        r
    }

    fn push_assert(self, text: String) -> (r: Self)
        ensures
            r@ == (Z3V { asserts: self@.asserts.push(text@), ..self@ }),
    {
        let mut z = self;
        let ghost before = z.asserts@;
        z.asserts.push(text);
        proof {
            assert(texts(z.asserts@) =~= texts(before).push(text@));
        }
        z
    }

    fn assert_range(self, v: &str, range: Option<(i128, i128)>) -> (r: Self)
        ensures
            r@ == (Z3V {
                asserts: self@.asserts + range_asserts(v@, as_interval(range)),
                ..self@
            }),
    {
        let ghost start = self@.asserts;
        let mut z = self;
        if let Some((lo, hi)) = range {
            let low = int_script(lo);
            z = z.push_assert(binary_script(">=", v, low.as_str()));
            let high = int_script(hi);
            z = z.push_assert(binary_script("<=", v, high.as_str()));
        }
        proof {
            assert(z@.asserts =~= start + range_asserts(v@, as_interval(range)));
        }
        z
    }

    fn int_var(self, name: &String, sort: &SymType) -> (r: Result<(String, Self), SolveError>)
        ensures
            written_view(r) == self@.var(name@, *sort),
    {
        let ghost vs = self@.vars;
        #[verifier::loop_isolation(false)]
        for i in 0..self.vars.len()
            invariant
                place_from(vs, 0, name@) == place_from(vs, i as int, name@),
        {
            proof {
                assert(vs[i as int] == (self.vars@[i as int].0@, self.vars@[i as int].1));
            }
            if same_text(self.vars[i].0.as_str(), name.as_str()) {
                if self.vars[i].1 == *sort {
                    return Ok((name_script(i), self));
                }
                return Err(SolveError::InconsistentSort);
            }
        }
        let v = name_script(self.vars.len());
        let range = merge_range(self.range_hints.get(name.as_str()), sort);
        let mut z = self;
        let ghost before = z.vars@;
        let own = name.clone();
        z.vars.push((own, *sort));
        proof {
            assert(sorted_names(z.vars@) =~= sorted_names(before).push((name@, *sort)));
        }
        let z = z.assert_range(v.as_str(), range);
        Ok((v, z))
    }

    fn encode_fold(self, op: &str, xs: &Vec<SymExpr>, first: String) -> (r: Result<
        (String, Self),
        SolveError,
    >)
        requires
            xs@.len() > 0,
        ensures
            written_view(r) == self@.fold(op@, terms_of(xs@), 1, first@),
        decreases xs, 0int,
    {
        let ghost ts = terms_of(xs@);
        let ghost start = self@;
        let mut z = self;
        let mut acc = first;
        #[verifier::loop_isolation(false)]
        for i in 1..xs.len()
            invariant
                start.fold(op@, ts, 1, first@) == z@.fold(op@, ts, i as int, acc@),
        {
            proof {
                assert(ts[i as int] == xs@[i as int]@);
            }
            let (s, z2) = z.encode_int(&xs[i])?;
            acc = binary_script(op, acc.as_str(), s.as_str());
            z = z2;
        }
        Ok((acc, z))
    }

    fn encode_int(self, e: &SymExpr) -> (r: Result<(String, Self), SolveError>)
        ensures
            written_view(r) == self@.term(e@),
        decreases e, 0int,
    {
        match e {
            SymExpr::Int(k) => if word(*k) {
                Ok((int_script(*k), self))
            } else {
                Err(SolveError::ConstantTooLarge)
            },
            SymExpr::Var(name, sort) => self.int_var(name, sort),
            SymExpr::Neg(a) => {
                let (s, z) = self.encode_int(a)?;
                Ok((unary_script("-", s.as_str()), z))
            },
            SymExpr::Add(xs) => {
                proof {
                    assert(terms_of(xs@).len() == xs@.len());
                }
                if xs.len() == 0 {
                    return Ok(("0".to_string(), self));
                }
                proof {
                    assert(terms_of(xs@)[0] == xs@[0]@);
                }
                let (s, z) = self.encode_int(&xs[0])?;
                z.encode_fold("+", xs, s)
            },
            SymExpr::Mul(xs) => {
                proof {
                    assert(terms_of(xs@).len() == xs@.len());
                }
                if xs.len() == 0 {
                    return Ok(("1".to_string(), self));
                }
                proof {
                    assert(terms_of(xs@)[0] == xs@[0]@);
                }
                let (s, z) = self.encode_int(&xs[0])?;
                z.encode_fold("*", xs, s)
            },
            SymExpr::Sub(a, b) => {
                let (s1, z) = self.encode_int(a)?;
                let (s2, z) = z.encode_int(b)?;
                Ok((binary_script("-", s1.as_str(), s2.as_str()), z))
            },
            SymExpr::Div(a, b) => {
                let (s1, z) = self.encode_int(a)?;
                let (s2, z) = z.encode_int(b)?;
                Ok((binary_script("div", s1.as_str(), s2.as_str()), z))
            },
            SymExpr::Mod(a, b) => {
                if mod_can_drop(a, b, &self.range_hints) {
                    return self.encode_int(a);
                }
                let (s1, z) = self.encode_int(a)?;
                let (s2, z) = z.encode_int(b)?;
                Ok((binary_script("mod", s1.as_str(), s2.as_str()), z))
            },
            SymExpr::Ite(c, a, b) => {
                let (cs, z) = self.encode_bool(c)?;
                let (s1, z) = z.encode_int(a)?;
                let (s2, z) = z.encode_int(b)?;
                Ok((ternary_script("ite", cs.as_str(), s1.as_str(), s2.as_str()), z))
            },
        }
    }

    fn encode_list(self, fs: &Vec<BoolExpr>) -> (r: Result<(Vec<String>, Self), SolveError>)
        ensures
            match r {
                Ok((v, z)) => self@.all(formulas_of(fs@), 0, seq![]) == Ok::<
                    (Seq<Seq<char>>, Z3V),
                    SolveError,
                >((texts(v@), z@)),
                Err(x) => self@.all(formulas_of(fs@), 0, seq![]) == Err::<
                    (Seq<Seq<char>>, Z3V),
                    SolveError,
                >(x),
            },
        decreases fs, 0int,
    {
        let ghost all = formulas_of(fs@);
        let ghost start = self@;
        let mut z = self;
        let mut parts: Vec<String> = Vec::new();
        proof {
            assert(texts(parts@) =~= seq![]);
        }
        #[verifier::loop_isolation(false)]
        for i in 0..fs.len()
            invariant
                start.all(all, 0, seq![]) == z@.all(all, i as int, texts(parts@)),
        {
            proof {
                assert(all[i as int] == fs@[i as int]@);
            }
            let ghost before = parts@;
            let (s, z2) = z.encode_bool(&fs[i])?;
            parts.push(s);
            z = z2;
            proof {
                assert(texts(parts@) =~= texts(before).push(s@));
            }
        }
        Ok((parts, z))
    }

    fn encode_bool(self, f: &BoolExpr) -> (r: Result<(String, Self), SolveError>)
        ensures
            written_view(r) == self@.formula(f@),
        decreases f, 0int,
    {
        match f {
            BoolExpr::Bool(b) => Ok(
                (
                    if *b {
                        "true".to_string()
                    } else {
                        "false".to_string()
                    },
                    self,
                ),
            ),
            BoolExpr::Not(a) => {
                let (s, z) = self.encode_bool(a)?;
                Ok((unary_script("not", s.as_str()), z))
            },
            BoolExpr::And(fs) => {
                proof {
                    assert(formulas_of(fs@).len() == fs@.len());
                }
                if fs.len() == 0 {
                    return Ok(("true".to_string(), self));
                }
                let (parts, z) = self.encode_list(fs)?;
                Ok((unary_script("and", join_text(&parts, " ").as_str()), z))
            },
            BoolExpr::Or(fs) => {
                proof {
                    assert(formulas_of(fs@).len() == fs@.len());
                }
                if fs.len() == 0 {
                    return Ok(("false".to_string(), self));
                }
                let (parts, z) = self.encode_list(fs)?;
                Ok((unary_script("or", join_text(&parts, " ").as_str()), z))
            },
            BoolExpr::Eq(a, b) => {
                let (s1, z) = self.encode_int(a)?;
                let (s2, z) = z.encode_int(b)?;
                Ok((binary_script("=", s1.as_str(), s2.as_str()), z))
            },
            BoolExpr::Ne(a, b) => {
                let (s1, z) = self.encode_int(a)?;
                let (s2, z) = z.encode_int(b)?;
                Ok((binary_script("distinct", s1.as_str(), s2.as_str()), z))
            },
            BoolExpr::Le(a, b) => {
                let (s1, z) = self.encode_int(a)?;
                let (s2, z) = z.encode_int(b)?;
                Ok((binary_script("<=", s1.as_str(), s2.as_str()), z))
            },
            BoolExpr::Lt(a, b) => {
                let (s1, z) = self.encode_int(a)?;
                let (s2, z) = z.encode_int(b)?;
                Ok((binary_script("<", s1.as_str(), s2.as_str()), z))
            },
            BoolExpr::Ge(a, b) => {
                let (s1, z) = self.encode_int(a)?;
                let (s2, z) = z.encode_int(b)?;
                Ok((binary_script(">=", s1.as_str(), s2.as_str()), z))
            },
            BoolExpr::Gt(a, b) => {
                let (s1, z) = self.encode_int(a)?;
                let (s2, z) = z.encode_int(b)?;
                Ok((binary_script(">", s1.as_str(), s2.as_str()), z))
            },
            BoolExpr::Range { value, min, max, .. } => {
                let (s, z) = self.encode_int(value)?;
                if !word(*min) || !word(*max) {
                    return Err(SolveError::BoundTooLarge);
                }
                let lo = int_script(*min);
                let hi = int_script(*max);
                let low = binary_script(">=", s.as_str(), lo.as_str());
                let high = binary_script("<=", s.as_str(), hi.as_str());
                Ok((binary_script("and", low.as_str(), high.as_str()), z))
            },
        }
    }

    /// Assert a formula. Those of its conjuncts that are ranges become hints.
    pub fn assert_bool(self, f: &BoolExpr) -> (r: Result<Self, SolveError>)
        ensures
            crate::view::ok_view(r) == asserted(self@, f@),
    {
        let mut z = self;
        record_ranges(f, &mut z.range_hints);
        let (s, z) = z.encode_bool(f)?;
        Ok(z.push_assert(s))
    }

    /// The script: declarations and conditions.
    pub fn build_script(&self) -> (r: String)
        ensures
            r@ == self@.script(),
    {
        let mut out = String::new();
        proof {
            assert(out@ =~= seq![]);
        }
        #[verifier::loop_isolation(false)]
        for i in 0..self.vars.len()
            invariant
                out@ == with_decls(seq![], i as int),
        {
            let name = name_script(i);
            out.append("(declare-const ");
            out.append(name.as_str());
            out.append(" Int)\n");
        }
        let ghost decls = out@;
        #[verifier::loop_isolation(false)]
        for i in 0..self.asserts.len()
            invariant
                out@ == with_asserts(decls, self@.asserts, i as int),
        {
            proof {
                assert(self@.asserts[i as int] == self.asserts@[i as int]@);
            }
            out.append("(assert ");
            out.append(self.asserts[i].as_str());
            out.append(")\n");
        }
        out
    }

    /// The script that asks whether a formula is satisfiable, besides what has been asserted.
    /// Range hints are recorded first, so that they serve even where the corresponding conditions
    /// appear later in the formula.
    pub fn script_for(self, phi: &BoolExpr) -> (r: Result<String, SolveError>)
        ensures
            crate::view::ok_view(r) == script_with(self@, phi@),
    {
        let mut z = self;
        preload_ranges(phi, &mut z.range_hints);
        let z = z.assert_bool(phi)?;
        Ok(z.build_script())
    }

    /// Whether a formula is satisfiable, by the solver's answer to its script.
    pub fn check(self, phi: &BoolExpr) -> (r: Result<bool, SolveError>)
        ensures
            possible_answer(script_with(self@, phi@), r),
    {
        let script = self.script_for(phi)?;
        if !can_run(script.as_str()) {
            return Err(SolveError::InvalidScript);
        }
        verdict(run_script(script.as_str()))
    }
}

/// What a solver says about a script.
#[derive(Clone, Copy, Debug, PartialEq, Eq, Structural)]
pub enum SolveStatus {
    Sat,
    Unsat,
    Unknown,
}

/// Whether the solver finds the assertions of a script satisfiable, where it decides them.
pub uninterp spec fn satisfiable(script: Seq<char>) -> bool;

/// An answer to a formula that has been written as a script: a script that could not be written or
/// run is reported, and of others the answer is what the solver decides, if it does, and says
/// whether there is a model.
pub open spec fn possible_answer(
    script: Result<Seq<char>, SolveError>,
    answer: Result<bool, SolveError>,
) -> bool {
    match script {
        Err(x) => answer == Err::<bool, SolveError>(x),
        Ok(s) => if runnable(s) {
            match answer {
                Ok(sat) => sat == satisfiable(s) && if sat {
                    witnessed(s)
                } else {
                    refuted(s)
                },
                Err(x) => x == SolveError::Unknown,
            }
        } else {
            answer == Err::<bool, SolveError>(SolveError::InvalidScript)
        },
    }
}

/// What an answer says about satisfiability.
pub fn verdict(status: SolveStatus) -> (r: Result<bool, SolveError>)
    ensures
        r == match status {
            SolveStatus::Sat => Ok::<bool, SolveError>(true),
            SolveStatus::Unsat => Ok(false),
            SolveStatus::Unknown => Err(SolveError::Unknown),
        },
{
    match status {
        SolveStatus::Sat => Ok(true),
        SolveStatus::Unsat => Ok(false),
        SolveStatus::Unknown => Err(SolveError::Unknown),
    }
}

fn can_run(script: &str) -> (r: bool)
    ensures
        r == runnable(script@),
{
    let n = script.unicode_len();
    for i in 0..n
        invariant
            n == script@.len(),
            forall|j: int| 0 <= j < i ==> (#[trigger] script@[j]) != '\0',
    {
        if script.get_char(i) == '\0' {
            return false;
        }
    }
    true
}

/// `z3::Solver::from_string` and `z3::Solver::check` on a new solver: the script is loaded and
/// checked. A script has one of the answers `Sat` and `Unsat`, and no run gives the other one.
/// `Unsat` says that the assertions of the script have no model over the integers, and `Sat` that
/// they have one. Whether there is an answer at all depends on how far the solver gets: that is
/// left open, and so is what `Sat` says of a script with a divisor that may be zero.
#[verifier::external_body]
fn run_script(script: &str) -> (r: SolveStatus)
    requires
        runnable(script@),
    ensures
        r == SolveStatus::Sat ==> satisfiable(script@),
        r == SolveStatus::Unsat ==> !satisfiable(script@),
        r == SolveStatus::Sat ==> witnessed(script@),
        r == SolveStatus::Unsat ==> refuted(script@),
{
    let s = ::z3::Solver::new();
    s.from_string(script);
    match s.check() {
        ::z3::SatResult::Sat => SolveStatus::Sat,
        ::z3::SatResult::Unsat => SolveStatus::Unsat,
        ::z3::SatResult::Unknown => SolveStatus::Unknown,
    }
}

} // verus!
