//! Changing the sort of a variable throughout an expression.

use vstd::prelude::*;
use crate::checker::symbolic::expr::{
    formulas_of, terms_of, BoolExpr, Formula, SymExpr, SymType, Term,
};
use crate::checker::symbolic::meaning::{
    all_hold, holds, product_value, some_holds, sum_value, value,
};
use crate::text::same_text;

verus! {

broadcast use crate::checker::symbolic::expr_lists::group_lists;

/// `t` with every variable named `target` given the sort `ty`.
pub open spec fn resort(t: Term, target: Seq<char>, ty: SymType) -> Term
    decreases t,
{
    match t {
        Term::Int(k) => Term::Int(k),
        Term::Var(name, old_ty) => Term::Var(
            name,
            if name == target {
                ty
            } else {
                old_ty
            },
        ),
        Term::Neg(x) => Term::Neg(Box::new(resort(*x, target, ty))),
        Term::Add(xs) => Term::Add(resort_all(xs, target, ty)),
        Term::Mul(xs) => Term::Mul(resort_all(xs, target, ty)),
        Term::Sub(a, b) => Term::Sub(
            Box::new(resort(*a, target, ty)),
            Box::new(resort(*b, target, ty)),
        ),
        Term::Div(a, b) => Term::Div(
            Box::new(resort(*a, target, ty)),
            Box::new(resort(*b, target, ty)),
        ),
        Term::Mod(a, b) => Term::Mod(
            Box::new(resort(*a, target, ty)),
            Box::new(resort(*b, target, ty)),
        ),
        Term::Ite(c, a, b) => Term::Ite(
            Box::new(resort_formula(*c, target, ty)),
            Box::new(resort(*a, target, ty)),
            Box::new(resort(*b, target, ty)),
        ),
    }
}

/// [`resort`] of each member.
pub open spec fn resort_all(xs: Seq<Term>, target: Seq<char>, ty: SymType) -> Seq<Term>
    decreases xs,
{
    if xs.len() == 0 {
        seq![]
    } else {
        resort_all(xs.drop_last(), target, ty).push(resort(xs.last(), target, ty))
    }
}

/// `f` with every variable named `target` given the sort `ty`.
pub open spec fn resort_formula(f: Formula, target: Seq<char>, ty: SymType) -> Formula
    decreases f,
{
    match f {
        Formula::Bool(v) => Formula::Bool(v),
        Formula::Not(x) => Formula::Not(Box::new(resort_formula(*x, target, ty))),
        Formula::And(xs) => Formula::And(resort_formulas(xs, target, ty)),
        Formula::Or(xs) => Formula::Or(resort_formulas(xs, target, ty)),
        Formula::Eq(a, b) => Formula::Eq(resort(a, target, ty), resort(b, target, ty)),
        Formula::Ne(a, b) => Formula::Ne(resort(a, target, ty), resort(b, target, ty)),
        Formula::Le(a, b) => Formula::Le(resort(a, target, ty), resort(b, target, ty)),
        Formula::Lt(a, b) => Formula::Lt(resort(a, target, ty), resort(b, target, ty)),
        Formula::Ge(a, b) => Formula::Ge(resort(a, target, ty), resort(b, target, ty)),
        Formula::Gt(a, b) => Formula::Gt(resort(a, target, ty), resort(b, target, ty)),
        Formula::Range { value: v, min, max, bits } => Formula::Range {
            value: resort(v, target, ty),
            min,
            max,
            bits,
        },
    }
}

/// [`resort_formula`] of each member.
pub open spec fn resort_formulas(xs: Seq<Formula>, target: Seq<char>, ty: SymType) -> Seq<Formula>
    decreases xs,
{
    if xs.len() == 0 {
        seq![]
    } else {
        resort_formulas(xs.drop_last(), target, ty).push(resort_formula(xs.last(), target, ty))
    }
}

fn resort_term_list(xs: Vec<SymExpr>, target: &str, new_ty: &SymType) -> (r: Vec<SymExpr>)
    ensures
        terms_of(r@) == resort_all(terms_of(xs@), target@, *new_ty),
    decreases xs,
{
    let ghost all = xs@;
    let ghost ts = terms_of(all);
    let mut out: Vec<SymExpr> = Vec::new();
    proof {
        assert(ts.take(0) =~= seq![]);
    }
    #[verifier::loop_isolation(false)]
    for x in it: xs
        invariant
            it.seq() == all,
            terms_of(out@) == resort_all(ts.take(it.index()), target@, *new_ty),
    {
        proof {
            let i = it.index();
            assert(ts.take(i + 1).drop_last() =~= ts.take(i));
            assert(ts.take(i + 1).last() == x@);
            assert(decreases_to!(all => all[i]));
        }
        out.push(x.rewrite_var_sort(target, new_ty));
    }
    proof {
        assert(ts.take(ts.len() as int) =~= ts);
    }
    out
}

fn resort_formula_list(xs: Vec<BoolExpr>, target: &str, new_ty: &SymType) -> (r: Vec<BoolExpr>)
    ensures
        formulas_of(r@) == resort_formulas(formulas_of(xs@), target@, *new_ty),
    decreases xs,
{
    let ghost all = xs@;
    let ghost ts = formulas_of(all);
    let mut out: Vec<BoolExpr> = Vec::new();
    proof {
        assert(ts.take(0) =~= seq![]);
    }
    #[verifier::loop_isolation(false)]
    for x in it: xs
        invariant
            it.seq() == all,
            formulas_of(out@) == resort_formulas(ts.take(it.index()), target@, *new_ty),
    {
        proof {
            let i = it.index();
            assert(ts.take(i + 1).drop_last() =~= ts.take(i));
            assert(ts.take(i + 1).last() == x@);
            assert(decreases_to!(all => all[i]));
        }
        out.push(x.rewrite_var_sort(target, new_ty));
    }
    proof {
        assert(ts.take(ts.len() as int) =~= ts);
    }
    out
}

impl SymExpr {
    /// Rewrite all variables with the given name to use a new symbolic sort.
    pub fn rewrite_var_sort(self, target: &str, new_ty: &SymType) -> (r: SymExpr)
        ensures
            r@ == resort(self@, target@, *new_ty),
        decreases self,
    {
        match self {
            SymExpr::Int(k) => SymExpr::Int(k),
            SymExpr::Var(name, ty) => {
                if same_text(name.as_str(), target) {
                    SymExpr::Var(name, *new_ty)
                } else {
                    SymExpr::Var(name, ty)
                }
            },
            SymExpr::Neg(x) => SymExpr::Neg(Box::new((*x).rewrite_var_sort(target, new_ty))),
            SymExpr::Add(xs) => SymExpr::Add(resort_term_list(xs, target, new_ty)),
            SymExpr::Mul(xs) => SymExpr::Mul(resort_term_list(xs, target, new_ty)),
            SymExpr::Sub(a, b) => SymExpr::Sub(
                Box::new((*a).rewrite_var_sort(target, new_ty)),
                Box::new((*b).rewrite_var_sort(target, new_ty)),
            ),
            SymExpr::Div(a, b) => SymExpr::Div(
                Box::new((*a).rewrite_var_sort(target, new_ty)),
                Box::new((*b).rewrite_var_sort(target, new_ty)),
            ),
            SymExpr::Mod(a, b) => SymExpr::Mod(
                Box::new((*a).rewrite_var_sort(target, new_ty)),
                Box::new((*b).rewrite_var_sort(target, new_ty)),
            ),
            SymExpr::Ite(c, a, b) => SymExpr::Ite(
                Box::new((*c).rewrite_var_sort(target, new_ty)),
                Box::new((*a).rewrite_var_sort(target, new_ty)),
                Box::new((*b).rewrite_var_sort(target, new_ty)),
            ),
        }
    }
}

impl BoolExpr {
    /// Rewrite all occurrences of the given variable name inside this Boolean guard.
    pub fn rewrite_var_sort(self, target: &str, new_ty: &SymType) -> (r: BoolExpr)
        ensures
            r@ == resort_formula(self@, target@, *new_ty),
        decreases self,
    {
        match self {
            BoolExpr::Bool(v) => BoolExpr::Bool(v),
            BoolExpr::Not(x) => BoolExpr::Not(Box::new((*x).rewrite_var_sort(target, new_ty))),
            BoolExpr::And(xs) => BoolExpr::And(resort_formula_list(xs, target, new_ty)),
            BoolExpr::Or(xs) => BoolExpr::Or(resort_formula_list(xs, target, new_ty)),
            BoolExpr::Eq(a, b) => BoolExpr::Eq(
                a.rewrite_var_sort(target, new_ty),
                b.rewrite_var_sort(target, new_ty),
            ),
            BoolExpr::Ne(a, b) => BoolExpr::Ne(
                a.rewrite_var_sort(target, new_ty),
                b.rewrite_var_sort(target, new_ty),
            ),
            BoolExpr::Le(a, b) => BoolExpr::Le(
                a.rewrite_var_sort(target, new_ty),
                b.rewrite_var_sort(target, new_ty),
            ),
            BoolExpr::Lt(a, b) => BoolExpr::Lt(
                a.rewrite_var_sort(target, new_ty),
                b.rewrite_var_sort(target, new_ty),
            ),
            BoolExpr::Ge(a, b) => BoolExpr::Ge(
                a.rewrite_var_sort(target, new_ty),
                b.rewrite_var_sort(target, new_ty),
            ),
            BoolExpr::Gt(a, b) => BoolExpr::Gt(
                a.rewrite_var_sort(target, new_ty),
                b.rewrite_var_sort(target, new_ty),
            ),
            BoolExpr::Range { value, min, max, bits } => BoolExpr::Range {
                value: value.rewrite_var_sort(target, new_ty),
                min,
                max,
                bits,
            },
        }
    }
}

/// Sorts do not influence meaning: changing the sort of a variable keeps the value of a term.
pub proof fn resort_keeps_value(
    t: Term,
    target: Seq<char>,
    ty: SymType,
    env: spec_fn(Seq<char>) -> int,
)
    ensures
        value(resort(t, target, ty), env) == value(t, env),
    decreases t,
{
    match t {
        Term::Int(_) => {},
        Term::Var(_, _) => {},
        Term::Neg(x) => resort_keeps_value(*x, target, ty, env),
        Term::Add(xs) => lemma_resort_list(xs, target, ty, env),
        Term::Mul(xs) => lemma_resort_list(xs, target, ty, env),
        Term::Sub(a, b) => {
            resort_keeps_value(*a, target, ty, env);
            resort_keeps_value(*b, target, ty, env);
        },
        Term::Div(a, b) => {
            resort_keeps_value(*a, target, ty, env);
            resort_keeps_value(*b, target, ty, env);
        },
        Term::Mod(a, b) => {
            resort_keeps_value(*a, target, ty, env);
            resort_keeps_value(*b, target, ty, env);
        },
        Term::Ite(c, a, b) => {
            resort_keeps_truth(*c, target, ty, env);
            resort_keeps_value(*a, target, ty, env);
            resort_keeps_value(*b, target, ty, env);
        },
    }
}

proof fn lemma_resort_list(
    xs: Seq<Term>,
    target: Seq<char>,
    ty: SymType,
    env: spec_fn(Seq<char>) -> int,
)
    ensures
        sum_value(resort_all(xs, target, ty), env) == sum_value(xs, env),
        product_value(resort_all(xs, target, ty), env) == product_value(xs, env),
    decreases xs,
{
    if xs.len() > 0 {
        lemma_resort_list(xs.drop_last(), target, ty, env);
        resort_keeps_value(xs.last(), target, ty, env);
        let r = resort_all(xs.drop_last(), target, ty);
        assert(r.push(resort(xs.last(), target, ty)).drop_last() =~= r);
    }
}

/// Changing the sort of a variable keeps the truth of a formula.
pub proof fn resort_keeps_truth(
    f: Formula,
    target: Seq<char>,
    ty: SymType,
    env: spec_fn(Seq<char>) -> int,
)
    ensures
        holds(resort_formula(f, target, ty), env) == holds(f, env),
    decreases f,
{
    match f {
        Formula::Bool(_) => {},
        Formula::Not(x) => resort_keeps_truth(*x, target, ty, env),
        Formula::And(xs) => lemma_resort_formulas(xs, target, ty, env),
        Formula::Or(xs) => lemma_resort_formulas(xs, target, ty, env),
        Formula::Eq(a, b) => {
            resort_keeps_value(a, target, ty, env);
            resort_keeps_value(b, target, ty, env);
        },
        Formula::Ne(a, b) => {
            resort_keeps_value(a, target, ty, env);
            resort_keeps_value(b, target, ty, env);
        },
        Formula::Le(a, b) => {
            resort_keeps_value(a, target, ty, env);
            resort_keeps_value(b, target, ty, env);
        },
        Formula::Lt(a, b) => {
            resort_keeps_value(a, target, ty, env);
            resort_keeps_value(b, target, ty, env);
        },
        Formula::Ge(a, b) => {
            resort_keeps_value(a, target, ty, env);
            resort_keeps_value(b, target, ty, env);
        },
        Formula::Gt(a, b) => {
            resort_keeps_value(a, target, ty, env);
            resort_keeps_value(b, target, ty, env);
        },
        Formula::Range { value: v, min, max, bits } => resort_keeps_value(v, target, ty, env),
    }
}

proof fn lemma_resort_formulas(
    xs: Seq<Formula>,
    target: Seq<char>,
    ty: SymType,
    env: spec_fn(Seq<char>) -> int,
)
    ensures
        all_hold(resort_formulas(xs, target, ty), env) == all_hold(xs, env),
        some_holds(resort_formulas(xs, target, ty), env) == some_holds(xs, env),
    decreases xs,
{
    if xs.len() > 0 {
        lemma_resort_formulas(xs.drop_last(), target, ty, env);
        resort_keeps_truth(xs.last(), target, ty, env);
        let r = resort_formulas(xs.drop_last(), target, ty);
        assert(r.push(resort_formula(xs.last(), target, ty)).drop_last() =~= r);
    }
}

} // verus!
