//! Symbolic integer and Boolean expressions.

use vstd::prelude::*;

verus! {

/// The prime modulus of the field `F`.
pub const FIELD_MODULUS: i128 = 2013265921;

/// Number of bytes in a machine word.
pub const WORD_BYTES: usize = 4;

/// Sort of a symbolic variable.
#[derive(Clone, Copy, Debug, PartialEq, Eq, Structural)]
pub enum SymType {
    /// Finite field element (generic field `F`).
    F,
    /// Unsigned integer with a fixed bit width.
    Uint(usize),
    /// Signed integer with a fixed bit width.
    Int(usize),
    /// Boolean value.
    Bool,
}

/// Integer-valued symbolic expressions.
#[derive(Debug, PartialEq, Eq)]
pub enum SymExpr {
    Int(i128),
    Var(String, SymType),
    Neg(Box<SymExpr>),
    Add(Vec<SymExpr>),
    Mul(Vec<SymExpr>),
    Sub(Box<SymExpr>, Box<SymExpr>),
    /// Euclidean integer division.
    Div(Box<SymExpr>, Box<SymExpr>),
    /// Euclidean remainder.
    Mod(Box<SymExpr>, Box<SymExpr>),
    Ite(Box<BoolExpr>, Box<SymExpr>, Box<SymExpr>),
}

/// Boolean expressions used in guards and `ite`.
#[derive(Debug, PartialEq, Eq)]
pub enum BoolExpr {
    Bool(bool),
    Not(Box<BoolExpr>),
    And(Vec<BoolExpr>),
    Or(Vec<BoolExpr>),
    Eq(SymExpr, SymExpr),
    Ne(SymExpr, SymExpr),
    Le(SymExpr, SymExpr),
    Lt(SymExpr, SymExpr),
    Ge(SymExpr, SymExpr),
    Gt(SymExpr, SymExpr),
    /// `min <= value <= max`, with the bit width that the bounds came from, if any.
    Range { value: SymExpr, min: i128, max: i128, bits: Option<usize> },
}

/// Mathematical model of [`SymExpr`].
pub enum Term {
    Int(int),
    Var(Seq<char>, SymType),
    Neg(Box<Term>),
    Add(Seq<Term>),
    Mul(Seq<Term>),
    Sub(Box<Term>, Box<Term>),
    Div(Box<Term>, Box<Term>),
    Mod(Box<Term>, Box<Term>),
    Ite(Box<Formula>, Box<Term>, Box<Term>),
}

/// Mathematical model of [`BoolExpr`].
pub enum Formula {
    Bool(bool),
    Not(Box<Formula>),
    And(Seq<Formula>),
    Or(Seq<Formula>),
    Eq(Term, Term),
    Ne(Term, Term),
    Le(Term, Term),
    Lt(Term, Term),
    Ge(Term, Term),
    Gt(Term, Term),
    Range { value: Term, min: int, max: int, bits: Option<usize> },
}

/// The model of an integer expression.
pub open spec fn term_of(e: SymExpr) -> Term
    decreases e,
{
    match e {
        SymExpr::Int(k) => Term::Int(k as int),
        SymExpr::Var(s, ty) => Term::Var(s@, ty),
        SymExpr::Neg(x) => Term::Neg(Box::new(term_of(*x))),
        SymExpr::Add(v) => Term::Add(terms_of(v@)),
        SymExpr::Mul(v) => Term::Mul(terms_of(v@)),
        SymExpr::Sub(a, b) => Term::Sub(Box::new(term_of(*a)), Box::new(term_of(*b))),
        SymExpr::Div(a, b) => Term::Div(Box::new(term_of(*a)), Box::new(term_of(*b))),
        SymExpr::Mod(a, b) => Term::Mod(Box::new(term_of(*a)), Box::new(term_of(*b))),
        SymExpr::Ite(c, a, b) => Term::Ite(
            Box::new(formula_of(*c)),
            Box::new(term_of(*a)),
            Box::new(term_of(*b)),
        ),
    }
}

/// The models of a list of integer expressions.
pub open spec fn terms_of(s: Seq<SymExpr>) -> Seq<Term>
    decreases s,
{
    Seq::new(
        s.len(),
        |i: int|
            if 0 <= i < s.len() {
                term_of(s[i])
            } else {
                Term::Int(0)
            },
    )
}

/// The model of a Boolean expression.
pub open spec fn formula_of(b: BoolExpr) -> Formula
    decreases b,
{
    match b {
        BoolExpr::Bool(v) => Formula::Bool(v),
        BoolExpr::Not(x) => Formula::Not(Box::new(formula_of(*x))),
        BoolExpr::And(v) => Formula::And(formulas_of(v@)),
        BoolExpr::Or(v) => Formula::Or(formulas_of(v@)),
        BoolExpr::Eq(a, b) => Formula::Eq(term_of(a), term_of(b)),
        BoolExpr::Ne(a, b) => Formula::Ne(term_of(a), term_of(b)),
        BoolExpr::Le(a, b) => Formula::Le(term_of(a), term_of(b)),
        BoolExpr::Lt(a, b) => Formula::Lt(term_of(a), term_of(b)),
        BoolExpr::Ge(a, b) => Formula::Ge(term_of(a), term_of(b)),
        BoolExpr::Gt(a, b) => Formula::Gt(term_of(a), term_of(b)),
        BoolExpr::Range { value, min, max, bits } => Formula::Range {
            value: term_of(value),
            min: min as int,
            max: max as int,
            bits,
        },
    }
}

/// The models of a list of Boolean expressions.
pub open spec fn formulas_of(s: Seq<BoolExpr>) -> Seq<Formula>
    decreases s,
{
    Seq::new(
        s.len(),
        |i: int|
            if 0 <= i < s.len() {
                formula_of(s[i])
            } else {
                Formula::Bool(true)
            },
    )
}

impl View for SymExpr {
    type V = Term;

    open spec fn view(&self) -> Term {
        term_of(*self)
    }
}

impl View for BoolExpr {
    type V = Formula;

    open spec fn view(&self) -> Formula {
        formula_of(*self)
    }
}

fn clone_term_list(v: &Vec<SymExpr>) -> (r: Vec<SymExpr>)
    ensures
        terms_of(r@) == terms_of(v@),
    decreases v,
{
    proof {
        broadcast use crate::checker::symbolic::expr_lists::group_lists;

    }
    let mut out: Vec<SymExpr> = Vec::new();
    #[verifier::loop_isolation(false)]
    for i in 0..v.len()
        invariant
            terms_of(out@) == terms_of(v@.take(i as int)),
    {
        out.push(v[i].clone());
        proof {
            assert(v@.take(i + 1) =~= v@.take(i as int).push(v@[i as int]));
        }
    }
    proof {
        assert(v@.take(v@.len() as int) =~= v@);
    }
    out
}

fn clone_formula_list(v: &Vec<BoolExpr>) -> (r: Vec<BoolExpr>)
    ensures
        formulas_of(r@) == formulas_of(v@),
    decreases v,
{
    proof {
        broadcast use crate::checker::symbolic::expr_lists::group_lists;

    }
    let mut out: Vec<BoolExpr> = Vec::new();
    #[verifier::loop_isolation(false)]
    for i in 0..v.len()
        invariant
            formulas_of(out@) == formulas_of(v@.take(i as int)),
    {
        out.push(v[i].clone());
        proof {
            assert(v@.take(i + 1) =~= v@.take(i as int).push(v@[i as int]));
        }
    }
    proof {
        assert(v@.take(v@.len() as int) =~= v@);
    }
    out
}

impl Clone for SymExpr {
    fn clone(&self) -> (r: Self)
        ensures
            r@ == self@,
        decreases self,
    {
        match self {
            SymExpr::Int(k) => SymExpr::Int(*k),
            SymExpr::Var(s, ty) => SymExpr::Var(s.clone(), *ty),
            SymExpr::Neg(x) => SymExpr::Neg(Box::new((**x).clone())),
            SymExpr::Add(v) => SymExpr::Add(clone_term_list(v)),
            SymExpr::Mul(v) => SymExpr::Mul(clone_term_list(v)),
            SymExpr::Sub(a, b) => SymExpr::Sub(Box::new((**a).clone()), Box::new((**b).clone())),
            SymExpr::Div(a, b) => SymExpr::Div(Box::new((**a).clone()), Box::new((**b).clone())),
            SymExpr::Mod(a, b) => SymExpr::Mod(Box::new((**a).clone()), Box::new((**b).clone())),
            SymExpr::Ite(c, a, b) => SymExpr::Ite(
                Box::new((**c).clone()),
                Box::new((**a).clone()),
                Box::new((**b).clone()),
            ),
        }
    }
}

impl Clone for BoolExpr {
    fn clone(&self) -> (r: Self)
        ensures
            r@ == self@,
        decreases self,
    {
        match self {
            BoolExpr::Bool(v) => BoolExpr::Bool(*v),
            BoolExpr::Not(x) => BoolExpr::Not(Box::new((**x).clone())),
            BoolExpr::And(v) => BoolExpr::And(clone_formula_list(v)),
            BoolExpr::Or(v) => BoolExpr::Or(clone_formula_list(v)),
            BoolExpr::Eq(a, b) => BoolExpr::Eq(a.clone(), b.clone()),
            BoolExpr::Ne(a, b) => BoolExpr::Ne(a.clone(), b.clone()),
            BoolExpr::Le(a, b) => BoolExpr::Le(a.clone(), b.clone()),
            BoolExpr::Lt(a, b) => BoolExpr::Lt(a.clone(), b.clone()),
            BoolExpr::Ge(a, b) => BoolExpr::Ge(a.clone(), b.clone()),
            BoolExpr::Gt(a, b) => BoolExpr::Gt(a.clone(), b.clone()),
            BoolExpr::Range { value, min, max, bits } => BoolExpr::Range {
                value: value.clone(),
                min: *min,
                max: *max,
                bits: *bits,
            },
        }
    }
}

/// A copy of a list of integer expressions.
pub fn clone_terms(v: &Vec<SymExpr>) -> (r: Vec<SymExpr>)
    ensures
        terms_of(r@) == terms_of(v@),
{
    clone_term_list(v)
}

/// A copy of a list of Boolean expressions.
pub fn clone_formulas(v: &Vec<BoolExpr>) -> (r: Vec<BoolExpr>)
    ensures
        formulas_of(r@) == formulas_of(v@),
{
    clone_formula_list(v)
}

fn same_term_list(a: &Vec<SymExpr>, b: &Vec<SymExpr>) -> (r: bool)
    ensures
        r == (terms_of(a@) == terms_of(b@)),
    decreases a,
{
    if a.len() != b.len() {
        proof {
            assert(terms_of(a@).len() != terms_of(b@).len());
        }
        return false;
    }
    #[verifier::loop_isolation(false)]
    for i in 0..a.len()
        invariant
            forall|j: int| 0 <= j < i ==> (#[trigger] terms_of(a@)[j]) == terms_of(b@)[j],
    {
        if !a[i].same_as(&b[i]) {
            proof {
                assert(terms_of(a@)[i as int] != terms_of(b@)[i as int]);
            }
            return false;
        }
    }
    proof {
        assert(terms_of(a@) =~= terms_of(b@));
    }
    true
}

fn same_formula_list(a: &Vec<BoolExpr>, b: &Vec<BoolExpr>) -> (r: bool)
    ensures
        r == (formulas_of(a@) == formulas_of(b@)),
    decreases a,
{
    if a.len() != b.len() {
        proof {
            assert(formulas_of(a@).len() != formulas_of(b@).len());
        }
        return false;
    }
    #[verifier::loop_isolation(false)]
    for i in 0..a.len()
        invariant
            forall|j: int| 0 <= j < i ==> (#[trigger] formulas_of(a@)[j]) == formulas_of(b@)[j],
    {
        if !a[i].same_as(&b[i]) {
            proof {
                assert(formulas_of(a@)[i as int] != formulas_of(b@)[i as int]);
            }
            return false;
        }
    }
    proof {
        assert(formulas_of(a@) =~= formulas_of(b@));
    }
    true
}

fn same_bits(a: Option<usize>, b: Option<usize>) -> (r: bool)
    ensures
        r == (a == b),
{
    match (a, b) {
        (Some(x), Some(y)) => x == y,
        (None, None) => true,
        _ => false,
    }
}

impl SymExpr {
    /// Structural equality.
    pub fn same_as(&self, other: &SymExpr) -> (r: bool)
        ensures
            r == (self@ == other@),
        decreases self,
    {
        match (self, other) {
            (SymExpr::Int(a), SymExpr::Int(b)) => *a == *b,
            (SymExpr::Var(a, s), SymExpr::Var(b, t)) => *a == *b && *s == *t,
            (SymExpr::Neg(a), SymExpr::Neg(b)) => a.same_as(b),
            (SymExpr::Add(a), SymExpr::Add(b)) => same_term_list(a, b),
            (SymExpr::Mul(a), SymExpr::Mul(b)) => same_term_list(a, b),
            (SymExpr::Sub(a, c), SymExpr::Sub(b, d)) => a.same_as(b) && c.same_as(d),
            (SymExpr::Div(a, c), SymExpr::Div(b, d)) => a.same_as(b) && c.same_as(d),
            (SymExpr::Mod(a, c), SymExpr::Mod(b, d)) => a.same_as(b) && c.same_as(d),
            (SymExpr::Ite(a, c, e), SymExpr::Ite(b, d, f)) => a.same_as(b) && c.same_as(d)
                && e.same_as(f),
            _ => false,
        }
    }

    /// Builds an `ite` expression with a Boolean guard.
    pub fn ite(cond: BoolExpr, then_e: SymExpr, else_e: SymExpr) -> (r: Self)
        ensures
            r@ == Term::Ite(Box::new(cond@), Box::new(then_e@), Box::new(else_e@)),
    {
        SymExpr::Ite(Box::new(cond), Box::new(then_e), Box::new(else_e))
    }

    /// `self = rhs`
    pub fn eq_to(self, rhs: SymExpr) -> (r: BoolExpr)
        ensures
            r@ == Formula::Eq(self@, rhs@),
    {
        BoolExpr::Eq(self, rhs)
    }

    /// `self != rhs`
    pub fn ne(self, rhs: SymExpr) -> (r: BoolExpr)
        ensures
            r@ == Formula::Ne(self@, rhs@),
    {
        BoolExpr::Ne(self, rhs)
    }

    /// `self <= rhs`
    pub fn le(self, rhs: SymExpr) -> (r: BoolExpr)
        ensures
            r@ == Formula::Le(self@, rhs@),
    {
        BoolExpr::Le(self, rhs)
    }

    /// `self < rhs`
    pub fn lt(self, rhs: SymExpr) -> (r: BoolExpr)
        ensures
            r@ == Formula::Lt(self@, rhs@),
    {
        BoolExpr::Lt(self, rhs)
    }

    /// `self >= rhs`
    pub fn ge(self, rhs: SymExpr) -> (r: BoolExpr)
        ensures
            r@ == Formula::Ge(self@, rhs@),
    {
        BoolExpr::Ge(self, rhs)
    }

    /// `self > rhs`
    pub fn gt(self, rhs: SymExpr) -> (r: BoolExpr)
        ensures
            r@ == Formula::Gt(self@, rhs@),
    {
        BoolExpr::Gt(self, rhs)
    }

    /// The value reduced into the field.
    pub fn mod_field(self) -> (r: SymExpr)
        ensures
            r@ == mod_field_term(self@),
    {
        proof {
            reveal_with_fuel(term_of, 2);
        }
        SymExpr::Mod(Box::new(self), Box::new(SymExpr::Int(FIELD_MODULUS)))
    }
}

/// `t` reduced into the field.
pub open spec fn mod_field_term(t: Term) -> Term {
    Term::Mod(Box::new(t), Box::new(Term::Int(FIELD_MODULUS as int)))
}

/// A truth value as the integer 0 or 1.
pub open spec fn as_int_term(f: Formula) -> Term {
    Term::Ite(Box::new(f), Box::new(Term::Int(1)), Box::new(Term::Int(0)))
}

/// The operands of nested conjunctions among `s`, one level deep.
pub open spec fn and_leaves(s: Seq<Formula>) -> Seq<Formula>
    decreases s.len(),
{
    if s.len() == 0 {
        seq![]
    } else {
        and_leaves(s.drop_last()) + match s.last() {
            Formula::And(vs) => vs,
            other => seq![other],
        }
    }
}

/// The operands of nested disjunctions among `s`, one level deep.
pub open spec fn or_leaves(s: Seq<Formula>) -> Seq<Formula>
    decreases s.len(),
{
    if s.len() == 0 {
        seq![]
    } else {
        or_leaves(s.drop_last()) + match s.last() {
            Formula::Or(vs) => vs,
            other => seq![other],
        }
    }
}

/// A conjunction without needless wrapping.
pub open spec fn conj(s: Seq<Formula>) -> Formula {
    let flat = and_leaves(s);
    if flat.len() == 0 {
        Formula::Bool(true)
    } else if flat.len() == 1 {
        flat[0]
    } else {
        Formula::And(flat)
    }
}

/// A disjunction without needless wrapping.
pub open spec fn disj(s: Seq<Formula>) -> Formula {
    let flat = or_leaves(s);
    if flat.len() == 0 {
        Formula::Bool(false)
    } else if flat.len() == 1 {
        flat[0]
    } else {
        Formula::Or(flat)
    }
}

impl BoolExpr {
    /// Structural equality.
    pub fn same_as(&self, other: &BoolExpr) -> (r: bool)
        ensures
            r == (self@ == other@),
        decreases self,
    {
        match (self, other) {
            (BoolExpr::Bool(a), BoolExpr::Bool(b)) => *a == *b,
            (BoolExpr::Not(a), BoolExpr::Not(b)) => a.same_as(b),
            (BoolExpr::And(a), BoolExpr::And(b)) => same_formula_list(a, b),
            (BoolExpr::Or(a), BoolExpr::Or(b)) => same_formula_list(a, b),
            (BoolExpr::Eq(a, c), BoolExpr::Eq(b, d)) => a.same_as(b) && c.same_as(d),
            (BoolExpr::Ne(a, c), BoolExpr::Ne(b, d)) => a.same_as(b) && c.same_as(d),
            (BoolExpr::Le(a, c), BoolExpr::Le(b, d)) => a.same_as(b) && c.same_as(d),
            (BoolExpr::Lt(a, c), BoolExpr::Lt(b, d)) => a.same_as(b) && c.same_as(d),
            (BoolExpr::Ge(a, c), BoolExpr::Ge(b, d)) => a.same_as(b) && c.same_as(d),
            (BoolExpr::Gt(a, c), BoolExpr::Gt(b, d)) => a.same_as(b) && c.same_as(d),
            (
                BoolExpr::Range { value: a, min: lo, max: hi, bits: w },
                BoolExpr::Range { value: b, min: lo2, max: hi2, bits: w2 },
            ) => a.same_as(b) && *lo == *lo2 && *hi == *hi2 && same_bits(*w, *w2),
            _ => false,
        }
    }

    /// Builds a negation.
    pub fn not(self) -> (r: Self)
        ensures
            r@ == Formula::Not(Box::new(self@)),
    {
        BoolExpr::Not(Box::new(self))
    }

    /// The truth value as the integer 0 or 1.
    pub fn as_int(self) -> (r: SymExpr)
        ensures
            r@ == as_int_term(self@),
    {
        SymExpr::ite(self, SymExpr::Int(1), SymExpr::Int(0))
    }

    /// Builds a conjunction (variadic).
    pub fn and(xs: Vec<BoolExpr>) -> (r: Self)
        ensures
            r@ == conj(formulas_of(xs@)),
    {
        proof {
            broadcast use crate::checker::symbolic::expr_lists::group_lists;

        }
        let ghost all = xs@;
        let mut flat: Vec<BoolExpr> = Vec::new();
        #[verifier::loop_isolation(false)]
        for x in it: xs
            invariant
                it.seq() == all,
                formulas_of(flat@) == and_leaves(formulas_of(all.take(it.index()))),
        {
            proof {
                let i = it.index();
                assert(all.take(i + 1) =~= all.take(i).push(x));
                assert(formulas_of(all.take(i)).push(x@).drop_last() =~= formulas_of(all.take(i)));
            }
            let ghost before = flat@;
            match x {
                BoolExpr::And(vs) => {
                    let mut vs = vs;
                    let ghost inner = vs@;
                    flat.append(&mut vs);
                    proof {
                        assert(formulas_of(before + inner) =~= formulas_of(before) + formulas_of(
                            inner,
                        ));
                    }
                },
                other => {
                    flat.push(other);
                },
            }
        }
        proof {
            assert(all.take(all.len() as int) =~= all);
        }
        if flat.len() == 0 {
            BoolExpr::Bool(true)
        } else if flat.len() == 1 {
            flat.remove(0)
        } else {
            BoolExpr::And(flat)
        }
    }

    /// Builds a disjunction (variadic).
    pub fn or(xs: Vec<BoolExpr>) -> (r: Self)
        ensures
            r@ == disj(formulas_of(xs@)),
    {
        proof {
            broadcast use crate::checker::symbolic::expr_lists::group_lists;

        }
        let ghost all = xs@;
        let mut flat: Vec<BoolExpr> = Vec::new();
        #[verifier::loop_isolation(false)]
        for x in it: xs
            invariant
                it.seq() == all,
                formulas_of(flat@) == or_leaves(formulas_of(all.take(it.index()))),
        {
            proof {
                let i = it.index();
                assert(all.take(i + 1) =~= all.take(i).push(x));
                assert(formulas_of(all.take(i)).push(x@).drop_last() =~= formulas_of(all.take(i)));
            }
            let ghost before = flat@;
            match x {
                BoolExpr::Or(vs) => {
                    let mut vs = vs;
                    let ghost inner = vs@;
                    flat.append(&mut vs);
                    proof {
                        assert(formulas_of(before + inner) =~= formulas_of(before) + formulas_of(
                            inner,
                        ));
                    }
                },
                other => {
                    flat.push(other);
                },
            }
        }
        proof {
            assert(all.take(all.len() as int) =~= all);
        }
        if flat.len() == 0 {
            BoolExpr::Bool(false)
        } else if flat.len() == 1 {
            flat.remove(0)
        } else {
            BoolExpr::Or(flat)
        }
    }
}

} // verus!
