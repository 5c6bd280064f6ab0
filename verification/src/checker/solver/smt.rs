//! What the script for Z3 says.
//!
//! The encoder writes text. Here the same steps build the terms and conditions that the text stands
//! for, with the meaning that the theory of integers gives to them.

use vstd::prelude::*;
use crate::checker::solver::z3::{
    binary, fits_word, merged_range, mod_is_idle, place_from, range_asserts, script_int,
    script_name, ternary, unary, Written, Z3V,
};
use crate::checker::solver::SolveError;
use crate::checker::symbolic::expr::{Formula, SymType, Term};
use crate::checker::symbolic::range::Hints;
use crate::text::joined;

verus! {

/// Integer terms of a script; variables go by their numbers.
pub enum SmtTerm {
    Num(int),
    Var(int),
    Neg(Box<SmtTerm>),
    Plus(Box<SmtTerm>, Box<SmtTerm>),
    Times(Box<SmtTerm>, Box<SmtTerm>),
    Minus(Box<SmtTerm>, Box<SmtTerm>),
    Div(Box<SmtTerm>, Box<SmtTerm>),
    Mod(Box<SmtTerm>, Box<SmtTerm>),
    Ite(Box<SmtCond>, Box<SmtTerm>, Box<SmtTerm>),
}

/// Conditions of a script.
pub enum SmtCond {
    Truth(bool),
    Not(Box<SmtCond>),
    All(Seq<SmtCond>),
    Any(Seq<SmtCond>),
    Both(Box<SmtCond>, Box<SmtCond>),
    Eq(SmtTerm, SmtTerm),
    Distinct(SmtTerm, SmtTerm),
    Le(SmtTerm, SmtTerm),
    Lt(SmtTerm, SmtTerm),
    Ge(SmtTerm, SmtTerm),
    Gt(SmtTerm, SmtTerm),
}

/// The value of a term, given those of the variables.
pub open spec fn smt_value(t: SmtTerm, v: spec_fn(int) -> int) -> int
    decreases t,
{
    match t {
        SmtTerm::Num(k) => k,
        SmtTerm::Var(i) => v(i),
        SmtTerm::Neg(a) => -smt_value(*a, v),
        SmtTerm::Plus(a, b) => smt_value(*a, v) + smt_value(*b, v),
        SmtTerm::Times(a, b) => smt_value(*a, v) * smt_value(*b, v),
        SmtTerm::Minus(a, b) => smt_value(*a, v) - smt_value(*b, v),
        SmtTerm::Div(a, b) => smt_value(*a, v) / smt_value(*b, v),
        SmtTerm::Mod(a, b) => smt_value(*a, v) % smt_value(*b, v),
        SmtTerm::Ite(c, a, b) => if smt_holds(*c, v) {
            smt_value(*a, v)
        } else {
            smt_value(*b, v)
        },
    }
}

/// The truth of a condition, given the values of the variables.
pub open spec fn smt_holds(c: SmtCond, v: spec_fn(int) -> int) -> bool
    decreases c,
{
    match c {
        SmtCond::Truth(b) => b,
        SmtCond::Not(a) => !smt_holds(*a, v),
        SmtCond::All(cs) => every_cond(cs, v),
        SmtCond::Any(cs) => some_cond(cs, v),
        SmtCond::Both(a, b) => smt_holds(*a, v) && smt_holds(*b, v),
        SmtCond::Eq(a, b) => smt_value(a, v) == smt_value(b, v),
        SmtCond::Distinct(a, b) => smt_value(a, v) != smt_value(b, v),
        SmtCond::Le(a, b) => smt_value(a, v) <= smt_value(b, v),
        SmtCond::Lt(a, b) => smt_value(a, v) < smt_value(b, v),
        SmtCond::Ge(a, b) => smt_value(a, v) >= smt_value(b, v),
        SmtCond::Gt(a, b) => smt_value(a, v) > smt_value(b, v),
    }
}

/// Every condition of `cs` holds.
pub open spec fn every_cond(cs: Seq<SmtCond>, v: spec_fn(int) -> int) -> bool
    decreases cs,
{
    cs.len() == 0 || (every_cond(cs.drop_last(), v) && smt_holds(cs.last(), v))
}

/// Some condition of `cs` holds.
pub open spec fn some_cond(cs: Seq<SmtCond>, v: spec_fn(int) -> int) -> bool
    decreases cs,
{
    cs.len() > 0 && (some_cond(cs.drop_last(), v) || smt_holds(cs.last(), v))
}

/// The text of a term.
pub open spec fn term_script(t: SmtTerm) -> Seq<char>
    decreases t,
{
    match t {
        SmtTerm::Num(k) => script_int(k),
        SmtTerm::Var(i) => script_name(i),
        SmtTerm::Neg(a) => unary("-"@, term_script(*a)),
        SmtTerm::Plus(a, b) => binary("+"@, term_script(*a), term_script(*b)),
        SmtTerm::Times(a, b) => binary("*"@, term_script(*a), term_script(*b)),
        SmtTerm::Minus(a, b) => binary("-"@, term_script(*a), term_script(*b)),
        SmtTerm::Div(a, b) => binary("div"@, term_script(*a), term_script(*b)),
        SmtTerm::Mod(a, b) => binary("mod"@, term_script(*a), term_script(*b)),
        SmtTerm::Ite(c, a, b) => ternary(
            "ite"@,
            cond_script(*c),
            term_script(*a),
            term_script(*b),
        ),
    }
}

/// The text of a condition.
pub open spec fn cond_script(c: SmtCond) -> Seq<char>
    decreases c,
{
    match c {
        SmtCond::Truth(b) => if b {
            "true"@
        } else {
            "false"@
        },
        SmtCond::Not(a) => unary("not"@, cond_script(*a)),
        SmtCond::All(cs) => if cs.len() == 0 {
            "true"@
        } else {
            unary("and"@, joined(cond_scripts(cs), " "@))
        },
        SmtCond::Any(cs) => if cs.len() == 0 {
            "false"@
        } else {
            unary("or"@, joined(cond_scripts(cs), " "@))
        },
        SmtCond::Both(a, b) => binary("and"@, cond_script(*a), cond_script(*b)),
        SmtCond::Eq(a, b) => binary("="@, term_script(a), term_script(b)),
        SmtCond::Distinct(a, b) => binary("distinct"@, term_script(a), term_script(b)),
        SmtCond::Le(a, b) => binary("<="@, term_script(a), term_script(b)),
        SmtCond::Lt(a, b) => binary("<"@, term_script(a), term_script(b)),
        SmtCond::Ge(a, b) => binary(">="@, term_script(a), term_script(b)),
        SmtCond::Gt(a, b) => binary(">"@, term_script(a), term_script(b)),
    }
}

/// The texts of conditions.
pub open spec fn cond_scripts(cs: Seq<SmtCond>) -> Seq<Seq<char>>
    decreases cs,
{
    Seq::new(
        cs.len(),
        |i: int|
            if 0 <= i < cs.len() {
                cond_script(cs[i])
            } else {
                seq![]
            },
    )
}

/// Every variable of a term has a number below `n`.
pub open spec fn closed_term(t: SmtTerm, n: int) -> bool
    decreases t,
{
    match t {
        SmtTerm::Num(_) => true,
        SmtTerm::Var(i) => 0 <= i < n,
        SmtTerm::Neg(a) => closed_term(*a, n),
        SmtTerm::Plus(a, b) => closed_term(*a, n) && closed_term(*b, n),
        SmtTerm::Times(a, b) => closed_term(*a, n) && closed_term(*b, n),
        SmtTerm::Minus(a, b) => closed_term(*a, n) && closed_term(*b, n),
        SmtTerm::Div(a, b) => closed_term(*a, n) && closed_term(*b, n),
        SmtTerm::Mod(a, b) => closed_term(*a, n) && closed_term(*b, n),
        SmtTerm::Ite(c, a, b) => closed_cond(*c, n) && closed_term(*a, n) && closed_term(*b, n),
    }
}

/// Every variable of a condition has a number below `n`.
pub open spec fn closed_cond(c: SmtCond, n: int) -> bool
    decreases c,
{
    match c {
        SmtCond::Truth(_) => true,
        SmtCond::Not(a) => closed_cond(*a, n),
        SmtCond::All(cs) => closed_conds(cs, n),
        SmtCond::Any(cs) => closed_conds(cs, n),
        SmtCond::Both(a, b) => closed_cond(*a, n) && closed_cond(*b, n),
        SmtCond::Eq(a, b) => closed_term(a, n) && closed_term(b, n),
        SmtCond::Distinct(a, b) => closed_term(a, n) && closed_term(b, n),
        SmtCond::Le(a, b) => closed_term(a, n) && closed_term(b, n),
        SmtCond::Lt(a, b) => closed_term(a, n) && closed_term(b, n),
        SmtCond::Ge(a, b) => closed_term(a, n) && closed_term(b, n),
        SmtCond::Gt(a, b) => closed_term(a, n) && closed_term(b, n),
    }
}

/// Every variable of the conditions has a number below `n`.
pub open spec fn closed_conds(cs: Seq<SmtCond>, n: int) -> bool
    decreases cs,
{
    cs.len() == 0 || (closed_conds(cs.drop_last(), n) && closed_cond(cs.last(), n))
}

/// Every divisor of a term is a number other than zero, so that the theory fixes every quotient.
pub open spec fn safe_term(t: SmtTerm) -> bool
    decreases t,
{
    match t {
        SmtTerm::Num(_) => true,
        SmtTerm::Var(_) => true,
        SmtTerm::Neg(a) => safe_term(*a),
        SmtTerm::Plus(a, b) => safe_term(*a) && safe_term(*b),
        SmtTerm::Times(a, b) => safe_term(*a) && safe_term(*b),
        SmtTerm::Minus(a, b) => safe_term(*a) && safe_term(*b),
        SmtTerm::Div(a, b) => safe_term(*a) && *b is Num && *b != SmtTerm::Num(0),
        SmtTerm::Mod(a, b) => safe_term(*a) && *b is Num && *b != SmtTerm::Num(0),
        SmtTerm::Ite(c, a, b) => safe_cond(*c) && safe_term(*a) && safe_term(*b),
    }
}

/// Every divisor of a condition is a number other than zero.
pub open spec fn safe_cond(c: SmtCond) -> bool
    decreases c,
{
    match c {
        SmtCond::Truth(_) => true,
        SmtCond::Not(a) => safe_cond(*a),
        SmtCond::All(cs) => safe_conds(cs),
        SmtCond::Any(cs) => safe_conds(cs),
        SmtCond::Both(a, b) => safe_cond(*a) && safe_cond(*b),
        SmtCond::Eq(a, b) => safe_term(a) && safe_term(b),
        SmtCond::Distinct(a, b) => safe_term(a) && safe_term(b),
        SmtCond::Le(a, b) => safe_term(a) && safe_term(b),
        SmtCond::Lt(a, b) => safe_term(a) && safe_term(b),
        SmtCond::Ge(a, b) => safe_term(a) && safe_term(b),
        SmtCond::Gt(a, b) => safe_term(a) && safe_term(b),
    }
}

/// Every divisor of the conditions is a number other than zero.
pub open spec fn safe_conds(cs: Seq<SmtCond>) -> bool
    decreases cs,
{
    cs.len() == 0 || (safe_conds(cs.drop_last()) && safe_cond(cs.last()))
}

/// What has been declared and asserted.
pub struct SmtV {
    pub vars: Seq<(Seq<char>, SymType)>,
    pub asserts: Seq<SmtCond>,
    pub hints: Hints,
}

/// Every asserted condition holds.
#[verifier::opaque]
pub open spec fn sound(z: SmtV, v: spec_fn(int) -> int) -> bool {
    forall|i: int| 0 <= i < z.asserts.len() ==> smt_holds(#[trigger] z.asserts[i], v)
}

/// Every variable that is asserted about is declared.
#[verifier::opaque]
pub open spec fn closed(z: SmtV) -> bool {
    forall|i: int|
        0 <= i < z.asserts.len() ==> closed_cond(#[trigger] z.asserts[i], z.vars.len() as int)
}

/// Every divisor is a number other than zero.
#[verifier::opaque]
pub open spec fn safe(z: SmtV) -> bool {
    forall|i: int| 0 <= i < z.asserts.len() ==> safe_cond(#[trigger] z.asserts[i])
}

/// What a text asserts has no model: no values of the variables make all its conditions true.
pub open spec fn refuted(script: Seq<char>) -> bool {
    forall|z: SmtV|
        closed(z) && #[trigger] written_by(z).script() == script ==> forall|v: spec_fn(int) -> int|
            !#[trigger] sound(z, v)
}

/// What a text asserts has a model. Of a text with a divisor that may be zero nothing is said,
/// since the theory leaves open what such a quotient is.
pub open spec fn witnessed(script: Seq<char>) -> bool {
    forall|z: SmtV|
        closed(z) && safe(z) && #[trigger] written_by(z).script() == script ==> exists|
            v: spec_fn(int) -> int,
        | #[trigger]
            sound(z, v)
}

/// What the encoder has written.
pub open spec fn written_by(z: SmtV) -> Z3V {
    Z3V { vars: z.vars, asserts: cond_scripts(z.asserts), hints: z.hints }
}

/// A term that has been encoded, and what has been declared and asserted with it.
pub type EncodedTerm = Result<(SmtTerm, SmtV), SolveError>;

/// A condition that has been encoded, and what has been declared and asserted with it.
pub type EncodedCond = Result<(SmtCond, SmtV), SolveError>;

/// The text of an encoded term.
pub open spec fn term_written(r: EncodedTerm) -> Written {
    match r {
        Err(x) => Err(x),
        Ok((t, z)) => Ok((term_script(t), written_by(z))),
    }
}

/// The text of an encoded condition.
pub open spec fn cond_written(r: EncodedCond) -> Written {
    match r {
        Err(x) => Err(x),
        Ok((c, z)) => Ok((cond_script(c), written_by(z))),
    }
}

/// The conditions for the range of a variable.
pub open spec fn range_conds(i: int, range: Option<(int, int)>) -> Seq<SmtCond> {
    match range {
        None => seq![],
        Some((lo, hi)) => seq![
            SmtCond::Ge(SmtTerm::Var(i), SmtTerm::Num(lo)),
            SmtCond::Le(SmtTerm::Var(i), SmtTerm::Num(hi)),
        ],
    }
}

impl SmtV {
    /// The hint for a name.
    pub open spec fn hint(self, name: Seq<char>) -> Option<(int, int)> {
        if self.hints.contains_key(name) {
            Some(self.hints[name])
        } else {
            None
        }
    }

    /// A variable; a new one is declared with its range.
    pub open spec fn var(self, name: Seq<char>, sort: SymType) -> EncodedTerm {
        match place_from(self.vars, 0, name) {
            Some(i) => if self.vars[i].1 == sort {
                Ok((SmtTerm::Var(i), self))
            } else {
                Err(SolveError::InconsistentSort)
            },
            None => {
                let i = self.vars.len() as int;
                Ok(
                    (
                        SmtTerm::Var(i),
                        SmtV {
                            vars: self.vars.push((name, sort)),
                            asserts: self.asserts + range_conds(
                                i,
                                merged_range(self.hint(name), sort),
                            ),
                            ..self
                        },
                    ),
                )
            },
        }
    }

    /// An encoded term.
    pub open spec fn term(self, t: Term) -> EncodedTerm
        decreases t,
    {
        match t {
            Term::Int(k) => if fits_word(k) {
                Ok((SmtTerm::Num(k), self))
            } else {
                Err(SolveError::ConstantTooLarge)
            },
            Term::Var(name, sort) => self.var(name, sort),
            Term::Neg(a) => match self.term(*a) {
                Err(x) => Err(x),
                Ok((s, z)) => Ok((SmtTerm::Neg(Box::new(s)), z)),
            },
            Term::Add(xs) => if xs.len() == 0 {
                Ok((SmtTerm::Num(0), self))
            } else {
                match self.term(xs[0]) {
                    Err(x) => Err(x),
                    Ok((s, z)) => z.fold(true, xs, 1, s),
                }
            },
            Term::Mul(xs) => if xs.len() == 0 {
                Ok((SmtTerm::Num(1), self))
            } else {
                match self.term(xs[0]) {
                    Err(x) => Err(x),
                    Ok((s, z)) => z.fold(false, xs, 1, s),
                }
            },
            Term::Sub(a, b) => match self.term(*a) {
                Err(x) => Err(x),
                Ok((s, z)) => match z.term(*b) {
                    Err(x) => Err(x),
                    Ok((s2, z2)) => Ok((SmtTerm::Minus(Box::new(s), Box::new(s2)), z2)),
                },
            },
            Term::Div(a, b) => match self.term(*a) {
                Err(x) => Err(x),
                Ok((s, z)) => match z.term(*b) {
                    Err(x) => Err(x),
                    Ok((s2, z2)) => Ok((SmtTerm::Div(Box::new(s), Box::new(s2)), z2)),
                },
            },
            Term::Mod(a, b) => if mod_is_idle(*a, *b, self.hints) {
                self.term(*a)
            } else {
                match self.term(*a) {
                    Err(x) => Err(x),
                    Ok((s, z)) => match z.term(*b) {
                        Err(x) => Err(x),
                        Ok((s2, z2)) => Ok((SmtTerm::Mod(Box::new(s), Box::new(s2)), z2)),
                    },
                }
            },
            Term::Ite(c, a, b) => match self.formula(*c) {
                Err(x) => Err(x),
                Ok((cs, z1)) => match z1.term(*a) {
                    Err(x) => Err(x),
                    Ok((s1, z2)) => match z2.term(*b) {
                        Err(x) => Err(x),
                        Ok((s2, z3)) => Ok(
                            (SmtTerm::Ite(Box::new(cs), Box::new(s1), Box::new(s2)), z3),
                        ),
                    },
                },
            },
        }
    }

    /// The sum or the product of the terms from `i` on, one after the other, and those before,
    /// which are in `acc`.
    pub open spec fn fold(self, sum: bool, xs: Seq<Term>, i: int, acc: SmtTerm) -> EncodedTerm
        decreases xs, xs.len() - i,
    {
        if i < 0 || i >= xs.len() {
            Ok((acc, self))
        } else {
            match self.term(xs[i]) {
                Err(x) => Err(x),
                Ok((s, z)) => z.fold(sum, xs, i + 1, grown(sum, acc, s)),
            }
        }
    }

    /// An encoded formula.
    pub open spec fn formula(self, f: Formula) -> EncodedCond
        decreases f,
    {
        match f {
            Formula::Bool(b) => Ok((SmtCond::Truth(b), self)),
            Formula::Not(a) => match self.formula(*a) {
                Err(x) => Err(x),
                Ok((s, z)) => Ok((SmtCond::Not(Box::new(s)), z)),
            },
            Formula::And(fs) => match self.all(fs, 0, seq![]) {
                Err(x) => Err(x),
                Ok((cs, z)) => Ok((SmtCond::All(cs), z)),
            },
            Formula::Or(fs) => match self.all(fs, 0, seq![]) {
                Err(x) => Err(x),
                Ok((cs, z)) => Ok((SmtCond::Any(cs), z)),
            },
            Formula::Range { value, min, max, .. } => match self.term(value) {
                Err(x) => Err(x),
                Ok((s, z2)) => if !fits_word(min) || !fits_word(max) {
                    Err(SolveError::BoundTooLarge)
                } else {
                    Ok(
                        (
                            SmtCond::Both(
                                Box::new(SmtCond::Ge(s, SmtTerm::Num(min))),
                                Box::new(SmtCond::Le(s, SmtTerm::Num(max))),
                            ),
                            z2,
                        ),
                    )
                },
            },
            _ => {
                let (a, b) = sides(f);
                match self.term(a) {
                    Err(x) => Err(x),
                    Ok((s, z)) => match z.term(b) {
                        Err(x) => Err(x),
                        Ok((s2, z2)) => Ok((compared(f, s, s2), z2)),
                    },
                }
            },
        }
    }

    /// The encoded formulas from `i` on, behind `parts`.
    pub open spec fn all(self, fs: Seq<Formula>, i: int, parts: Seq<SmtCond>) -> Result<
        (Seq<SmtCond>, SmtV),
        SolveError,
    >
        decreases fs, fs.len() - i,
    {
        if i < 0 || i >= fs.len() {
            Ok((parts, self))
        } else {
            match self.formula(fs[i]) {
                Err(x) => Err(x),
                Ok((s, z)) => z.all(fs, i + 1, parts.push(s)),
            }
        }
    }
}

/// A sum or a product with one more operand.
pub open spec fn grown(sum: bool, acc: SmtTerm, s: SmtTerm) -> SmtTerm {
    if sum {
        SmtTerm::Plus(Box::new(acc), Box::new(s))
    } else {
        SmtTerm::Times(Box::new(acc), Box::new(s))
    }
}

/// The sides of a comparison.
pub open spec fn sides(f: Formula) -> (Term, Term) {
    match f {
        Formula::Eq(a, b) => (a, b),
        Formula::Ne(a, b) => (a, b),
        Formula::Le(a, b) => (a, b),
        Formula::Lt(a, b) => (a, b),
        Formula::Ge(a, b) => (a, b),
        Formula::Gt(a, b) => (a, b),
        _ => (Term::Int(0), Term::Int(0)),
    }
}

/// The comparison that a formula makes, of other sides.
pub open spec fn compared(f: Formula, a: SmtTerm, b: SmtTerm) -> SmtCond {
    match f {
        Formula::Eq(_, _) => SmtCond::Eq(a, b),
        Formula::Ne(_, _) => SmtCond::Distinct(a, b),
        Formula::Le(_, _) => SmtCond::Le(a, b),
        Formula::Lt(_, _) => SmtCond::Lt(a, b),
        Formula::Ge(_, _) => SmtCond::Ge(a, b),
        _ => SmtCond::Gt(a, b),
    }
}

proof fn lemma_bound_text(t: SmtTerm, k: int)
    ensures
        cond_script(SmtCond::Ge(t, SmtTerm::Num(k))) == binary(
            ">="@,
            term_script(t),
            script_int(k),
        ),
        cond_script(SmtCond::Le(t, SmtTerm::Num(k))) == binary(
            "<="@,
            term_script(t),
            script_int(k),
        ),
{
    assert(term_script(SmtTerm::Num(k)) == script_int(k));
}

proof fn lemma_var_text(z: SmtV, name: Seq<char>, sort: SymType)
    ensures
        term_written(z.var(name, sort)) == written_by(z).var(name, sort),
{
    if place_from(z.vars, 0, name) is None {
        let i = z.vars.len() as int;
        let range = merged_range(z.hint(name), sort);
        let conds = range_conds(i, range);
        if let Some((lo, hi)) = range {
            lemma_bound_text(SmtTerm::Var(i), lo);
            lemma_bound_text(SmtTerm::Var(i), hi);
            assert(term_script(SmtTerm::Var(i)) == script_name(i));
        }
        assert(cond_scripts(conds) =~= range_asserts(script_name(i), range));
        assert(cond_scripts(z.asserts + conds) =~= cond_scripts(z.asserts) + cond_scripts(conds));
    }
}

proof fn lemma_term_text(z: SmtV, t: Term)
    ensures
        term_written(z.term(t)) == written_by(z).term(t),
    decreases t, 0int,
{
    match t {
        Term::Int(_) => {},
        Term::Var(name, sort) => lemma_var_text(z, name, sort),
        Term::Neg(a) => lemma_term_text(z, *a),
        Term::Add(xs) => {
            if xs.len() > 0 {
                lemma_term_text(z, xs[0]);
                if let Ok((s, z2)) = z.term(xs[0]) {
                    lemma_fold_text(z2, true, xs, 1, s);
                }
            } else {
                lemma_zero_one();
            }
        },
        Term::Mul(xs) => {
            if xs.len() > 0 {
                lemma_term_text(z, xs[0]);
                if let Ok((s, z2)) = z.term(xs[0]) {
                    lemma_fold_text(z2, false, xs, 1, s);
                }
            } else {
                lemma_zero_one();
            }
        },
        Term::Sub(a, b) | Term::Div(a, b) => {
            lemma_term_text(z, *a);
            if let Ok((_, z2)) = z.term(*a) {
                lemma_term_text(z2, *b);
            }
        },
        Term::Mod(a, b) => {
            if mod_is_idle(*a, *b, z.hints) {
                lemma_term_text(z, *a);
            } else {
                lemma_term_text(z, *a);
                if let Ok((_, z2)) = z.term(*a) {
                    lemma_term_text(z2, *b);
                }
            }
        },
        Term::Ite(c, a, b) => {
            lemma_formula_text(z, *c);
            if let Ok((_, z1)) = z.formula(*c) {
                lemma_term_text(z1, *a);
                if let Ok((_, z2)) = z1.term(*a) {
                    lemma_term_text(z2, *b);
                }
            }
        },
    }
}

proof fn lemma_zero_one()
    ensures
        script_int(0) == "0"@,
        script_int(1) == "1"@,
{
    reveal_strlit("0");
    reveal_strlit("1");
    reveal_with_fuel(crate::text::decimal, 2);
    assert(script_int(0) =~= "0"@);
    assert(script_int(1) =~= "1"@);
}

/// The operator of a sum or a product.
spec fn fold_op(sum: bool) -> Seq<char> {
    if sum {
        "+"@
    } else {
        "*"@
    }
}

proof fn lemma_fold_text(z: SmtV, sum: bool, xs: Seq<Term>, i: int, acc: SmtTerm)
    ensures
        term_written(z.fold(sum, xs, i, acc)) == written_by(z).fold(
            fold_op(sum),
            xs,
            i,
            term_script(acc),
        ),
    decreases xs, xs.len() - i,
{
    if 0 <= i < xs.len() {
        lemma_term_text(z, xs[i]);
        if let Ok((s, z2)) = z.term(xs[i]) {
            lemma_fold_text(z2, sum, xs, i + 1, grown(sum, acc, s));
            assert(term_script(grown(sum, acc, s)) == binary(
                fold_op(sum),
                term_script(acc),
                term_script(s),
            ));
        }
    }
}

proof fn lemma_formula_text(z: SmtV, f: Formula)
    ensures
        cond_written(z.formula(f)) == written_by(z).formula(f),
    decreases f, 0int,
{
    match f {
        Formula::Bool(_) => {},
        Formula::Not(a) => lemma_formula_text(z, *a),
        Formula::And(fs) => {
            lemma_all_text(z, fs, 0, seq![]);
            lemma_all_count(z, fs, 0, seq![]);
            assert(cond_scripts(seq![]) =~= seq![]);
        },
        Formula::Or(fs) => {
            lemma_all_text(z, fs, 0, seq![]);
            lemma_all_count(z, fs, 0, seq![]);
            assert(cond_scripts(seq![]) =~= seq![]);
        },
        Formula::Range { value, min, max, .. } => {
            lemma_term_text(z, value);
            if let Ok((s, _)) = z.term(value) {
                lemma_bound_text(s, min);
                lemma_bound_text(s, max);
                let low = SmtCond::Ge(s, SmtTerm::Num(min));
                let high = SmtCond::Le(s, SmtTerm::Num(max));
                assert(cond_script(SmtCond::Both(Box::new(low), Box::new(high))) == binary(
                    "and"@,
                    cond_script(low),
                    cond_script(high),
                ));
            }
        },
        _ => {
            let (a, b) = sides(f);
            lemma_term_text(z, a);
            if let Ok((_, z2)) = z.term(a) {
                lemma_term_text(z2, b);
            }
        },
    }
}

/// The texts of a list of encoded conditions.
spec fn list_written(r: Result<(Seq<SmtCond>, SmtV), SolveError>) -> Result<
    (Seq<Seq<char>>, Z3V),
    SolveError,
> {
    match r {
        Err(x) => Err(x),
        Ok((cs, z)) => Ok((cond_scripts(cs), written_by(z))),
    }
}

proof fn lemma_all_text(z: SmtV, fs: Seq<Formula>, i: int, parts: Seq<SmtCond>)
    ensures
        list_written(z.all(fs, i, parts)) == written_by(z).all(fs, i, cond_scripts(parts)),
    decreases fs, fs.len() - i,
{
    if 0 <= i < fs.len() {
        lemma_formula_text(z, fs[i]);
        if let Ok((s, z2)) = z.formula(fs[i]) {
            lemma_all_text(z2, fs, i + 1, parts.push(s));
            assert(cond_scripts(parts.push(s)) =~= cond_scripts(parts).push(cond_script(s)));
        }
    }
}

proof fn lemma_all_count(z: SmtV, fs: Seq<Formula>, i: int, parts: Seq<SmtCond>)
    requires
        0 <= i <= fs.len(),
    ensures
        match z.all(fs, i, parts) {
            Ok((cs, _)) => cs.len() == parts.len() + fs.len() - i,
            Err(_) => true,
        },
    decreases fs.len() - i,
{
    if i < fs.len() {
        if let Ok((s, z2)) = z.formula(fs[i]) {
            lemma_all_count(z2, fs, i + 1, parts.push(s));
        }
    }
}

/// The text that the encoder writes for a formula is that of the encoded formula, and what it
/// declares and asserts on the way is what is declared and asserted with it.
pub proof fn text_is_of_encoding(z: SmtV, f: Formula)
    ensures
        cond_written(z.formula(f)) == written_by(z).formula(f),
{
    lemma_formula_text(z, f);
}

} // verus!
