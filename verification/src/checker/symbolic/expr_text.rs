//! Text forms of symbolic expressions: an SMT-LIB flavoured display and structural keys.
//!
//! Each rendering is given as a function that extends a text, so that `with_term(s, t)` is `s`
//! followed by the text of `t`.

use vstd::prelude::*;
use vstd::string::*;
use crate::checker::symbolic::expr::{
    formulas_of, terms_of, BoolExpr, Formula, SymExpr, SymType, Term,
};
use crate::text::{decimal, decimal_int, push_int, push_nat};

verus! {

/// `s` followed by the text of a sort.
pub open spec fn with_type(s: Seq<char>, ty: SymType) -> Seq<char> {
    match ty {
        SymType::F => s + "F"@,
        SymType::Uint(w) => s + "uint("@ + decimal(w as nat) + ")"@,
        SymType::Int(w) => s + "int("@ + decimal(w as nat) + ")"@,
        SymType::Bool => s + "bool"@,
    }
}

/// `s` followed by the text of an optional width.
pub open spec fn with_bits(s: Seq<char>, bits: Option<usize>) -> Seq<char> {
    match bits {
        Some(w) => s + decimal(w as nat),
        None => s + "-"@,
    }
}

/// `s` followed by a name that is preceded by its length.
pub open spec fn with_name_key(s: Seq<char>, name: Seq<char>) -> Seq<char> {
    s + decimal(name.len()) + ":"@ + name
}

fn push_bits(out: &mut String, bits: Option<usize>)
    ensures
        final(out)@ == with_bits(old(out)@, bits),
{
    match bits {
        Some(w) => push_nat(out, w as u128),
        None => out.append("-"),
    }
}

fn push_name_key(out: &mut String, name: &String)
    ensures
        final(out)@ == with_name_key(old(out)@, name@),
{
    let n = name.as_str().unicode_len();
    push_nat(out, n as u128);
    out.append(":");
    out.append(name.as_str());
}

impl SymType {
    /// Appends the text of the sort.
    pub fn push_text(&self, out: &mut String)
        ensures
            final(out)@ == with_type(old(out)@, *self),
    {
        match self {
            SymType::F => out.append("F"),
            SymType::Uint(w) => {
                out.append("uint(");
                push_nat(out, *w as u128);
                out.append(")");
            },
            SymType::Int(w) => {
                out.append("int(");
                push_nat(out, *w as u128);
                out.append(")");
            },
            SymType::Bool => out.append("bool"),
        }
    }

    /// The text of the sort.
    pub fn to_text(&self) -> (r: String)
        ensures
            r@ == with_type(seq![], *self),
    {
        let mut out = String::new();
        self.push_text(&mut out);
        out
    }
}

/// `s` followed by the display text of a term.
pub open spec fn with_term(s: Seq<char>, t: Term) -> Seq<char>
    decreases t,
{
    match t {
        Term::Int(k) => s + decimal_int(k),
        Term::Var(name, ty) => with_type(s + name + " : "@, ty),
        Term::Neg(x) => with_term(s + "(- "@, *x) + ")"@,
        Term::Add(xs) => if xs.len() == 0 {
            s + "0"@
        } else {
            with_terms(s + "(+"@, xs) + ")"@
        },
        Term::Mul(xs) => if xs.len() == 0 {
            s + "1"@
        } else {
            with_terms(s + "(*"@, xs) + ")"@
        },
        Term::Sub(a, b) => with_term(with_term(s + "(- "@, *a) + " "@, *b) + ")"@,
        Term::Div(a, b) => with_term(with_term(s + "(div "@, *a) + " "@, *b) + ")"@,
        Term::Mod(a, b) => with_term(with_term(s + "(mod "@, *a) + " "@, *b) + ")"@,
        Term::Ite(c, a, b) => with_term(with_term(with_formula(s + "(ite "@, *c) + " "@, *a) + " "@, *b) + ")"@,
    }
}

/// `s` followed by the display texts of a list, each preceded by a separator.
pub open spec fn with_terms(s: Seq<char>, xs: Seq<Term>) -> Seq<char>
    decreases xs,
{
    if xs.len() == 0 {
        s
    } else {
        with_term(with_terms(s, xs.drop_last()) + " "@, xs.last())
    }
}

/// `s` followed by the display text of a formula.
pub open spec fn with_formula(s: Seq<char>, t: Formula) -> Seq<char>
    decreases t,
{
    match t {
        Formula::Bool(v) => if v {
            s + "true"@
        } else {
            s + "false"@
        },
        Formula::Not(x) => with_formula(s + "(not "@, *x) + ")"@,
        Formula::And(xs) => if xs.len() == 0 {
            s + "true"@
        } else {
            with_formulas(s + "(and"@, xs) + ")"@
        },
        Formula::Or(xs) => if xs.len() == 0 {
            s + "false"@
        } else {
            with_formulas(s + "(or"@, xs) + ")"@
        },
        Formula::Eq(a, b) => with_term(with_term(s + "(= "@, a) + " "@, b) + ")"@,
        Formula::Ne(a, b) => with_term(with_term(s + "(not (= "@, a) + " "@, b) + "))"@,
        Formula::Le(a, b) => with_term(with_term(s + "(<= "@, a) + " "@, b) + ")"@,
        Formula::Lt(a, b) => with_term(with_term(s + "(< "@, a) + " "@, b) + ")"@,
        Formula::Ge(a, b) => with_term(with_term(s + "(>= "@, a) + " "@, b) + ")"@,
        Formula::Gt(a, b) => with_term(with_term(s + "(> "@, a) + " "@, b) + ")"@,
        Formula::Range { value, min, max, bits } => with_term(with_term(s + "(and (<= "@ + decimal_int(min) + " "@, value) + ") (<= "@, value) + " "@ + decimal_int(max) + "))"@,
    }
}

/// `s` followed by the display texts of a list, each preceded by a separator.
pub open spec fn with_formulas(s: Seq<char>, xs: Seq<Formula>) -> Seq<char>
    decreases xs,
{
    if xs.len() == 0 {
        s
    } else {
        with_formula(with_formulas(s, xs.drop_last()) + " "@, xs.last())
    }
}

fn push_terms_text(v: &Vec<SymExpr>, out: &mut String)
    ensures
        final(out)@ == with_terms(old(out)@, terms_of(v@)),
    decreases v,
{
    #[verifier::loop_isolation(false)]
    for i in 0..v.len()
        invariant
            out@ == with_terms(old(out)@, terms_of(v@).take(i as int)),
    {
        out.append(" ");
        v[i].push_text(out);
        proof {
            let s = terms_of(v@);
            assert(s.take(i + 1).drop_last() =~= s.take(i as int));
            assert(s.take(i + 1).last() == v@[i as int]@);
        }
    }
    proof {
        assert(terms_of(v@).take(v@.len() as int) =~= terms_of(v@));
    }
}

impl SymExpr {
    /// Appends the display text.
    pub fn push_text(&self, out: &mut String)
        ensures
            final(out)@ == with_term(old(out)@, self@),
        decreases self,
    {
        match self {
            SymExpr::Int(k) => {
                push_int(out, *k);
            },
            SymExpr::Var(name, ty) => {
                out.append(name.as_str());
                out.append(" : ");
                ty.push_text(out);
            },
            SymExpr::Neg(x) => {
                out.append("(- ");
                x.push_text(out);
                out.append(")");
            },
            SymExpr::Add(xs) => {
                proof {
                    assert(terms_of(xs@).len() == xs@.len());
                }
                if xs.len() == 0 {
                    out.append("0");
                } else {
                    out.append("(+");
                    push_terms_text(xs, out);
                    out.append(")");
                }
            },
            SymExpr::Mul(xs) => {
                proof {
                    assert(terms_of(xs@).len() == xs@.len());
                }
                if xs.len() == 0 {
                    out.append("1");
                } else {
                    out.append("(*");
                    push_terms_text(xs, out);
                    out.append(")");
                }
            },
            SymExpr::Sub(a, b) => {
                out.append("(- ");
                a.push_text(out);
                out.append(" ");
                b.push_text(out);
                out.append(")");
            },
            SymExpr::Div(a, b) => {
                out.append("(div ");
                a.push_text(out);
                out.append(" ");
                b.push_text(out);
                out.append(")");
            },
            SymExpr::Mod(a, b) => {
                out.append("(mod ");
                a.push_text(out);
                out.append(" ");
                b.push_text(out);
                out.append(")");
            },
            SymExpr::Ite(c, a, b) => {
                out.append("(ite ");
                c.push_text(out);
                out.append(" ");
                a.push_text(out);
                out.append(" ");
                b.push_text(out);
                out.append(")");
            },
        }
    }

    /// The display text.
    pub fn to_text(&self) -> (r: String)
        ensures
            r@ == with_term(seq![], self@),
    {
        let mut out = String::new();
        self.push_text(&mut out);
        out
    }
}

fn push_formulas_text(v: &Vec<BoolExpr>, out: &mut String)
    ensures
        final(out)@ == with_formulas(old(out)@, formulas_of(v@)),
    decreases v,
{
    #[verifier::loop_isolation(false)]
    for i in 0..v.len()
        invariant
            out@ == with_formulas(old(out)@, formulas_of(v@).take(i as int)),
    {
        out.append(" ");
        v[i].push_text(out);
        proof {
            let s = formulas_of(v@);
            assert(s.take(i + 1).drop_last() =~= s.take(i as int));
            assert(s.take(i + 1).last() == v@[i as int]@);
        }
    }
    proof {
        assert(formulas_of(v@).take(v@.len() as int) =~= formulas_of(v@));
    }
}

impl BoolExpr {
    /// Appends the display text.
    pub fn push_text(&self, out: &mut String)
        ensures
            final(out)@ == with_formula(old(out)@, self@),
        decreases self,
    {
        match self {
            BoolExpr::Bool(v) => if *v {
                out.append("true");
            } else {
                out.append("false");
            },
            BoolExpr::Not(x) => {
                out.append("(not ");
                x.push_text(out);
                out.append(")");
            },
            BoolExpr::And(xs) => {
                proof {
                    assert(formulas_of(xs@).len() == xs@.len());
                }
                if xs.len() == 0 {
                    out.append("true");
                } else {
                    out.append("(and");
                    push_formulas_text(xs, out);
                    out.append(")");
                }
            },
            BoolExpr::Or(xs) => {
                proof {
                    assert(formulas_of(xs@).len() == xs@.len());
                }
                if xs.len() == 0 {
                    out.append("false");
                } else {
                    out.append("(or");
                    push_formulas_text(xs, out);
                    out.append(")");
                }
            },
            BoolExpr::Eq(a, b) => {
                out.append("(= ");
                a.push_text(out);
                out.append(" ");
                b.push_text(out);
                out.append(")");
            },
            BoolExpr::Ne(a, b) => {
                out.append("(not (= ");
                a.push_text(out);
                out.append(" ");
                b.push_text(out);
                out.append("))");
            },
            BoolExpr::Le(a, b) => {
                out.append("(<= ");
                a.push_text(out);
                out.append(" ");
                b.push_text(out);
                out.append(")");
            },
            BoolExpr::Lt(a, b) => {
                out.append("(< ");
                a.push_text(out);
                out.append(" ");
                b.push_text(out);
                out.append(")");
            },
            BoolExpr::Ge(a, b) => {
                out.append("(>= ");
                a.push_text(out);
                out.append(" ");
                b.push_text(out);
                out.append(")");
            },
            BoolExpr::Gt(a, b) => {
                out.append("(> ");
                a.push_text(out);
                out.append(" ");
                b.push_text(out);
                out.append(")");
            },
            BoolExpr::Range { value, min, max, bits: _ } => {
                out.append("(and (<= ");
                push_int(out, *min);
                out.append(" ");
                value.push_text(out);
                out.append(") (<= ");
                value.push_text(out);
                out.append(" ");
                push_int(out, *max);
                out.append("))");
            },
        }
    }

    /// The display text.
    pub fn to_text(&self) -> (r: String)
        ensures
            r@ == with_formula(seq![], self@),
    {
        let mut out = String::new();
        self.push_text(&mut out);
        out
    }
}

/// `s` followed by the structural key of a term.
pub open spec fn with_term_key(s: Seq<char>, t: Term) -> Seq<char>
    decreases t,
{
    match t {
        Term::Int(k) => s + "Int("@ + decimal_int(k) + ")"@,
        Term::Var(name, ty) => with_type(with_name_key(s + "Var("@, name) + ","@, ty) + ")"@,
        Term::Neg(x) => with_term_key(s + "Neg("@, *x) + ")"@,
        Term::Add(xs) => with_terms_key(s + "Add("@, xs) + ")"@,
        Term::Mul(xs) => with_terms_key(s + "Mul("@, xs) + ")"@,
        Term::Sub(a, b) => with_term_key(with_term_key(s + "Sub("@, *a) + ","@, *b) + ")"@,
        Term::Div(a, b) => with_term_key(with_term_key(s + "Div("@, *a) + ","@, *b) + ")"@,
        Term::Mod(a, b) => with_term_key(with_term_key(s + "Mod("@, *a) + ","@, *b) + ")"@,
        Term::Ite(c, a, b) => with_term_key(with_term_key(with_formula_key(s + "Ite("@, *c) + ","@, *a) + ","@, *b) + ")"@,
    }
}

/// `s` followed by the structural keys of a list, each preceded by a separator.
pub open spec fn with_terms_key(s: Seq<char>, xs: Seq<Term>) -> Seq<char>
    decreases xs,
{
    if xs.len() == 0 {
        s
    } else {
        with_term_key(with_terms_key(s, xs.drop_last()) + ","@, xs.last())
    }
}

/// `s` followed by the structural key of a formula.
pub open spec fn with_formula_key(s: Seq<char>, t: Formula) -> Seq<char>
    decreases t,
{
    match t {
        Formula::Bool(v) => if v {
            s + "True"@
        } else {
            s + "False"@
        },
        Formula::Not(x) => with_formula_key(s + "Not("@, *x) + ")"@,
        Formula::And(xs) => with_formulas_key(s + "And("@, xs) + ")"@,
        Formula::Or(xs) => with_formulas_key(s + "Or("@, xs) + ")"@,
        Formula::Eq(a, b) => with_term_key(with_term_key(s + "Eq("@, a) + ","@, b) + ")"@,
        Formula::Ne(a, b) => with_term_key(with_term_key(s + "Ne("@, a) + ","@, b) + ")"@,
        Formula::Le(a, b) => with_term_key(with_term_key(s + "Le("@, a) + ","@, b) + ")"@,
        Formula::Lt(a, b) => with_term_key(with_term_key(s + "Lt("@, a) + ","@, b) + ")"@,
        Formula::Ge(a, b) => with_term_key(with_term_key(s + "Ge("@, a) + ","@, b) + ")"@,
        Formula::Gt(a, b) => with_term_key(with_term_key(s + "Gt("@, a) + ","@, b) + ")"@,
        Formula::Range { value, min, max, bits } => with_bits(with_term_key(s + "Range("@, value) + ","@ + decimal_int(min) + ","@ + decimal_int(max) + ","@, bits) + ")"@,
    }
}

/// `s` followed by the structural keys of a list, each preceded by a separator.
pub open spec fn with_formulas_key(s: Seq<char>, xs: Seq<Formula>) -> Seq<char>
    decreases xs,
{
    if xs.len() == 0 {
        s
    } else {
        with_formula_key(with_formulas_key(s, xs.drop_last()) + ","@, xs.last())
    }
}

fn push_terms_key(v: &Vec<SymExpr>, out: &mut String)
    ensures
        final(out)@ == with_terms_key(old(out)@, terms_of(v@)),
    decreases v,
{
    #[verifier::loop_isolation(false)]
    for i in 0..v.len()
        invariant
            out@ == with_terms_key(old(out)@, terms_of(v@).take(i as int)),
    {
        out.append(",");
        v[i].push_key(out);
        proof {
            let s = terms_of(v@);
            assert(s.take(i + 1).drop_last() =~= s.take(i as int));
            assert(s.take(i + 1).last() == v@[i as int]@);
        }
    }
    proof {
        assert(terms_of(v@).take(v@.len() as int) =~= terms_of(v@));
    }
}

impl SymExpr {
    /// Appends the structural key.
    pub fn push_key(&self, out: &mut String)
        ensures
            final(out)@ == with_term_key(old(out)@, self@),
        decreases self,
    {
        match self {
            SymExpr::Int(k) => {
                out.append("Int(");
                push_int(out, *k);
                out.append(")");
            },
            SymExpr::Var(name, ty) => {
                out.append("Var(");
                push_name_key(out, name);
                out.append(",");
                ty.push_text(out);
                out.append(")");
            },
            SymExpr::Neg(x) => {
                out.append("Neg(");
                x.push_key(out);
                out.append(")");
            },
            SymExpr::Add(xs) => {
                out.append("Add(");
                push_terms_key(xs, out);
                out.append(")");
            },
            SymExpr::Mul(xs) => {
                out.append("Mul(");
                push_terms_key(xs, out);
                out.append(")");
            },
            SymExpr::Sub(a, b) => {
                out.append("Sub(");
                a.push_key(out);
                out.append(",");
                b.push_key(out);
                out.append(")");
            },
            SymExpr::Div(a, b) => {
                out.append("Div(");
                a.push_key(out);
                out.append(",");
                b.push_key(out);
                out.append(")");
            },
            SymExpr::Mod(a, b) => {
                out.append("Mod(");
                a.push_key(out);
                out.append(",");
                b.push_key(out);
                out.append(")");
            },
            SymExpr::Ite(c, a, b) => {
                out.append("Ite(");
                c.push_key(out);
                out.append(",");
                a.push_key(out);
                out.append(",");
                b.push_key(out);
                out.append(")");
            },
        }
    }

    /// The structural key.
    pub fn key(&self) -> (r: String)
        ensures
            r@ == with_term_key(seq![], self@),
    {
        let mut out = String::new();
        self.push_key(&mut out);
        out
    }
}

fn push_formulas_key(v: &Vec<BoolExpr>, out: &mut String)
    ensures
        final(out)@ == with_formulas_key(old(out)@, formulas_of(v@)),
    decreases v,
{
    #[verifier::loop_isolation(false)]
    for i in 0..v.len()
        invariant
            out@ == with_formulas_key(old(out)@, formulas_of(v@).take(i as int)),
    {
        out.append(",");
        v[i].push_key(out);
        proof {
            let s = formulas_of(v@);
            assert(s.take(i + 1).drop_last() =~= s.take(i as int));
            assert(s.take(i + 1).last() == v@[i as int]@);
        }
    }
    proof {
        assert(formulas_of(v@).take(v@.len() as int) =~= formulas_of(v@));
    }
}

impl BoolExpr {
    /// Appends the structural key.
    pub fn push_key(&self, out: &mut String)
        ensures
            final(out)@ == with_formula_key(old(out)@, self@),
        decreases self,
    {
        match self {
            BoolExpr::Bool(v) => if *v {
                out.append("True");
            } else {
                out.append("False");
            },
            BoolExpr::Not(x) => {
                out.append("Not(");
                x.push_key(out);
                out.append(")");
            },
            BoolExpr::And(xs) => {
                out.append("And(");
                push_formulas_key(xs, out);
                out.append(")");
            },
            BoolExpr::Or(xs) => {
                out.append("Or(");
                push_formulas_key(xs, out);
                out.append(")");
            },
            BoolExpr::Eq(a, b) => {
                out.append("Eq(");
                a.push_key(out);
                out.append(",");
                b.push_key(out);
                out.append(")");
            },
            BoolExpr::Ne(a, b) => {
                out.append("Ne(");
                a.push_key(out);
                out.append(",");
                b.push_key(out);
                out.append(")");
            },
            BoolExpr::Le(a, b) => {
                out.append("Le(");
                a.push_key(out);
                out.append(",");
                b.push_key(out);
                out.append(")");
            },
            BoolExpr::Lt(a, b) => {
                out.append("Lt(");
                a.push_key(out);
                out.append(",");
                b.push_key(out);
                out.append(")");
            },
            BoolExpr::Ge(a, b) => {
                out.append("Ge(");
                a.push_key(out);
                out.append(",");
                b.push_key(out);
                out.append(")");
            },
            BoolExpr::Gt(a, b) => {
                out.append("Gt(");
                a.push_key(out);
                out.append(",");
                b.push_key(out);
                out.append(")");
            },
            BoolExpr::Range { value, min, max, bits } => {
                out.append("Range(");
                value.push_key(out);
                out.append(",");
                push_int(out, *min);
                out.append(",");
                push_int(out, *max);
                out.append(",");
                push_bits(out, *bits);
                out.append(")");
            },
        }
    }

    /// The structural key.
    pub fn key(&self) -> (r: String)
        ensures
            r@ == with_formula_key(seq![], self@),
    {
        let mut out = String::new();
        self.push_key(&mut out);
        out
    }
}

} // verus!
