//! How terms and formulas are written.

use vstd::prelude::*;
use crate::checker::symbolic::expr::{Formula, SymType, Term};
use crate::checker::symbolic::expr_text::{
    with_formula, with_formulas, with_term, with_terms, with_type,
};
use crate::text::decimal_int;

verus! {

/// The text of a term.
pub open spec fn term_text(t: Term) -> Seq<char> {
    with_term(seq![], t)
}

/// The text of a formula.
pub open spec fn formula_text(f: Formula) -> Seq<char> {
    with_formula(seq![], f)
}

/// An operator in front of two operands, in parentheses.
pub open spec fn prefixed(op: Seq<char>, a: Seq<char>, b: Seq<char>) -> Seq<char> {
    seq!['('] + op + seq![' '] + a + seq![' '] + b + seq![')']
}

proof fn lemma_type_behind(s: Seq<char>, ty: SymType)
    ensures
        with_type(s, ty) == s + with_type(seq![], ty),
{
    assert(with_type(s, ty) =~= s + with_type(seq![], ty));
}

proof fn lemma_term_behind(s: Seq<char>, t: Term)
    ensures
        with_term(s, t) == s + term_text(t),
    decreases t,
{
    let e = Seq::<char>::empty();
    match t {
        Term::Int(k) => {
            assert(e + decimal_int(k) =~= decimal_int(k));
        },
        Term::Var(name, ty) => {
            lemma_type_behind(s + name + " : "@, ty);
            lemma_type_behind(e + name + " : "@, ty);
        },
        Term::Neg(x) => {
            lemma_term_behind(s + "(- "@, *x);
            lemma_term_behind(e + "(- "@, *x);
        },
        Term::Add(xs) => {
            lemma_terms_behind(s + "(+"@, xs);
            lemma_terms_behind(e + "(+"@, xs);
        },
        Term::Mul(xs) => {
            lemma_terms_behind(s + "(*"@, xs);
            lemma_terms_behind(e + "(*"@, xs);
        },
        Term::Sub(a, b) => {
            lemma_term_behind(s + "(- "@, *a);
            lemma_term_behind(e + "(- "@, *a);
            lemma_term_behind(with_term(s + "(- "@, *a) + " "@, *b);
            lemma_term_behind(with_term(e + "(- "@, *a) + " "@, *b);
        },
        Term::Div(a, b) => {
            lemma_term_behind(s + "(div "@, *a);
            lemma_term_behind(e + "(div "@, *a);
            lemma_term_behind(with_term(s + "(div "@, *a) + " "@, *b);
            lemma_term_behind(with_term(e + "(div "@, *a) + " "@, *b);
        },
        Term::Mod(a, b) => {
            lemma_term_behind(s + "(mod "@, *a);
            lemma_term_behind(e + "(mod "@, *a);
            lemma_term_behind(with_term(s + "(mod "@, *a) + " "@, *b);
            lemma_term_behind(with_term(e + "(mod "@, *a) + " "@, *b);
        },
        Term::Ite(c, a, b) => {
            lemma_formula_behind(s + "(ite "@, *c);
            lemma_formula_behind(e + "(ite "@, *c);
            let x = with_formula(s + "(ite "@, *c) + " "@;
            let y = with_formula(e + "(ite "@, *c) + " "@;
            lemma_term_behind(x, *a);
            lemma_term_behind(y, *a);
            lemma_term_behind(with_term(x, *a) + " "@, *b);
            lemma_term_behind(with_term(y, *a) + " "@, *b);
        },
    }
    assert(with_term(s, t) =~= s + with_term(e, t));
}

proof fn lemma_pair_behind(s: Seq<char>, head: Seq<char>, a: Term, b: Term)
    ensures
        with_term(with_term(s + head, a) + " "@, b) == s + head + term_text(a) + " "@ + term_text(b),
        with_term(with_term(seq![] + head, a) + " "@, b) == head + term_text(a) + " "@ + term_text(b),
{
    let e = Seq::<char>::empty();
    lemma_term_behind(s + head, a);
    lemma_term_behind(e + head, a);
    lemma_term_behind(with_term(s + head, a) + " "@, b);
    lemma_term_behind(with_term(e + head, a) + " "@, b);
    assert(e + head =~= head);
}

proof fn lemma_terms_behind(s: Seq<char>, xs: Seq<Term>)
    ensures
        with_terms(s, xs) == s + with_terms(seq![], xs),
    decreases xs,
{
    let e = Seq::<char>::empty();
    if xs.len() > 0 {
        lemma_terms_behind(s, xs.drop_last());
        lemma_term_behind(with_terms(s, xs.drop_last()) + " "@, xs.last());
        lemma_term_behind(with_terms(e, xs.drop_last()) + " "@, xs.last());
    }
    assert(with_terms(s, xs) =~= s + with_terms(e, xs));
}

proof fn lemma_formula_behind(s: Seq<char>, f: Formula)
    ensures
        with_formula(s, f) == s + formula_text(f),
    decreases f,
{
    let e = Seq::<char>::empty();
    match f {
        Formula::Not(x) => {
            lemma_formula_behind(s + "(not "@, *x);
            lemma_formula_behind(e + "(not "@, *x);
        },
        Formula::And(xs) => {
            lemma_formulas_behind(s + "(and"@, xs);
            lemma_formulas_behind(e + "(and"@, xs);
        },
        Formula::Or(xs) => {
            lemma_formulas_behind(s + "(or"@, xs);
            lemma_formulas_behind(e + "(or"@, xs);
        },
        Formula::Eq(a, b) => {
            lemma_term_behind(s + "(= "@, a);
            lemma_term_behind(e + "(= "@, a);
            lemma_term_behind(with_term(s + "(= "@, a) + " "@, b);
            lemma_term_behind(with_term(e + "(= "@, a) + " "@, b);
        },
        Formula::Ne(a, b) => {
            lemma_term_behind(s + "(not (= "@, a);
            lemma_term_behind(e + "(not (= "@, a);
            lemma_term_behind(with_term(s + "(not (= "@, a) + " "@, b);
            lemma_term_behind(with_term(e + "(not (= "@, a) + " "@, b);
        },
        Formula::Le(a, b) => {
            lemma_term_behind(s + "(<= "@, a);
            lemma_term_behind(e + "(<= "@, a);
            lemma_term_behind(with_term(s + "(<= "@, a) + " "@, b);
            lemma_term_behind(with_term(e + "(<= "@, a) + " "@, b);
        },
        Formula::Lt(a, b) => {
            lemma_term_behind(s + "(< "@, a);
            lemma_term_behind(e + "(< "@, a);
            lemma_term_behind(with_term(s + "(< "@, a) + " "@, b);
            lemma_term_behind(with_term(e + "(< "@, a) + " "@, b);
        },
        Formula::Ge(a, b) => {
            lemma_term_behind(s + "(>= "@, a);
            lemma_term_behind(e + "(>= "@, a);
            lemma_term_behind(with_term(s + "(>= "@, a) + " "@, b);
            lemma_term_behind(with_term(e + "(>= "@, a) + " "@, b);
        },
        Formula::Gt(a, b) => {
            lemma_term_behind(s + "(> "@, a);
            lemma_term_behind(e + "(> "@, a);
            lemma_term_behind(with_term(s + "(> "@, a) + " "@, b);
            lemma_term_behind(with_term(e + "(> "@, a) + " "@, b);
        },
        Formula::Range { value, min, max, bits } => {
            let x = s + "(and (<= "@ + decimal_int(min) + " "@;
            let y = e + "(and (<= "@ + decimal_int(min) + " "@;
            lemma_term_behind(x, value);
            lemma_term_behind(y, value);
            lemma_term_behind(with_term(x, value) + ") (<= "@, value);
            lemma_term_behind(with_term(y, value) + ") (<= "@, value);
        },
        _ => {},
    }
    assert(with_formula(s, f) =~= s + with_formula(e, f));
}

proof fn lemma_formulas_behind(s: Seq<char>, xs: Seq<Formula>)
    ensures
        with_formulas(s, xs) == s + with_formulas(seq![], xs),
    decreases xs,
{
    let e = Seq::<char>::empty();
    if xs.len() > 0 {
        lemma_formulas_behind(s, xs.drop_last());
        lemma_formula_behind(with_formulas(s, xs.drop_last()) + " "@, xs.last());
        lemma_formula_behind(with_formulas(e, xs.drop_last()) + " "@, xs.last());
    }
    assert(with_formulas(s, xs) =~= s + with_formulas(e, xs));
}

proof fn lemma_blank()
    ensures
        " "@ == seq![' '],
        ")"@ == seq![')'],
{
    reveal_strlit(" ");
    reveal_strlit(")");
    assert(" "@ =~= seq![' ']);
    assert(")"@ =~= seq![')']);
}

/// Operations are written in prefix notation, with the operands in order.
pub proof fn operations_are_written_in_prefix_notation(a: Term, b: Term)
    ensures
        term_text(Term::Sub(Box::new(a), Box::new(b))) == prefixed(
            "-"@,
            term_text(a),
            term_text(b),
        ),
        term_text(Term::Div(Box::new(a), Box::new(b))) == prefixed(
            "div"@,
            term_text(a),
            term_text(b),
        ),
        term_text(Term::Mod(Box::new(a), Box::new(b))) == prefixed(
            "mod"@,
            term_text(a),
            term_text(b),
        ),
        term_text(Term::Add(seq![a, b])) == prefixed("+"@, term_text(a), term_text(b)),
        term_text(Term::Mul(seq![a, b])) == prefixed("*"@, term_text(a), term_text(b)),
{
    let e = Seq::<char>::empty();
    lemma_blank();
    reveal_strlit("-");
    reveal_strlit("(- ");
    reveal_strlit("div");
    reveal_strlit("(div ");
    reveal_strlit("mod");
    reveal_strlit("(mod ");
    reveal_strlit("+");
    reveal_strlit("(+");
    reveal_strlit("*");
    reveal_strlit("(*");
    lemma_pair_behind(e, "(- "@, a, b);
    lemma_pair_behind(e, "(div "@, a, b);
    lemma_pair_behind(e, "(mod "@, a, b);
    assert("(- "@ =~= seq!['('] + "-"@ + seq![' ']);
    assert("(div "@ =~= seq!['('] + "div"@ + seq![' ']);
    assert("(mod "@ =~= seq!['('] + "mod"@ + seq![' ']);
    lemma_terms_behind("(+"@, seq![a, b]);
    lemma_terms_behind("(*"@, seq![a, b]);
    lemma_two_terms(a, b);
    assert("(+"@ =~= seq!['('] + "+"@);
    assert("(*"@ =~= seq!['('] + "*"@);
    assert(e + "(+"@ =~= "(+"@);
    assert(e + "(*"@ =~= "(*"@);
    assert(term_text(Term::Sub(Box::new(a), Box::new(b))) =~= prefixed("-"@, term_text(a), term_text(b)));
    assert(term_text(Term::Div(Box::new(a), Box::new(b))) =~= prefixed("div"@, term_text(a), term_text(b)));
    assert(term_text(Term::Mod(Box::new(a), Box::new(b))) =~= prefixed("mod"@, term_text(a), term_text(b)));
    assert(term_text(Term::Add(seq![a, b])) =~= prefixed("+"@, term_text(a), term_text(b)));
    assert(term_text(Term::Mul(seq![a, b])) =~= prefixed("*"@, term_text(a), term_text(b)));
}

proof fn lemma_two_terms(a: Term, b: Term)
    ensures
        with_terms(seq![], seq![a, b]) == seq![' '] + term_text(a) + seq![' '] + term_text(b),
{
    let e = Seq::<char>::empty();
    let one = seq![a];
    let two = seq![a, b];
    lemma_blank();
    assert(two.drop_last() =~= one);
    assert(one.drop_last() =~= seq![]);
    assert(with_terms(e, one.drop_last()) =~= e);
    lemma_term_behind(e + " "@, a);
    assert(with_terms(e, one) == with_term(e + " "@, a));
    lemma_term_behind(with_terms(e, one) + " "@, b);
    assert(with_terms(e, two) =~= seq![' '] + term_text(a) + seq![' '] + term_text(b));
}

/// Comparisons are written in prefix notation, with the operands in order.
pub proof fn comparisons_are_written_in_prefix_notation(a: Term, b: Term)
    ensures
        formula_text(Formula::Eq(a, b)) == prefixed("="@, term_text(a), term_text(b)),
        formula_text(Formula::Le(a, b)) == prefixed("<="@, term_text(a), term_text(b)),
        formula_text(Formula::Lt(a, b)) == prefixed("<"@, term_text(a), term_text(b)),
        formula_text(Formula::Ge(a, b)) == prefixed(">="@, term_text(a), term_text(b)),
        formula_text(Formula::Gt(a, b)) == prefixed(">"@, term_text(a), term_text(b)),
        formula_text(Formula::Ne(a, b)) == formula_text(Formula::Not(Box::new(Formula::Eq(a, b)))),
{
    let e = Seq::<char>::empty();
    lemma_blank();
    reveal_strlit("=");
    reveal_strlit("(= ");
    reveal_strlit("<=");
    reveal_strlit("(<= ");
    reveal_strlit("<");
    reveal_strlit("(< ");
    reveal_strlit(">=");
    reveal_strlit("(>= ");
    reveal_strlit(">");
    reveal_strlit("(> ");
    reveal_strlit("(not ");
    reveal_strlit("(not (= ");
    reveal_strlit("))");
    lemma_pair_behind(e, "(= "@, a, b);
    lemma_pair_behind(e, "(<= "@, a, b);
    lemma_pair_behind(e, "(< "@, a, b);
    lemma_pair_behind(e, "(>= "@, a, b);
    lemma_pair_behind(e, "(> "@, a, b);
    lemma_pair_behind(e, "(not (= "@, a, b);
    assert("(= "@ =~= seq!['('] + "="@ + seq![' ']);
    assert("(<= "@ =~= seq!['('] + "<="@ + seq![' ']);
    assert("(< "@ =~= seq!['('] + "<"@ + seq![' ']);
    assert("(>= "@ =~= seq!['('] + ">="@ + seq![' ']);
    assert("(> "@ =~= seq!['('] + ">"@ + seq![' ']);
    assert("(not (= "@ =~= "(not "@ + "(= "@);
    assert("))"@ =~= ")"@ + ")"@);
    let eq = Formula::Eq(a, b);
    lemma_formula_behind(e + "(not "@, eq);
    assert(formula_text(eq) =~= prefixed("="@, term_text(a), term_text(b)));
    assert(formula_text(Formula::Le(a, b)) =~= prefixed("<="@, term_text(a), term_text(b)));
    assert(formula_text(Formula::Lt(a, b)) =~= prefixed("<"@, term_text(a), term_text(b)));
    assert(formula_text(Formula::Ge(a, b)) =~= prefixed(">="@, term_text(a), term_text(b)));
    assert(formula_text(Formula::Gt(a, b)) =~= prefixed(">"@, term_text(a), term_text(b)));
    assert(formula_text(Formula::Ne(a, b)) =~= formula_text(Formula::Not(Box::new(eq))));
}

} // verus!
