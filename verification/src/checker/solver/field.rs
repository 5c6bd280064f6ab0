//! Terms and conditions over a finite field: their text in a script, and what they mean.

use vstd::prelude::*;
use crate::checker::solver::cvc5::{applied, conditional, field_const, gathered};

verus! {

/// Terms over the field; variables go by their names.
pub enum FieldTerm {
    Const(int),
    Var(Seq<char>),
    Neg(Box<FieldTerm>),
    Inv(Box<FieldTerm>),
    Sum(Seq<FieldTerm>),
    Product(Seq<FieldTerm>),
    Choice(Box<FieldCond>, Box<FieldTerm>, Box<FieldTerm>),
}

/// Conditions over the field.
pub enum FieldCond {
    Truth(bool),
    Not(Box<FieldCond>),
    All(Seq<FieldCond>),
    Any(Seq<FieldCond>),
    Same(FieldTerm, FieldTerm),
}

/// The sum of residues.
pub open spec fn sum_mod(xs: Seq<int>, p: int) -> int
    decreases xs.len(),
{
    if xs.len() == 0 {
        0int % p
    } else {
        (sum_mod(xs.drop_last(), p) + xs.last()) % p
    }
}

/// The product of residues.
pub open spec fn product_mod(xs: Seq<int>, p: int) -> int
    decreases xs.len(),
{
    if xs.len() == 0 {
        1int % p
    } else {
        (product_mod(xs.drop_last(), p) * xs.last()) % p
    }
}

/// The residue whose product with `x` is one.
pub open spec fn is_inverse(r: int, x: int, p: int) -> bool {
    0 <= r < p && (r * x) % p == 1int % p
}

/// A residue has an inverse.
pub open spec fn has_inverse(x: int, p: int) -> bool {
    exists|r: int| is_inverse(r, x, p)
}

/// The inverse of a residue, or zero where there is none.
pub open spec fn inverse(x: int, p: int) -> int {
    if has_inverse(x, p) {
        choose|r: int| is_inverse(r, x, p)
    } else {
        0
    }
}

/// Each is true.
pub open spec fn each_true(bs: Seq<bool>) -> bool {
    forall|i: int| 0 <= i < bs.len() ==> #[trigger] bs[i]
}

/// One is true.
pub open spec fn one_true(bs: Seq<bool>) -> bool {
    exists|i: int| 0 <= i < bs.len() && #[trigger] bs[i]
}

/// The residue that a term stands for when the variables stand for those that `v` gives.
pub open spec fn residue(t: FieldTerm, v: spec_fn(Seq<char>) -> int, p: int) -> int
    decreases t,
{
    match t {
        FieldTerm::Const(k) => k % p,
        FieldTerm::Var(name) => v(name) % p,
        FieldTerm::Neg(a) => (-residue(*a, v, p)) % p,
        FieldTerm::Inv(a) => inverse(residue(*a, v, p), p),
        FieldTerm::Sum(ts) => sum_mod(residues(ts, v, p), p),
        FieldTerm::Product(ts) => product_mod(residues(ts, v, p), p),
        FieldTerm::Choice(c, a, b) => if field_holds(*c, v, p) {
            residue(*a, v, p)
        } else {
            residue(*b, v, p)
        },
    }
}

/// The residues that terms stand for.
pub open spec fn residues(ts: Seq<FieldTerm>, v: spec_fn(Seq<char>) -> int, p: int) -> Seq<int>
    decreases ts,
{
    if ts.len() == 0 {
        seq![]
    } else {
        residues(ts.drop_last(), v, p).push(residue(ts.last(), v, p))
    }
}

/// The truth of a condition over the field.
pub open spec fn field_holds(c: FieldCond, v: spec_fn(Seq<char>) -> int, p: int) -> bool
    decreases c,
{
    match c {
        FieldCond::Truth(b) => b,
        FieldCond::Not(a) => !field_holds(*a, v, p),
        FieldCond::All(cs) => each_true(field_truths(cs, v, p)),
        FieldCond::Any(cs) => one_true(field_truths(cs, v, p)),
        FieldCond::Same(a, b) => residue(a, v, p) == residue(b, v, p),
    }
}

/// The truth of conditions over the field.
pub open spec fn field_truths(cs: Seq<FieldCond>, v: spec_fn(Seq<char>) -> int, p: int) -> Seq<
    bool,
>
    decreases cs,
{
    if cs.len() == 0 {
        seq![]
    } else {
        field_truths(cs.drop_last(), v, p).push(field_holds(cs.last(), v, p))
    }
}

/// The text of a term over the field.
pub open spec fn field_text(t: FieldTerm) -> Seq<char>
    decreases t,
{
    match t {
        FieldTerm::Const(k) => field_const(k),
        FieldTerm::Var(name) => name,
        FieldTerm::Neg(a) => applied("ff.neg"@, field_text(*a)),
        FieldTerm::Inv(a) => applied("ff.inv"@, field_text(*a)),
        FieldTerm::Sum(ts) => if ts.len() == 0 {
            field_const(0)
        } else {
            gathered("ff.add"@, field_texts(ts))
        },
        FieldTerm::Product(ts) => if ts.len() == 0 {
            field_const(1)
        } else {
            gathered("ff.mul"@, field_texts(ts))
        },
        FieldTerm::Choice(c, a, b) => conditional(
            field_cond_text(*c),
            field_text(*a),
            field_text(*b),
        ),
    }
}

/// The texts of terms over the field.
pub open spec fn field_texts(ts: Seq<FieldTerm>) -> Seq<Seq<char>>
    decreases ts,
{
    if ts.len() == 0 {
        seq![]
    } else {
        field_texts(ts.drop_last()).push(field_text(ts.last()))
    }
}

/// The text of a condition over the field.
pub open spec fn field_cond_text(c: FieldCond) -> Seq<char>
    decreases c,
{
    match c {
        FieldCond::Truth(b) => if b {
            "true"@
        } else {
            "false"@
        },
        FieldCond::Not(a) => applied("not"@, field_cond_text(*a)),
        FieldCond::All(cs) => if cs.len() == 0 {
            "true"@
        } else {
            gathered("and"@, field_cond_texts(cs))
        },
        FieldCond::Any(cs) => if cs.len() == 0 {
            "false"@
        } else {
            gathered("or"@, field_cond_texts(cs))
        },
        FieldCond::Same(a, b) => gathered("="@, seq![field_text(a), field_text(b)]),
    }
}

/// The texts of conditions over the field.
pub open spec fn field_cond_texts(cs: Seq<FieldCond>) -> Seq<Seq<char>>
    decreases cs,
{
    if cs.len() == 0 {
        seq![]
    } else {
        field_cond_texts(cs.drop_last()).push(field_cond_text(cs.last()))
    }
}

/// A character that ends a name.
pub open spec fn is_delimiter(c: char) -> bool {
    c == ' ' || c == '(' || c == ')'
}

/// A name of a variable: some characters, none of which ends it.
pub open spec fn is_plain(name: Seq<char>) -> bool {
    name.len() > 0 && forall|i: int| 0 <= i < name.len() ==> !is_delimiter(#[trigger] name[i])
}

/// The variables of a term have plain names.
pub open spec fn plain_term(t: FieldTerm) -> bool
    decreases t,
{
    match t {
        FieldTerm::Const(_) => true,
        FieldTerm::Var(name) => is_plain(name),
        FieldTerm::Neg(a) => plain_term(*a),
        FieldTerm::Inv(a) => plain_term(*a),
        FieldTerm::Sum(ts) => plain_terms(ts),
        FieldTerm::Product(ts) => plain_terms(ts),
        FieldTerm::Choice(c, a, b) => plain_cond(*c) && plain_term(*a) && plain_term(*b),
    }
}

/// The variables of terms have plain names.
pub open spec fn plain_terms(ts: Seq<FieldTerm>) -> bool
    decreases ts,
{
    ts.len() == 0 || (plain_terms(ts.drop_last()) && plain_term(ts.last()))
}

/// The variables of a condition have plain names.
pub open spec fn plain_cond(c: FieldCond) -> bool
    decreases c,
{
    match c {
        FieldCond::Truth(_) => true,
        FieldCond::Not(a) => plain_cond(*a),
        FieldCond::All(cs) => plain_conds(cs),
        FieldCond::Any(cs) => plain_conds(cs),
        FieldCond::Same(a, b) => plain_term(a) && plain_term(b),
    }
}

/// The variables of conditions have plain names.
pub open spec fn plain_conds(cs: Seq<FieldCond>) -> bool
    decreases cs,
{
    cs.len() == 0 || (plain_conds(cs.drop_last()) && plain_cond(cs.last()))
}

} // verus!
