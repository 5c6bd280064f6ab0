//! Facts about lists of expressions and their models.

use vstd::prelude::*;
use crate::checker::symbolic::expr::{formulas_of, terms_of, BoolExpr, Formula, SymExpr, Term};

verus! {

pub broadcast proof fn lemma_terms_push(s: Seq<SymExpr>, x: SymExpr)
    ensures
        #[trigger] terms_of(s.push(x)) == terms_of(s).push(x@),
{
    assert(terms_of(s.push(x)) =~= terms_of(s).push(x@));
}

pub broadcast proof fn lemma_formulas_push(s: Seq<BoolExpr>, x: BoolExpr)
    ensures
        #[trigger] formulas_of(s.push(x)) == formulas_of(s).push(x@),
{
    assert(formulas_of(s.push(x)) =~= formulas_of(s).push(x@));
}

pub broadcast proof fn lemma_terms_empty()
    ensures
        #[trigger] terms_of(Seq::<SymExpr>::empty()) == Seq::<Term>::empty(),
{
    assert(terms_of(Seq::<SymExpr>::empty()) =~= Seq::<Term>::empty());
}

pub broadcast proof fn lemma_formulas_empty()
    ensures
        #[trigger] formulas_of(Seq::<BoolExpr>::empty()) == Seq::<Formula>::empty(),
{
    assert(formulas_of(Seq::<BoolExpr>::empty()) =~= Seq::<Formula>::empty());
}

pub broadcast group group_lists {
    lemma_terms_push,
    lemma_formulas_push,
    lemma_terms_empty,
    lemma_formulas_empty,
}

} // verus!
