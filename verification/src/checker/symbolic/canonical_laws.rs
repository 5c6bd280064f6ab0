//! Canonical forms do not depend on the order of operands.

use vstd::prelude::*;
use crate::checker::symbolic::canonical::{
    canonical, canonical_all, canonical_formula, canonical_formulas, formula_key, insert_formula,
    insert_term, sorted_formulas, sorted_terms, term_key,
};
use crate::checker::symbolic::expr::{Formula, Term};
use crate::text::text_lt;
use crate::text_laws::texts_are_ordered_by_first_difference;

verus! {

/// No operand has a key before that of its predecessor.
pub open spec fn terms_in_order(s: Seq<Term>) -> bool {
    forall|i: int| 0 < i < s.len() ==> !text_lt(term_key(#[trigger] s[i]), term_key(s[i - 1]))
}

/// No operand has a key before that of its predecessor.
pub open spec fn formulas_in_order(s: Seq<Formula>) -> bool {
    forall|i: int|
        0 < i < s.len() ==> !text_lt(formula_key(#[trigger] s[i]), formula_key(s[i - 1]))
}

proof fn lemma_insert_term(s: Seq<Term>, x: Term)
    requires
        terms_in_order(s),
    ensures
        terms_in_order(insert_term(s, x)),
        insert_term(s, x).len() == s.len() + 1,
        insert_term(s, x).to_multiset() == s.to_multiset().insert(x),
        insert_term(s, x).last() == x || (s.len() > 0 && insert_term(s, x).last() == s.last()),
    decreases s.len(),
{
    broadcast use vstd::seq_lib::group_to_multiset_ensures;

    if s.len() > 0 && text_lt(term_key(x), term_key(s.last())) {
        let front = s.drop_last();
        assert(terms_in_order(front)) by {
            assert forall|i: int| 0 < i < front.len() implies !text_lt(
                term_key(#[trigger] front[i]),
                term_key(front[i - 1]),
            ) by {
                assert(front[i] == s[i]);
            }
        }
        lemma_insert_term(front, x);
        let r = insert_term(front, x);
        let out = r.push(s.last());
        texts_are_ordered_by_first_difference(term_key(x), term_key(s.last()));
        if front.len() > 0 {
            assert(s[s.len() - 1] == s.last());
            assert(s[s.len() - 2] == front.last());
        }
        assert forall|i: int| 0 < i < out.len() implies !text_lt(
            term_key(#[trigger] out[i]),
            term_key(out[i - 1]),
        ) by {
            if i < r.len() {
                assert(out[i] == r[i]);
            } else {
                assert(out[i - 1] == r.last());
            }
        }
        assert(s =~= front.push(s.last()));
        assert(out.to_multiset() =~= s.to_multiset().insert(x));
    } else {
        let out = s.push(x);
        assert forall|i: int| 0 < i < out.len() implies !text_lt(
            term_key(#[trigger] out[i]),
            term_key(out[i - 1]),
        ) by {
            if i < s.len() {
                assert(out[i] == s[i]);
            } else {
                assert(out[i - 1] == s.last());
            }
        }
    }
}

proof fn lemma_sorted_terms(s: Seq<Term>)
    ensures
        terms_in_order(sorted_terms(s)),
        sorted_terms(s).len() == s.len(),
        sorted_terms(s).to_multiset() == s.to_multiset(),
    decreases s.len(),
{
    broadcast use vstd::seq_lib::group_to_multiset_ensures;

    if s.len() > 0 {
        lemma_sorted_terms(s.drop_last());
        lemma_insert_term(sorted_terms(s.drop_last()), s.last());
        assert(s =~= s.drop_last().push(s.last()));
    } else {
        assert(s =~= seq![]);
    }
}

proof fn lemma_insert_formula(s: Seq<Formula>, x: Formula)
    requires
        formulas_in_order(s),
    ensures
        formulas_in_order(insert_formula(s, x)),
        insert_formula(s, x).len() == s.len() + 1,
        insert_formula(s, x).to_multiset() == s.to_multiset().insert(x),
        insert_formula(s, x).last() == x || (s.len() > 0 && insert_formula(s, x).last() == s.last()),
    decreases s.len(),
{
    broadcast use vstd::seq_lib::group_to_multiset_ensures;

    if s.len() > 0 && text_lt(formula_key(x), formula_key(s.last())) {
        let front = s.drop_last();
        assert(formulas_in_order(front)) by {
            assert forall|i: int| 0 < i < front.len() implies !text_lt(
                formula_key(#[trigger] front[i]),
                formula_key(front[i - 1]),
            ) by {
                assert(front[i] == s[i]);
            }
        }
        lemma_insert_formula(front, x);
        let r = insert_formula(front, x);
        let out = r.push(s.last());
        texts_are_ordered_by_first_difference(formula_key(x), formula_key(s.last()));
        if front.len() > 0 {
            assert(s[s.len() - 1] == s.last());
            assert(s[s.len() - 2] == front.last());
        }
        assert forall|i: int| 0 < i < out.len() implies !text_lt(
            formula_key(#[trigger] out[i]),
            formula_key(out[i - 1]),
        ) by {
            if i < r.len() {
                assert(out[i] == r[i]);
            } else {
                assert(out[i - 1] == r.last());
            }
        }
        assert(s =~= front.push(s.last()));
        assert(out.to_multiset() =~= s.to_multiset().insert(x));
    } else {
        let out = s.push(x);
        assert forall|i: int| 0 < i < out.len() implies !text_lt(
            formula_key(#[trigger] out[i]),
            formula_key(out[i - 1]),
        ) by {
            if i < s.len() {
                assert(out[i] == s[i]);
            } else {
                assert(out[i - 1] == s.last());
            }
        }
    }
}

proof fn lemma_sorted_formulas(s: Seq<Formula>)
    ensures
        formulas_in_order(sorted_formulas(s)),
        sorted_formulas(s).len() == s.len(),
        sorted_formulas(s).to_multiset() == s.to_multiset(),
    decreases s.len(),
{
    broadcast use vstd::seq_lib::group_to_multiset_ensures;

    if s.len() > 0 {
        lemma_sorted_formulas(s.drop_last());
        lemma_insert_formula(sorted_formulas(s.drop_last()), s.last());
        assert(s =~= s.drop_last().push(s.last()));
    } else {
        assert(s =~= seq![]);
    }
}

proof fn lemma_all_len(vs: Seq<Term>)
    ensures
        canonical_all(vs).len() == vs.len(),
        forall|i: int| 0 <= i < vs.len() ==> #[trigger] canonical_all(vs)[i] == canonical(vs[i]),
    decreases vs.len(),
{
    if vs.len() > 0 {
        lemma_all_len(vs.drop_last());
    }
}

proof fn lemma_formulas_len(vs: Seq<Formula>)
    ensures
        canonical_formulas(vs).len() == vs.len(),
        forall|i: int|
            0 <= i < vs.len() ==> #[trigger] canonical_formulas(vs)[i] == canonical_formula(vs[i]),
    decreases vs.len(),
{
    if vs.len() > 0 {
        lemma_formulas_len(vs.drop_last());
    }
}

/// The canonical form of a sum or of a product has the canonical forms of the operands, each as
/// often as it occurs, in the order of their keys.
pub proof fn canonical_operands_are_in_order(vs: Seq<Term>)
    requires
        vs.len() > 1,
    ensures
        ({
            let forms = vs.map_values(|t: Term| canonical(t));
            let sum = canonical(Term::Add(vs));
            let product = canonical(Term::Mul(vs));
            &&& sum is Add && terms_in_order(sum->Add_0) && sum->Add_0.to_multiset()
                == forms.to_multiset()
            &&& product is Mul && terms_in_order(product->Mul_0) && product->Mul_0.to_multiset()
                == forms.to_multiset()
        }),
{
    lemma_all_len(vs);
    lemma_sorted_terms(canonical_all(vs));
    assert(canonical_all(vs) =~= vs.map_values(|t: Term| canonical(t)));
}

/// The canonical form of a conjunction or of a disjunction has the canonical forms of the
/// operands, each as often as it occurs, in the order of their keys.
pub proof fn canonical_conditions_are_in_order(vs: Seq<Formula>)
    requires
        vs.len() > 1,
    ensures
        ({
            let forms = vs.map_values(|f: Formula| canonical_formula(f));
            let all = canonical_formula(Formula::And(vs));
            let some = canonical_formula(Formula::Or(vs));
            &&& all is And && formulas_in_order(all->And_0) && all->And_0.to_multiset()
                == forms.to_multiset()
            &&& some is Or && formulas_in_order(some->Or_0) && some->Or_0.to_multiset()
                == forms.to_multiset()
        }),
{
    lemma_formulas_len(vs);
    lemma_sorted_formulas(canonical_formulas(vs));
    assert(canonical_formulas(vs) =~= vs.map_values(|f: Formula| canonical_formula(f)));
}

} // verus!
