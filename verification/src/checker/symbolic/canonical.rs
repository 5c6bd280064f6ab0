//! Canonical forms: operands of commutative operators in a fixed order.

use vstd::prelude::*;
use crate::checker::symbolic::expr::{formulas_of, terms_of, BoolExpr, Formula, SymExpr, Term};
use crate::checker::symbolic::expr_text::{with_formula_key, with_term_key};
use crate::checker::symbolic::meaning::{
    all_hold, holds, lemma_single, product_value, some_holds, sum_value, value,
};
use crate::text::{text_before, text_lt};

verus! {

broadcast use crate::checker::symbolic::expr_lists::group_lists;

/// The structural key of a term.
pub open spec fn term_key(t: Term) -> Seq<char> {
    with_term_key(seq![], t)
}

/// The structural key of a formula.
pub open spec fn formula_key(f: Formula) -> Seq<char> {
    with_formula_key(seq![], f)
}

/// `s` with `x` inserted behind every member whose key does not come after that of `x`.
pub open spec fn insert_term(s: Seq<Term>, x: Term) -> Seq<Term>
    decreases s.len(),
{
    if s.len() > 0 && text_lt(term_key(x), term_key(s.last())) {
        insert_term(s.drop_last(), x).push(s.last())
    } else {
        s.push(x)
    }
}

/// `s` in the order of keys; members with equal keys keep their order.
pub open spec fn sorted_terms(s: Seq<Term>) -> Seq<Term>
    decreases s.len(),
{
    if s.len() == 0 {
        seq![]
    } else {
        insert_term(sorted_terms(s.drop_last()), s.last())
    }
}

/// Where the sort inserts a member with key `k`.
fn place_of_term(keys: &Vec<String>, k: &String, os: Ghost<Seq<Term>>, x: Ghost<Term>) -> (p: usize)
    requires
        keys@.len() == os@.len(),
        forall|j: int| 0 <= j < os@.len() ==> (#[trigger] keys@[j])@ == term_key(os@[j]),
        k@ == term_key(x@),
    ensures
        p <= os@.len(),
        insert_term(os@, x@) == os@.take(p as int).push(x@) + os@.skip(p as int),
{
    let mut p: usize = keys.len();
    proof {
        assert(os@.take(p as int) =~= os@);
        assert(insert_term(os@, x@) =~= insert_term(os@, x@) + os@.skip(p as int));
    }
    while p > 0 && text_before(k.as_str(), keys[p - 1].as_str())
        invariant
            keys@.len() == os@.len(),
            forall|j: int| 0 <= j < os@.len() ==> (#[trigger] keys@[j])@ == term_key(os@[j]),
            k@ == term_key(x@),
            p <= os@.len(),
            insert_term(os@, x@) == insert_term(os@.take(p as int), x@) + os@.skip(p as int),
        decreases p,
    {
        proof {
            let t = os@.take(p as int);
            assert(t.last() == os@[p - 1]);
            assert(t.drop_last() =~= os@.take(p - 1));
            assert(insert_term(os@.take(p - 1), x@).push(os@[p - 1]) + os@.skip(p as int)
                =~= insert_term(os@.take(p - 1), x@) + os@.skip(p - 1));
        }
        p = p - 1;
    }
    proof {
        if p > 0 {
            assert(os@.take(p as int).last() == os@[p - 1]);
        }
    }
    p
}

fn sort_terms(v: Vec<SymExpr>) -> (r: Vec<SymExpr>)
    ensures
        terms_of(r@) == sorted_terms(terms_of(v@)),
{
    let ghost all = v@;
    let ghost ts = terms_of(all);
    let mut out: Vec<SymExpr> = Vec::new();
    let mut keys: Vec<String> = Vec::new();
    proof {
        assert(ts.take(0) =~= seq![]);
    }
    #[verifier::loop_isolation(false)]
    for x in it: v
        invariant
            it.seq() == all,
            terms_of(out@) == sorted_terms(ts.take(it.index())),
            keys@.len() == out@.len(),
            forall|j: int| 0 <= j < out@.len() ==> (#[trigger] keys@[j])@ == term_key(out@[j]@),
    {
        let ghost os = terms_of(out@);
        proof {
            let i = it.index();
            assert(ts.take(i + 1).drop_last() =~= ts.take(i));
            assert(ts.take(i + 1).last() == x@);
        }
        let k = x.key();
        let p = place_of_term(&keys, &k, Ghost(os), Ghost(x@));
        let ghost before = out@;
        let ghost before_keys = keys@;
        out.insert(p, x);
        keys.insert(p, k);
        proof {
            assert(terms_of(out@) =~= os.take(p as int).push(x@) + os.skip(p as int));
            assert forall|j: int| 0 <= j < out@.len() implies (#[trigger] keys@[j])@ == term_key(
                out@[j]@,
            ) by {
                if j < p {
                    assert(keys@[j] == before_keys[j]);
                } else if j > p {
                    assert(keys@[j] == before_keys[j - 1]);
                }
            }
        }
    }
    proof {
        assert(ts.take(ts.len() as int) =~= ts);
    }
    out
}

/// `s` with `x` inserted behind every member whose key does not come after that of `x`.
pub open spec fn insert_formula(s: Seq<Formula>, x: Formula) -> Seq<Formula>
    decreases s.len(),
{
    if s.len() > 0 && text_lt(formula_key(x), formula_key(s.last())) {
        insert_formula(s.drop_last(), x).push(s.last())
    } else {
        s.push(x)
    }
}

/// `s` in the order of keys; members with equal keys keep their order.
pub open spec fn sorted_formulas(s: Seq<Formula>) -> Seq<Formula>
    decreases s.len(),
{
    if s.len() == 0 {
        seq![]
    } else {
        insert_formula(sorted_formulas(s.drop_last()), s.last())
    }
}

/// Where the sort inserts a member with key `k`.
fn place_of_formula(keys: &Vec<String>, k: &String, os: Ghost<Seq<Formula>>, x: Ghost<Formula>) -> (p: usize)
    requires
        keys@.len() == os@.len(),
        forall|j: int| 0 <= j < os@.len() ==> (#[trigger] keys@[j])@ == formula_key(os@[j]),
        k@ == formula_key(x@),
    ensures
        p <= os@.len(),
        insert_formula(os@, x@) == os@.take(p as int).push(x@) + os@.skip(p as int),
{
    let mut p: usize = keys.len();
    proof {
        assert(os@.take(p as int) =~= os@);
        assert(insert_formula(os@, x@) =~= insert_formula(os@, x@) + os@.skip(p as int));
    }
    while p > 0 && text_before(k.as_str(), keys[p - 1].as_str())
        invariant
            keys@.len() == os@.len(),
            forall|j: int| 0 <= j < os@.len() ==> (#[trigger] keys@[j])@ == formula_key(os@[j]),
            k@ == formula_key(x@),
            p <= os@.len(),
            insert_formula(os@, x@) == insert_formula(os@.take(p as int), x@) + os@.skip(p as int),
        decreases p,
    {
        proof {
            let t = os@.take(p as int);
            assert(t.last() == os@[p - 1]);
            assert(t.drop_last() =~= os@.take(p - 1));
            assert(insert_formula(os@.take(p - 1), x@).push(os@[p - 1]) + os@.skip(p as int)
                =~= insert_formula(os@.take(p - 1), x@) + os@.skip(p - 1));
        }
        p = p - 1;
    }
    proof {
        if p > 0 {
            assert(os@.take(p as int).last() == os@[p - 1]);
        }
    }
    p
}

fn sort_formulas(v: Vec<BoolExpr>) -> (r: Vec<BoolExpr>)
    ensures
        formulas_of(r@) == sorted_formulas(formulas_of(v@)),
{
    let ghost all = v@;
    let ghost ts = formulas_of(all);
    let mut out: Vec<BoolExpr> = Vec::new();
    let mut keys: Vec<String> = Vec::new();
    proof {
        assert(ts.take(0) =~= seq![]);
    }
    #[verifier::loop_isolation(false)]
    for x in it: v
        invariant
            it.seq() == all,
            formulas_of(out@) == sorted_formulas(ts.take(it.index())),
            keys@.len() == out@.len(),
            forall|j: int| 0 <= j < out@.len() ==> (#[trigger] keys@[j])@ == formula_key(out@[j]@),
    {
        let ghost os = formulas_of(out@);
        proof {
            let i = it.index();
            assert(ts.take(i + 1).drop_last() =~= ts.take(i));
            assert(ts.take(i + 1).last() == x@);
        }
        let k = x.key();
        let p = place_of_formula(&keys, &k, Ghost(os), Ghost(x@));
        let ghost before = out@;
        let ghost before_keys = keys@;
        out.insert(p, x);
        keys.insert(p, k);
        proof {
            assert(formulas_of(out@) =~= os.take(p as int).push(x@) + os.skip(p as int));
            assert forall|j: int| 0 <= j < out@.len() implies (#[trigger] keys@[j])@ == formula_key(
                out@[j]@,
            ) by {
                if j < p {
                    assert(keys@[j] == before_keys[j]);
                } else if j > p {
                    assert(keys@[j] == before_keys[j - 1]);
                }
            }
        }
    }
    proof {
        assert(ts.take(ts.len() as int) =~= ts);
    }
    out
}

/// A sum or product of sorted operands; `unit` stands for no operand.
pub open spec fn collapsed_terms(items: Seq<Term>, unit: int, whole: Term) -> Term {
    if items.len() == 0 {
        Term::Int(unit)
    } else if items.len() == 1 {
        items[0]
    } else {
        whole
    }
}

/// A conjunction or disjunction of sorted operands; `unit` stands for no operand.
pub open spec fn collapsed_formulas(items: Seq<Formula>, unit: bool, whole: Formula) -> Formula {
    if items.len() == 0 {
        Formula::Bool(unit)
    } else if items.len() == 1 {
        items[0]
    } else {
        whole
    }
}

/// The canonical form of a term.
pub open spec fn canonical(t: Term) -> Term
    decreases t,
{
    match t {
        Term::Int(k) => Term::Int(k),
        Term::Var(name, ty) => Term::Var(name, ty),
        Term::Neg(x) => Term::Neg(Box::new(canonical(*x))),
        Term::Add(vs) => {
            let items = sorted_terms(canonical_all(vs));
            collapsed_terms(items, 0, Term::Add(items))
        },
        Term::Mul(vs) => {
            let items = sorted_terms(canonical_all(vs));
            collapsed_terms(items, 1, Term::Mul(items))
        },
        Term::Sub(a, b) => Term::Sub(Box::new(canonical(*a)), Box::new(canonical(*b))),
        Term::Div(a, b) => Term::Div(Box::new(canonical(*a)), Box::new(canonical(*b))),
        Term::Mod(a, b) => Term::Mod(Box::new(canonical(*a)), Box::new(canonical(*b))),
        Term::Ite(c, a, b) => Term::Ite(
            Box::new(canonical_formula(*c)),
            Box::new(canonical(*a)),
            Box::new(canonical(*b)),
        ),
    }
}

/// The canonical forms of a list.
pub open spec fn canonical_all(vs: Seq<Term>) -> Seq<Term>
    decreases vs,
{
    if vs.len() == 0 {
        seq![]
    } else {
        canonical_all(vs.drop_last()).push(canonical(vs.last()))
    }
}

/// The canonical form of a formula.
pub open spec fn canonical_formula(f: Formula) -> Formula
    decreases f,
{
    match f {
        Formula::Bool(b) => Formula::Bool(b),
        Formula::Not(x) => Formula::Not(Box::new(canonical_formula(*x))),
        Formula::And(vs) => {
            let items = sorted_formulas(canonical_formulas(vs));
            collapsed_formulas(items, true, Formula::And(items))
        },
        Formula::Or(vs) => {
            let items = sorted_formulas(canonical_formulas(vs));
            collapsed_formulas(items, false, Formula::Or(items))
        },
        Formula::Eq(a, b) => Formula::Eq(canonical(a), canonical(b)),
        Formula::Ne(a, b) => Formula::Ne(canonical(a), canonical(b)),
        Formula::Le(a, b) => Formula::Le(canonical(a), canonical(b)),
        Formula::Lt(a, b) => Formula::Lt(canonical(a), canonical(b)),
        Formula::Ge(a, b) => Formula::Ge(canonical(a), canonical(b)),
        Formula::Gt(a, b) => Formula::Gt(canonical(a), canonical(b)),
        Formula::Range { value: v, min, max, bits } => Formula::Range {
            value: canonical(v),
            min,
            max,
            bits,
        },
    }
}

/// The canonical forms of a list.
pub open spec fn canonical_formulas(vs: Seq<Formula>) -> Seq<Formula>
    decreases vs,
{
    if vs.len() == 0 {
        seq![]
    } else {
        canonical_formulas(vs.drop_last()).push(canonical_formula(vs.last()))
    }
}

fn canonicalize_terms(vs: &Vec<SymExpr>) -> (r: Vec<SymExpr>)
    ensures
        terms_of(r@) == canonical_all(terms_of(vs@)),
    decreases vs,
{
    let ghost ts = terms_of(vs@);
    let mut out: Vec<SymExpr> = Vec::new();
    proof {
        assert(ts.take(0) =~= seq![]);
    }
    #[verifier::loop_isolation(false)]
    for i in 0..vs.len()
        invariant
            terms_of(out@) == canonical_all(ts.take(i as int)),
    {
        proof {
            assert(ts.take(i + 1).drop_last() =~= ts.take(i as int));
            assert(ts.take(i + 1).last() == vs@[i as int]@);
        }
        out.push(canonicalize_symexpr(&vs[i]));
    }
    proof {
        assert(ts.take(ts.len() as int) =~= ts);
    }
    out
}

fn canonicalize_formulas(vs: &Vec<BoolExpr>) -> (r: Vec<BoolExpr>)
    ensures
        formulas_of(r@) == canonical_formulas(formulas_of(vs@)),
    decreases vs,
{
    let ghost ts = formulas_of(vs@);
    let mut out: Vec<BoolExpr> = Vec::new();
    proof {
        assert(ts.take(0) =~= seq![]);
    }
    #[verifier::loop_isolation(false)]
    for i in 0..vs.len()
        invariant
            formulas_of(out@) == canonical_formulas(ts.take(i as int)),
    {
        proof {
            assert(ts.take(i + 1).drop_last() =~= ts.take(i as int));
            assert(ts.take(i + 1).last() == vs@[i as int]@);
        }
        out.push(canonicalize_bool_expr(&vs[i]));
    }
    proof {
        assert(ts.take(ts.len() as int) =~= ts);
    }
    out
}

/// The canonical form of an expression.
pub fn canonicalize_symexpr(e: &SymExpr) -> (r: SymExpr)
    ensures
        r@ == canonical(e@),
    decreases e,
{
    match e {
        SymExpr::Int(k) => SymExpr::Int(*k),
        SymExpr::Var(name, ty) => SymExpr::Var(name.clone(), *ty),
        SymExpr::Neg(x) => SymExpr::Neg(Box::new(canonicalize_symexpr(x))),
        SymExpr::Add(vs) => {
            let mut items = sort_terms(canonicalize_terms(vs));
            proof {
                assert(terms_of(items@).len() == items@.len());
            }
            if items.len() == 0 {
                SymExpr::Int(0)
            } else if items.len() == 1 {
                items.remove(0)
            } else {
                SymExpr::Add(items)
            }
        },
        SymExpr::Mul(vs) => {
            let mut items = sort_terms(canonicalize_terms(vs));
            proof {
                assert(terms_of(items@).len() == items@.len());
            }
            if items.len() == 0 {
                SymExpr::Int(1)
            } else if items.len() == 1 {
                items.remove(0)
            } else {
                SymExpr::Mul(items)
            }
        },
        SymExpr::Sub(a, b) => SymExpr::Sub(
            Box::new(canonicalize_symexpr(a)),
            Box::new(canonicalize_symexpr(b)),
        ),
        SymExpr::Div(a, b) => SymExpr::Div(
            Box::new(canonicalize_symexpr(a)),
            Box::new(canonicalize_symexpr(b)),
        ),
        SymExpr::Mod(a, b) => SymExpr::Mod(
            Box::new(canonicalize_symexpr(a)),
            Box::new(canonicalize_symexpr(b)),
        ),
        SymExpr::Ite(c, a, b) => SymExpr::Ite(
            Box::new(canonicalize_bool_expr(c)),
            Box::new(canonicalize_symexpr(a)),
            Box::new(canonicalize_symexpr(b)),
        ),
    }
}

/// The canonical form of a condition.
pub fn canonicalize_bool_expr(b: &BoolExpr) -> (r: BoolExpr)
    ensures
        r@ == canonical_formula(b@),
    decreases b,
{
    match b {
        BoolExpr::Bool(v) => BoolExpr::Bool(*v),
        BoolExpr::Not(x) => BoolExpr::Not(Box::new(canonicalize_bool_expr(x))),
        BoolExpr::And(vs) => {
            let mut items = sort_formulas(canonicalize_formulas(vs));
            proof {
                assert(formulas_of(items@).len() == items@.len());
            }
            if items.len() == 0 {
                BoolExpr::Bool(true)
            } else if items.len() == 1 {
                items.remove(0)
            } else {
                BoolExpr::And(items)
            }
        },
        BoolExpr::Or(vs) => {
            let mut items = sort_formulas(canonicalize_formulas(vs));
            proof {
                assert(formulas_of(items@).len() == items@.len());
            }
            if items.len() == 0 {
                BoolExpr::Bool(false)
            } else if items.len() == 1 {
                items.remove(0)
            } else {
                BoolExpr::Or(items)
            }
        },
        BoolExpr::Eq(a, b) => BoolExpr::Eq(canonicalize_symexpr(a), canonicalize_symexpr(b)),
        BoolExpr::Ne(a, b) => BoolExpr::Ne(canonicalize_symexpr(a), canonicalize_symexpr(b)),
        BoolExpr::Le(a, b) => BoolExpr::Le(canonicalize_symexpr(a), canonicalize_symexpr(b)),
        BoolExpr::Lt(a, b) => BoolExpr::Lt(canonicalize_symexpr(a), canonicalize_symexpr(b)),
        BoolExpr::Ge(a, b) => BoolExpr::Ge(canonicalize_symexpr(a), canonicalize_symexpr(b)),
        BoolExpr::Gt(a, b) => BoolExpr::Gt(canonicalize_symexpr(a), canonicalize_symexpr(b)),
        BoolExpr::Range { value, min, max, bits } => BoolExpr::Range {
            value: canonicalize_symexpr(value),
            min: *min,
            max: *max,
            bits: *bits,
        },
    }
}

proof fn lemma_insert_term(s: Seq<Term>, x: Term, env: spec_fn(Seq<char>) -> int)
    ensures
        sum_value(insert_term(s, x), env) == sum_value(s, env) + value(x, env),
        product_value(insert_term(s, x), env) == product_value(s, env) * value(x, env),
        insert_term(s, x).len() == s.len() + 1,
    decreases s.len(),
{
    if s.len() > 0 && text_lt(term_key(x), term_key(s.last())) {
        lemma_insert_term(s.drop_last(), x, env);
        let t = insert_term(s.drop_last(), x);
        assert(t.push(s.last()).drop_last() =~= t);
        let p = product_value(s.drop_last(), env);
        let a = value(x, env);
        let b = value(s.last(), env);
        assert((p * a) * b == (p * b) * a) by (nonlinear_arith);
    } else {
        assert(s.push(x).drop_last() =~= s);
    }
}

proof fn lemma_sorted_terms(s: Seq<Term>, env: spec_fn(Seq<char>) -> int)
    ensures
        sum_value(sorted_terms(s), env) == sum_value(s, env),
        product_value(sorted_terms(s), env) == product_value(s, env),
        sorted_terms(s).len() == s.len(),
    decreases s.len(),
{
    if s.len() > 0 {
        lemma_sorted_terms(s.drop_last(), env);
        lemma_insert_term(sorted_terms(s.drop_last()), s.last(), env);
    }
}

proof fn lemma_insert_formula(s: Seq<Formula>, x: Formula, env: spec_fn(Seq<char>) -> int)
    ensures
        all_hold(insert_formula(s, x), env) == (all_hold(s, env) && holds(x, env)),
        some_holds(insert_formula(s, x), env) == (some_holds(s, env) || holds(x, env)),
    decreases s.len(),
{
    if s.len() > 0 && text_lt(formula_key(x), formula_key(s.last())) {
        lemma_insert_formula(s.drop_last(), x, env);
        let t = insert_formula(s.drop_last(), x);
        assert(t.push(s.last()).drop_last() =~= t);
    } else {
        assert(s.push(x).drop_last() =~= s);
    }
}

proof fn lemma_sorted_formulas(s: Seq<Formula>, env: spec_fn(Seq<char>) -> int)
    ensures
        all_hold(sorted_formulas(s), env) == all_hold(s, env),
        some_holds(sorted_formulas(s), env) == some_holds(s, env),
    decreases s.len(),
{
    if s.len() > 0 {
        lemma_sorted_formulas(s.drop_last(), env);
        lemma_insert_formula(sorted_formulas(s.drop_last()), s.last(), env);
    }
}

proof fn lemma_canonical_all(vs: Seq<Term>, env: spec_fn(Seq<char>) -> int)
    ensures
        sum_value(canonical_all(vs), env) == sum_value(vs, env),
        product_value(canonical_all(vs), env) == product_value(vs, env),
    decreases vs,
{
    if vs.len() > 0 {
        lemma_canonical_all(vs.drop_last(), env);
        canonical_keeps_value(vs.last(), env);
        let t = canonical_all(vs.drop_last());
        assert(t.push(canonical(vs.last())).drop_last() =~= t);
    }
}

proof fn lemma_canonical_formulas(vs: Seq<Formula>, env: spec_fn(Seq<char>) -> int)
    ensures
        all_hold(canonical_formulas(vs), env) == all_hold(vs, env),
        some_holds(canonical_formulas(vs), env) == some_holds(vs, env),
    decreases vs,
{
    if vs.len() > 0 {
        lemma_canonical_formulas(vs.drop_last(), env);
        canonical_keeps_truth(vs.last(), env);
        let t = canonical_formulas(vs.drop_last());
        assert(t.push(canonical_formula(vs.last())).drop_last() =~= t);
    }
}

/// The canonical form of a term has the same value.
pub proof fn canonical_keeps_value(t: Term, env: spec_fn(Seq<char>) -> int)
    ensures
        value(canonical(t), env) == value(t, env),
    decreases t,
{
    match t {
        Term::Int(_) => {},
        Term::Var(_, _) => {},
        Term::Neg(x) => canonical_keeps_value(*x, env),
        Term::Add(vs) => {
            lemma_canonical_all(vs, env);
            let c = canonical_all(vs);
            lemma_sorted_terms(c, env);
            let items = sorted_terms(c);
            assert(value(Term::Add(items), env) == sum_value(items, env));
            if items.len() == 1 {
                assert(items =~= seq![items[0]]);
                lemma_single(items[0], Formula::Bool(true), env);
            }
        },
        Term::Mul(vs) => {
            lemma_canonical_all(vs, env);
            let c = canonical_all(vs);
            lemma_sorted_terms(c, env);
            let items = sorted_terms(c);
            assert(value(Term::Mul(items), env) == product_value(items, env));
            if items.len() == 1 {
                assert(items =~= seq![items[0]]);
                lemma_single(items[0], Formula::Bool(true), env);
            }
        },
        Term::Sub(a, b) => {
            canonical_keeps_value(*a, env);
            canonical_keeps_value(*b, env);
        },
        Term::Div(a, b) => {
            canonical_keeps_value(*a, env);
            canonical_keeps_value(*b, env);
        },
        Term::Mod(a, b) => {
            canonical_keeps_value(*a, env);
            canonical_keeps_value(*b, env);
        },
        Term::Ite(c, a, b) => {
            canonical_keeps_truth(*c, env);
            canonical_keeps_value(*a, env);
            canonical_keeps_value(*b, env);
        },
    }
}

/// The canonical form of a formula has the same truth value.
pub proof fn canonical_keeps_truth(f: Formula, env: spec_fn(Seq<char>) -> int)
    ensures
        holds(canonical_formula(f), env) == holds(f, env),
    decreases f,
{
    match f {
        Formula::Bool(_) => {},
        Formula::Not(x) => canonical_keeps_truth(*x, env),
        Formula::And(vs) => {
            lemma_canonical_formulas(vs, env);
            let c = canonical_formulas(vs);
            lemma_sorted_formulas(c, env);
            let items = sorted_formulas(c);
            assert(holds(Formula::And(items), env) == all_hold(items, env));
            if items.len() == 1 {
                assert(items =~= seq![items[0]]);
                lemma_single(Term::Int(0), items[0], env);
            }
        },
        Formula::Or(vs) => {
            lemma_canonical_formulas(vs, env);
            let c = canonical_formulas(vs);
            lemma_sorted_formulas(c, env);
            let items = sorted_formulas(c);
            assert(holds(Formula::Or(items), env) == some_holds(items, env));
            if items.len() == 1 {
                assert(items =~= seq![items[0]]);
                lemma_single(Term::Int(0), items[0], env);
            }
        },
        Formula::Eq(a, b) => {
            canonical_keeps_value(a, env);
            canonical_keeps_value(b, env);
        },
        Formula::Ne(a, b) => {
            canonical_keeps_value(a, env);
            canonical_keeps_value(b, env);
        },
        Formula::Le(a, b) => {
            canonical_keeps_value(a, env);
            canonical_keeps_value(b, env);
        },
        Formula::Lt(a, b) => {
            canonical_keeps_value(a, env);
            canonical_keeps_value(b, env);
        },
        Formula::Ge(a, b) => {
            canonical_keeps_value(a, env);
            canonical_keeps_value(b, env);
        },
        Formula::Gt(a, b) => {
            canonical_keeps_value(a, env);
            canonical_keeps_value(b, env);
        },
        Formula::Range { value: v, min, max, bits } => canonical_keeps_value(v, env),
    }
}

} // verus!
