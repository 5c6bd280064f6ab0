//! Building sums, products, differences and quotients with light constant folding.

use vstd::prelude::*;
use crate::checker::symbolic::expr::{term_of, terms_of, SymExpr, Term};

verus! {

broadcast use crate::checker::symbolic::expr_lists::group_lists;

/// `k` is representable as a constant.
pub open spec fn fits(k: int) -> bool {
    i128::MIN <= k <= i128::MAX
}

/// `k` moved to the nearest representable constant.
pub open spec fn saturated(k: int) -> int {
    if k > i128::MAX {
        i128::MAX as int
    } else if k < i128::MIN {
        i128::MIN as int
    } else {
        k
    }
}

/// The operands of nested sums among `s`, one level deep.
pub open spec fn add_leaves(s: Seq<Term>) -> Seq<Term>
    decreases s.len(),
{
    if s.len() == 0 {
        seq![]
    } else {
        add_leaves(s.drop_last()) + match s.last() {
            Term::Add(vs) => vs,
            other => seq![other],
        }
    }
}

/// The operands of nested products among `s`, one level deep.
pub open spec fn mul_leaves(s: Seq<Term>) -> Seq<Term>
    decreases s.len(),
{
    if s.len() == 0 {
        seq![]
    } else {
        mul_leaves(s.drop_last()) + match s.last() {
            Term::Mul(vs) => vs,
            other => seq![other],
        }
    }
}

/// The sum of the constants among `s`.
pub open spec fn const_sum(s: Seq<Term>) -> int
    decreases s.len(),
{
    if s.len() == 0 {
        0
    } else {
        const_sum(s.drop_last()) + match s.last() {
            Term::Int(k) => k,
            _ => 0,
        }
    }
}

/// The product of the constants among `s`, saturating after each factor.
pub open spec fn const_product(s: Seq<Term>) -> int
    decreases s.len(),
{
    if s.len() == 0 {
        1
    } else {
        match s.last() {
            Term::Int(k) => saturated(const_product(s.drop_last()) * k),
            _ => const_product(s.drop_last()),
        }
    }
}

/// The members of `s` that are not constants, in order.
pub open spec fn non_consts(s: Seq<Term>) -> Seq<Term>
    decreases s.len(),
{
    if s.len() == 0 {
        seq![]
    } else if s.last() is Int {
        non_consts(s.drop_last())
    } else {
        non_consts(s.drop_last()).push(s.last())
    }
}

/// Every partial sum of the constants among `s` is representable.
pub open spec fn sums_fit(s: Seq<Term>) -> bool {
    forall|i: int| 0 <= i <= s.len() ==> fits(const_sum(#[trigger] s.take(i)))
}

/// A constant zero occurs among `s`.
pub open spec fn has_zero(s: Seq<Term>) -> bool {
    exists|i: int| 0 <= i < s.len() && #[trigger] s[i] == Term::Int(0)
}

/// The sum of `s`: nested sums are spliced in, and the constants are collected at the end.
pub open spec fn sum_term(s: Seq<Term>) -> Term {
    let flat = add_leaves(s);
    let k = const_sum(flat);
    let items = if k != 0 {
        non_consts(flat).push(Term::Int(k))
    } else {
        non_consts(flat)
    };
    if items.len() == 0 {
        Term::Int(0)
    } else if items.len() == 1 {
        items[0]
    } else {
        Term::Add(items)
    }
}

/// The product of `s`: nested products are spliced in, and the constants are collected in front.
pub open spec fn product_term(s: Seq<Term>) -> Term {
    let flat = mul_leaves(s);
    let k = const_product(flat);
    let items = if k != 1 {
        seq![Term::Int(k)] + non_consts(flat)
    } else {
        non_consts(flat)
    };
    if has_zero(flat) {
        Term::Int(0)
    } else if items.len() == 0 {
        Term::Int(1)
    } else if items.len() == 1 {
        items[0]
    } else {
        Term::Mul(items)
    }
}

/// The difference of two constants is representable.
pub open spec fn sub_fits(a: Term, b: Term) -> bool {
    a is Int && b is Int ==> fits(a->Int_0 - b->Int_0)
}

/// The difference of `a` and `b`.
pub open spec fn sub_term(a: Term, b: Term) -> Term {
    match (a, b) {
        (Term::Int(x), Term::Int(y)) => Term::Int(x - y),
        (_, Term::Int(y)) => if y == 0 {
            a
        } else {
            Term::Sub(Box::new(a), Box::new(b))
        },
        _ => Term::Sub(Box::new(a), Box::new(b)),
    }
}

/// The quotient of two constants is representable.
pub open spec fn div_fits(a: Term, b: Term) -> bool {
    a is Int && b is Int && b->Int_0 != 0 ==> fits(a->Int_0 / b->Int_0)
}

/// The Euclidean quotient of `a` and `b`.
pub open spec fn div_term(a: Term, b: Term) -> Term {
    if a is Int && b is Int && b->Int_0 != 0 {
        Term::Int(a->Int_0 / b->Int_0)
    } else {
        Term::Div(Box::new(a), Box::new(b))
    }
}

/// One more operand of a sum.
proof fn lemma_sum_step(s: Seq<Term>, t: Term)
    ensures
        const_sum(s.push(t)) == const_sum(s) + match t {
            Term::Int(k) => k,
            _ => 0,
        },
        non_consts(s.push(t)) == if t is Int {
            non_consts(s)
        } else {
            non_consts(s).push(t)
        },
        const_product(s.push(t)) == match t {
            Term::Int(k) => saturated(const_product(s) * k),
            _ => const_product(s),
        },
        has_zero(s.push(t)) == (has_zero(s) || t == Term::Int(0)),
        sums_fit(s.push(t)) == (sums_fit(s) && fits(const_sum(s.push(t)))),
{
    let u = s.push(t);
    assert(u.drop_last() =~= s);
    assert(u.last() == t);
    if has_zero(s) {
        let i = choose|i: int| 0 <= i < s.len() && #[trigger] s[i] == Term::Int(0);
        assert(u[i] == Term::Int(0));
    }
    if t == Term::Int(0) {
        assert(u[s.len() as int] == Term::Int(0));
    }
    if has_zero(u) {
        let i = choose|i: int| 0 <= i < u.len() && #[trigger] u[i] == Term::Int(0);
        if i < s.len() {
            assert(s[i] == Term::Int(0));
        }
    }
    assert(u.take(u.len() as int) =~= u);
    assert forall|i: int| 0 <= i <= s.len() implies u.take(i) == s.take(i) by {
        assert(u.take(i) =~= s.take(i));
    }
    if sums_fit(u) {
        assert(fits(const_sum(u.take(u.len() as int))));
        assert forall|i: int| 0 <= i <= s.len() implies fits(const_sum(#[trigger] s.take(i))) by {
            assert(fits(const_sum(u.take(i))));
        }
    }
    if sums_fit(s) && fits(const_sum(u)) {
        assert forall|i: int| 0 <= i <= u.len() implies fits(const_sum(#[trigger] u.take(i))) by {
            if i <= s.len() {
                assert(fits(const_sum(s.take(i))));
            }
        }
    }
}

/// The partial sums of a prefix are partial sums of the whole.
proof fn lemma_sums_fit_prefix(s: Seq<Term>, t: Seq<Term>)
    requires
        sums_fit(s + t),
    ensures
        sums_fit(s),
{
    assert forall|i: int| 0 <= i <= s.len() implies fits(const_sum(#[trigger] s.take(i))) by {
        assert((s + t).take(i) =~= s.take(i));
        assert(fits(const_sum((s + t).take(i))));
    }
}

/// The leaves of a prefix are a prefix of the leaves.
proof fn lemma_add_leaves_prefix(s: Seq<Term>, i: int)
    requires
        0 <= i <= s.len(),
    ensures
        exists|t: Seq<Term>| add_leaves(s) == #[trigger] (add_leaves(s.take(i)) + t),
    decreases s.len() - i,
{
    if i == s.len() {
        assert(s.take(i) =~= s);
        assert(add_leaves(s) =~= add_leaves(s.take(i)) + seq![]);
    } else {
        lemma_add_leaves_prefix(s, i + 1);
        let t = choose|t: Seq<Term>| add_leaves(s) == #[trigger] (add_leaves(s.take(i + 1)) + t);
        assert(s.take(i + 1).drop_last() =~= s.take(i));
        let mid = match s[i] {
            Term::Add(vs) => vs,
            other => seq![other],
        };
        assert(add_leaves(s) =~= add_leaves(s.take(i)) + (mid + t));
    }
}

proof fn lemma_has_zero_prefix(s: Seq<Term>, i: int)
    requires
        0 <= i <= s.len(),
        has_zero(mul_leaves(s.take(i))),
    ensures
        has_zero(mul_leaves(s)),
    decreases s.len() - i,
{
    if i == s.len() {
        assert(s.take(i) =~= s);
    } else {
        assert(s.take(i + 1).drop_last() =~= s.take(i));
        let l = mul_leaves(s.take(i));
        let m = mul_leaves(s.take(i + 1));
        let j = choose|j: int| 0 <= j < l.len() && #[trigger] l[j] == Term::Int(0);
        assert(m[j] == Term::Int(0));
        lemma_has_zero_prefix(s, i + 1);
    }
}

/// Folds one operand into a sum under construction; `false` when the constant is out of range.
fn add_leaf(sum: &mut i128, flat: &mut Vec<SymExpr>, x: SymExpr, leaves: Ghost<Seq<Term>>) -> (ok:
    bool)
    requires
        *old(sum) == const_sum(leaves@),
        terms_of(old(flat)@) == non_consts(leaves@),
        sums_fit(leaves@),
    ensures
        ok == sums_fit(leaves@.push(x@)),
        ok ==> *final(sum) == const_sum(leaves@.push(x@)),
        ok ==> terms_of(final(flat)@) == non_consts(leaves@.push(x@)),
{
    proof {
        lemma_sum_step(leaves@, x@);
    }
    match x {
        SymExpr::Int(k) => match sum.checked_add(k) {
            Some(v) => {
                *sum = v;
                true
            },
            None => false,
        },
        other => {
            flat.push(other);
            true
        },
    }
}

/// Folds one operand into a product under construction; `false` when it is zero.
fn mul_leaf(prod: &mut i128, flat: &mut Vec<SymExpr>, x: SymExpr, leaves: Ghost<Seq<Term>>) -> (ok:
    bool)
    requires
        *old(prod) == const_product(leaves@),
        terms_of(old(flat)@) == non_consts(leaves@),
        !has_zero(leaves@),
    ensures
        ok == !has_zero(leaves@.push(x@)),
        ok ==> *final(prod) == const_product(leaves@.push(x@)),
        ok ==> terms_of(final(flat)@) == non_consts(leaves@.push(x@)),
{
    proof {
        lemma_sum_step(leaves@, x@);
    }
    match x {
        SymExpr::Int(k) => {
            if k == 0 {
                return false;
            }
            *prod = saturating_product(*prod, k);
            true
        },
        other => {
            flat.push(other);
            true
        },
    }
}

/// The product moved to the nearest representable value.
fn saturating_product(a: i128, b: i128) -> (r: i128)
    ensures
        r == saturated(a * b),
{
    match a.checked_mul(b) {
        Some(v) => v,
        None => {
            proof {
                assert(a == 0 || b == 0 ==> a * b == 0) by (nonlinear_arith);
                assert((a < 0) == (b < 0) ==> a * b >= 0) by (nonlinear_arith);
                assert((a < 0) != (b < 0) ==> a * b <= 0) by (nonlinear_arith);
            }
            if (a < 0) == (b < 0) {
                i128::MAX
            } else {
                i128::MIN
            }
        },
    }
}

/// Sum with constant folding and flattening; `None` when a constant leaves its range.
#[verifier::loop_isolation(false)]
fn simplify_add(xs: Vec<SymExpr>) -> (r: Option<SymExpr>)
    ensures
        match r {
            Some(e) => sums_fit(add_leaves(terms_of(xs@))) && e@ == sum_term(terms_of(xs@)),
            None => !sums_fit(add_leaves(terms_of(xs@))),
        },
{
    let ghost all = xs@;
    let ghost ts = terms_of(all);
    let ghost mut leaves: Seq<Term> = seq![];
    let mut sum: i128 = 0;
    let mut flat: Vec<SymExpr> = Vec::new();
    proof {
        assert(ts.take(0) =~= seq![]);
        assert forall|i: int| 0 <= i <= 0 implies fits(const_sum(#[trigger] leaves.take(i))) by {
            assert(leaves.take(i) =~= seq![]);
        }
    }
    for x in it: xs
        invariant
            it.seq() == all,
            leaves == add_leaves(ts.take(it.index())),
            sum == const_sum(leaves),
            terms_of(flat@) == non_consts(leaves),
            sums_fit(leaves),
    {
        let ghost i = it.index();
        let ghost start = leaves;
        proof {
            assert(ts.take(i + 1).drop_last() =~= ts.take(i));
            assert(ts[i] == x@);
            lemma_add_leaves_prefix(ts, i + 1);
        }
        let ghost rest = choose|t: Seq<Term>|
            add_leaves(ts) == #[trigger] (add_leaves(ts.take(i + 1)) + t);
        match x {
            SymExpr::Add(vs) => {
                let ghost inner = vs@;
                proof {
                    assert(add_leaves(ts.take(i + 1)) == start + terms_of(inner));
                    assert(start =~= start + terms_of(inner).take(0));
                }
                for v in jt: vs
                    invariant
                        jt.seq() == inner,
                        leaves == start + terms_of(inner).take(jt.index()),
                        sum == const_sum(leaves),
                        terms_of(flat@) == non_consts(leaves),
                        sums_fit(leaves),
                {
                    let ghost j = jt.index();
                    let ghost next = leaves.push(v@);
                    proof {
                        assert(next =~= start + terms_of(inner).take(j + 1));
                        if !sums_fit(next) {
                            let tail = terms_of(inner).skip(j + 1) + rest;
                            assert(add_leaves(ts) =~= next + tail);
                            if sums_fit(add_leaves(ts)) {
                                lemma_sums_fit_prefix(next, tail);
                            }
                        }
                    }
                    if !add_leaf(&mut sum, &mut flat, v, Ghost(leaves)) {
                        return None;
                    }
                    proof {
                        leaves = next;
                    }
                }
                proof {
                    assert(terms_of(inner).take(inner.len() as int) =~= terms_of(inner));
                }
            },
            other => {
                let ghost next = leaves.push(other@);
                proof {
                    assert(next =~= add_leaves(ts.take(i + 1)));
                    if !sums_fit(next) && sums_fit(add_leaves(ts)) {
                        lemma_sums_fit_prefix(next, rest);
                    }
                }
                if !add_leaf(&mut sum, &mut flat, other, Ghost(leaves)) {
                    return None;
                }
                proof {
                    leaves = next;
                }
            },
        }
    }
    proof {
        assert(ts.take(ts.len() as int) =~= ts);
    }
    if sum != 0 {
        let ghost before = flat@;
        flat.push(SymExpr::Int(sum));
        proof {
            assert(terms_of(flat@) == terms_of(before).push(Term::Int(sum as int)));
        }
    }
    if flat.len() == 0 {
        Some(SymExpr::Int(0))
    } else if flat.len() == 1 {
        Some(flat.remove(0))
    } else {
        Some(SymExpr::Add(flat))
    }
}

/// Product with constant folding and flattening.
#[verifier::loop_isolation(false)]
fn simplify_mul(xs: Vec<SymExpr>) -> (r: SymExpr)
    ensures
        r@ == product_term(terms_of(xs@)),
{
    let ghost all = xs@;
    let ghost ts = terms_of(all);
    let ghost mut leaves: Seq<Term> = seq![];
    let mut prod: i128 = 1;
    let mut flat: Vec<SymExpr> = Vec::new();
    proof {
        assert(ts.take(0) =~= seq![]);
    }
    for x in it: xs
        invariant
            it.seq() == all,
            leaves == mul_leaves(ts.take(it.index())),
            prod == const_product(leaves),
            terms_of(flat@) == non_consts(leaves),
            !has_zero(leaves),
    {
        let ghost i = it.index();
        let ghost start = leaves;
        proof {
            assert(ts.take(i + 1).drop_last() =~= ts.take(i));
            assert(ts[i] == x@);
        }
        match x {
            SymExpr::Mul(vs) => {
                let ghost inner = vs@;
                proof {
                    assert(mul_leaves(ts.take(i + 1)) == start + terms_of(inner));
                    assert(start =~= start + terms_of(inner).take(0));
                }
                for v in jt: vs
                    invariant
                        jt.seq() == inner,
                        leaves == start + terms_of(inner).take(jt.index()),
                        prod == const_product(leaves),
                        terms_of(flat@) == non_consts(leaves),
                        !has_zero(leaves),
                {
                    let ghost j = jt.index();
                    let ghost next = leaves.push(v@);
                    proof {
                        assert(next =~= start + terms_of(inner).take(j + 1));
                        if has_zero(next) {
                            let k = choose|k: int|
                                0 <= k < next.len() && #[trigger] next[k] == Term::Int(0);
                            assert(mul_leaves(ts.take(i + 1))[k] == Term::Int(0));
                            lemma_has_zero_prefix(ts, i + 1);
                        }
                    }
                    if !mul_leaf(&mut prod, &mut flat, v, Ghost(leaves)) {
                        return SymExpr::Int(0);
                    }
                    proof {
                        leaves = next;
                    }
                }
                proof {
                    assert(terms_of(inner).take(inner.len() as int) =~= terms_of(inner));
                }
            },
            other => {
                let ghost next = leaves.push(other@);
                proof {
                    assert(next =~= mul_leaves(ts.take(i + 1)));
                    if has_zero(next) {
                        lemma_has_zero_prefix(ts, i + 1);
                    }
                }
                if !mul_leaf(&mut prod, &mut flat, other, Ghost(leaves)) {
                    return SymExpr::Int(0);
                }
                proof {
                    leaves = next;
                }
            },
        }
    }
    proof {
        assert(ts.take(ts.len() as int) =~= ts);
    }
    if prod != 1 {
        let ghost before = flat@;
        flat.insert(0, SymExpr::Int(prod));
        proof {
            assert(terms_of(flat@) =~= seq![Term::Int(prod as int)] + terms_of(before));
        }
    }
    if flat.len() == 0 {
        SymExpr::Int(1)
    } else if flat.len() == 1 {
        flat.remove(0)
    } else {
        SymExpr::Mul(flat)
    }
}

/// Difference with constant folding; `None` when the constant leaves its range.
fn simplify_sub(a: SymExpr, b: SymExpr) -> (r: Option<SymExpr>)
    ensures
        match r {
            Some(e) => sub_fits(a@, b@) && e@ == sub_term(a@, b@),
            None => !sub_fits(a@, b@),
        },
{
    match (a, b) {
        (SymExpr::Int(x), SymExpr::Int(y)) => match x.checked_sub(y) {
            Some(v) => Some(SymExpr::Int(v)),
            None => None,
        },
        (lhs, SymExpr::Int(y)) => if y == 0 {
            Some(lhs)
        } else {
            let rhs = SymExpr::Int(y);
            Some(SymExpr::Sub(Box::new(lhs), Box::new(rhs)))
        },
        (lhs, rhs) => Some(SymExpr::Sub(Box::new(lhs), Box::new(rhs))),
    }
}

/// Euclidean quotient with constant folding; division by a constant zero stays symbolic.
fn simplify_div(a: SymExpr, b: SymExpr) -> (r: Option<SymExpr>)
    ensures
        match r {
            Some(e) => div_fits(a@, b@) && e@ == div_term(a@, b@),
            None => !div_fits(a@, b@),
        },
{
    match (a, b) {
        (SymExpr::Int(x), SymExpr::Int(y)) => {
            if y != 0 {
                match x.checked_div_euclid(y) {
                    Some(v) => Some(SymExpr::Int(v)),
                    None => None,
                }
            } else {
                proof {
                    reveal_with_fuel(term_of, 2);
                }
                Some(SymExpr::Div(Box::new(SymExpr::Int(x)), Box::new(SymExpr::Int(y))))
            }
        },
        (lhs, rhs) => Some(SymExpr::Div(Box::new(lhs), Box::new(rhs))),
    }
}

impl SymExpr {
    /// `a + b`, or `None` when folding constants would leave their range.
    pub fn try_add(a: SymExpr, b: SymExpr) -> (r: Option<SymExpr>)
        ensures
            match r {
                Some(e) => sums_fit(add_leaves(seq![a@, b@])) && e@ == sum_term(seq![a@, b@]),
                None => !sums_fit(add_leaves(seq![a@, b@])),
            },
    {
        let mut xs: Vec<SymExpr> = Vec::new();
        xs.push(a);
        xs.push(b);
        proof {
            assert(terms_of(xs@) =~= seq![a@, b@]);
        }
        simplify_add(xs)
    }

    /// `a - b`, or `None` when folding constants would leave their range.
    pub fn try_sub(a: SymExpr, b: SymExpr) -> (r: Option<SymExpr>)
        ensures
            match r {
                Some(e) => sub_fits(a@, b@) && e@ == sub_term(a@, b@),
                None => !sub_fits(a@, b@),
            },
    {
        simplify_sub(a, b)
    }

    /// `a * b`
    pub fn times(a: SymExpr, b: SymExpr) -> (r: SymExpr)
        ensures
            r@ == product_term(seq![a@, b@]),
    {
        let mut xs: Vec<SymExpr> = Vec::new();
        xs.push(a);
        xs.push(b);
        proof {
            assert(terms_of(xs@) =~= seq![a@, b@]);
        }
        simplify_mul(xs)
    }

    /// `a / b`, or `None` when folding constants would leave their range.
    pub fn try_div(a: SymExpr, b: SymExpr) -> (r: Option<SymExpr>)
        ensures
            match r {
                Some(e) => div_fits(a@, b@) && e@ == div_term(a@, b@),
                None => !div_fits(a@, b@),
            },
    {
        simplify_div(a, b)
    }
}

impl From<i64> for SymExpr {
    fn from(v: i64) -> (r: Self) {
        SymExpr::Int(v as i128)
    }
}

impl vstd::std_specs::convert::FromSpecImpl<i64> for SymExpr {
    open spec fn obeys_from_spec() -> bool {
        true
    }

    open spec fn from_spec(v: i64) -> SymExpr {
        SymExpr::Int(v as i128)
    }
}

impl From<i128> for SymExpr {
    fn from(v: i128) -> (r: Self) {
        SymExpr::Int(v)
    }
}

impl vstd::std_specs::convert::FromSpecImpl<i128> for SymExpr {
    open spec fn obeys_from_spec() -> bool {
        true
    }

    open spec fn from_spec(v: i128) -> SymExpr {
        SymExpr::Int(v)
    }
}

impl std::ops::Add for SymExpr {
    type Output = SymExpr;

    fn add(self, rhs: SymExpr) -> (r: SymExpr)
        ensures
            r@ == sum_term(seq![self@, rhs@]),
    {
        match SymExpr::try_add(self, rhs) {
            Some(e) => e,
            None => SymExpr::Int(0),
        }
    }
}

impl vstd::std_specs::ops::AddSpecImpl for SymExpr {
    open spec fn obeys_add_spec() -> bool {
        false
    }

    open spec fn add_req(self, rhs: SymExpr) -> bool {
        sums_fit(add_leaves(seq![self@, rhs@]))
    }

    open spec fn add_spec(self, rhs: SymExpr) -> SymExpr {
        self
    }
}

impl<'a> std::ops::Add<&'a SymExpr> for SymExpr {
    type Output = SymExpr;

    fn add(self, rhs: &'a SymExpr) -> (r: SymExpr)
        ensures
            r@ == sum_term(seq![self@, rhs@]),
    {
        match SymExpr::try_add(self, rhs.clone()) {
            Some(e) => e,
            None => SymExpr::Int(0),
        }
    }
}

impl<'a> vstd::std_specs::ops::AddSpecImpl<&'a SymExpr> for SymExpr {
    open spec fn obeys_add_spec() -> bool {
        false
    }

    open spec fn add_req(self, rhs: &'a SymExpr) -> bool {
        sums_fit(add_leaves(seq![self@, rhs@]))
    }

    open spec fn add_spec(self, rhs: &'a SymExpr) -> SymExpr {
        self
    }
}

impl std::ops::Sub for SymExpr {
    type Output = SymExpr;

    fn sub(self, rhs: SymExpr) -> (r: SymExpr)
        ensures
            r@ == sub_term(self@, rhs@),
    {
        match SymExpr::try_sub(self, rhs) {
            Some(e) => e,
            None => SymExpr::Int(0),
        }
    }
}

impl vstd::std_specs::ops::SubSpecImpl for SymExpr {
    open spec fn obeys_sub_spec() -> bool {
        false
    }

    open spec fn sub_req(self, rhs: SymExpr) -> bool {
        sub_fits(self@, rhs@)
    }

    open spec fn sub_spec(self, rhs: SymExpr) -> SymExpr {
        self
    }
}

impl<'a> std::ops::Sub<&'a SymExpr> for SymExpr {
    type Output = SymExpr;

    fn sub(self, rhs: &'a SymExpr) -> (r: SymExpr)
        ensures
            r@ == sub_term(self@, rhs@),
    {
        match SymExpr::try_sub(self, rhs.clone()) {
            Some(e) => e,
            None => SymExpr::Int(0),
        }
    }
}

impl<'a> vstd::std_specs::ops::SubSpecImpl<&'a SymExpr> for SymExpr {
    open spec fn obeys_sub_spec() -> bool {
        false
    }

    open spec fn sub_req(self, rhs: &'a SymExpr) -> bool {
        sub_fits(self@, rhs@)
    }

    open spec fn sub_spec(self, rhs: &'a SymExpr) -> SymExpr {
        self
    }
}

impl std::ops::Mul for SymExpr {
    type Output = SymExpr;

    fn mul(self, rhs: SymExpr) -> (r: SymExpr)
        ensures
            r@ == product_term(seq![self@, rhs@]),
    {
        SymExpr::times(self, rhs)
    }
}

impl vstd::std_specs::ops::MulSpecImpl for SymExpr {
    open spec fn obeys_mul_spec() -> bool {
        false
    }

    open spec fn mul_req(self, rhs: SymExpr) -> bool {
        true
    }

    open spec fn mul_spec(self, rhs: SymExpr) -> SymExpr {
        self
    }
}

impl<'a> std::ops::Mul<&'a SymExpr> for SymExpr {
    type Output = SymExpr;

    fn mul(self, rhs: &'a SymExpr) -> (r: SymExpr)
        ensures
            r@ == product_term(seq![self@, rhs@]),
    {
        SymExpr::times(self, rhs.clone())
    }
}

impl<'a> vstd::std_specs::ops::MulSpecImpl<&'a SymExpr> for SymExpr {
    open spec fn obeys_mul_spec() -> bool {
        false
    }

    open spec fn mul_req(self, rhs: &'a SymExpr) -> bool {
        true
    }

    open spec fn mul_spec(self, rhs: &'a SymExpr) -> SymExpr {
        self
    }
}

impl std::ops::Div for SymExpr {
    type Output = SymExpr;

    fn div(self, rhs: SymExpr) -> (r: SymExpr)
        ensures
            r@ == div_term(self@, rhs@),
    {
        match SymExpr::try_div(self, rhs) {
            Some(e) => e,
            None => SymExpr::Int(0),
        }
    }
}

impl vstd::std_specs::ops::DivSpecImpl for SymExpr {
    open spec fn obeys_div_spec() -> bool {
        false
    }

    open spec fn div_req(self, rhs: SymExpr) -> bool {
        div_fits(self@, rhs@)
    }

    open spec fn div_spec(self, rhs: SymExpr) -> SymExpr {
        self
    }
}

impl<'a> std::ops::Div<&'a SymExpr> for SymExpr {
    type Output = SymExpr;

    fn div(self, rhs: &'a SymExpr) -> (r: SymExpr)
        ensures
            r@ == div_term(self@, rhs@),
    {
        match SymExpr::try_div(self, rhs.clone()) {
            Some(e) => e,
            None => SymExpr::Int(0),
        }
    }
}

impl<'a> vstd::std_specs::ops::DivSpecImpl<&'a SymExpr> for SymExpr {
    open spec fn obeys_div_spec() -> bool {
        false
    }

    open spec fn div_req(self, rhs: &'a SymExpr) -> bool {
        div_fits(self@, rhs@)
    }

    open spec fn div_spec(self, rhs: &'a SymExpr) -> SymExpr {
        self
    }
}

} // verus!
