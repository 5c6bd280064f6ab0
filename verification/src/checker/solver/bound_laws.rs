//! Decompositions into bits: their text in a script, and what they say.

use vstd::arithmetic::div_mod::{
    lemma_add_mod_noop, lemma_mod_bound, lemma_mul_mod_noop, lemma_small_mod,
    lemma_sub_mod_noop_right,
};
use vstd::arithmetic::power2::{lemma2_to64, lemma_pow2_strictly_increases, pow2};
use vstd::prelude::*;
use crate::checker::solver::cvc5::{
    applied, applied_two, bit_condition, bit_name, field_const, gathered, offset, remainder_to,
    scaled, Cvc5V,
};
use crate::checker::solver::field::{
    each_true, field_cond_text, field_cond_texts, field_holds, field_text, field_texts,
    field_truths, is_delimiter, is_plain, one_true, plain_cond, plain_conds, plain_term,
    plain_terms, product_mod, residue, residues, sum_mod, FieldCond, FieldTerm,
};
use crate::checker::solver::order_laws::{bits_of, byte_value, bytes_value, decomposition_is_range};
use crate::checker::solver::reading_laws::residue_is_element;
use crate::checker::symbolic::expr::SymType;
use crate::text::{decimal, decimal_is_injective, decimal_round_trip, is_digit, joined};

verus! {

/// A multiple of a term.
pub open spec fn multiple(k: int, t: FieldTerm) -> FieldTerm {
    FieldTerm::Product(seq![FieldTerm::Const(k), t])
}

/// The weighted bits of byte `i`, as terms over the field.
pub open spec fn bit_terms(id: int, i: int, n: int) -> Seq<FieldTerm>
    decreases n,
{
    if n <= 0 {
        seq![]
    } else {
        bit_terms(id, i, n - 1).push(
            multiple(pow2((n - 1) as nat) as int, FieldTerm::Var(bit_name(id, i, n - 1))),
        )
    }
}

/// The weighted byte `i` of `n` bits.
pub open spec fn byte_term(id: int, i: int, n: int) -> FieldTerm {
    let sum = FieldTerm::Sum(bit_terms(id, i, n));
    if i == 0 {
        sum
    } else {
        multiple(pow2((8 * i) as nat) as int, sum)
    }
}

/// The weighted bytes from `i` on that hold the remaining bits, behind `acc`.
pub open spec fn byte_terms(id: int, i: int, remaining: int, acc: Seq<FieldTerm>) -> Seq<FieldTerm>
    decreases remaining,
{
    if remaining <= 0 || i < 0 {
        acc
    } else {
        let n = if remaining < 8 {
            remaining
        } else {
            8
        };
        byte_terms(id, i + 1, remaining - n, acc.push(byte_term(id, i, n)))
    }
}

/// The condition that a term over the field is the sum of the bytes of a decomposition.
#[verifier::opaque]
pub open spec fn decomposition(target: FieldTerm, id: int, bits: int) -> FieldCond {
    FieldCond::Same(target, FieldTerm::Sum(byte_terms(id, 0, bits, seq![])))
}

/// The bits of a decomposition under an assignment.
pub open spec fn bits_under(v: spec_fn(Seq<char>) -> int, id: int) -> spec_fn(int, int) -> int {
    |i: int, j: int| v(bit_name(id, i, j))
}

/// The name of a bit of some decomposition.
pub open spec fn names_bit(name: Seq<char>) -> bool {
    exists|id: int, i: int, j: int| name == #[trigger] bit_name(id, i, j)
}

/// Under an assignment, the bits of a decomposition of a width are zero or one.
pub open spec fn bits_ok(v: spec_fn(Seq<char>) -> int, id: int, bits: int) -> bool {
    forall|i: int, j: int|
        0 <= i && 0 <= j < 8 && 8 * i + j < bits ==> 0 <= v(#[trigger] bit_name(id, i, j)) <= 1
}

/// Under an assignment, the bits of a decomposition are the digits of a number.
pub open spec fn has_digits(v: spec_fn(Seq<char>) -> int, id: int, x: int) -> bool {
    forall|i: int, j: int|
        0 <= i < 3 && 0 <= j < 8 ==> v(#[trigger] bit_name(id, i, j)) == bits_of(x)(i, j)
}

/// Two parts behind an operator.
pub proof fn lemma_two_parts(op: Seq<char>, a: Seq<char>, b: Seq<char>)
    ensures
        applied_two(op, a, b) == gathered(op, seq![a, b]),
{
    reveal_strlit("(");
    reveal_strlit(" ");
    reveal_strlit(")");
    let parts = seq![a, b];
    assert(parts.drop_last() =~= seq![a]);
    assert(joined(seq![a], " "@) == a);
    assert(joined(parts, " "@) == a + " "@ + b);
    assert(applied_two(op, a, b) =~= applied(op, a + " "@ + b));
}

/// The texts, the residues and the names of two terms.
pub proof fn lemma_two_terms(
    a: FieldTerm,
    b: FieldTerm,
    v: spec_fn(Seq<char>) -> int,
    p: int,
)
    ensures
        field_texts(seq![a, b]) == seq![field_text(a), field_text(b)],
        residues(seq![a, b], v, p) == seq![residue(a, v, p), residue(b, v, p)],
        plain_terms(seq![a, b]) == (plain_term(a) && plain_term(b)),
        p > 0 ==> sum_mod(seq![residue(a, v, p), residue(b, v, p)], p) == (residue(a, v, p)
            + residue(b, v, p)) % p,
        p > 0 ==> product_mod(seq![residue(a, v, p), residue(b, v, p)], p) == (residue(a, v, p)
            * residue(b, v, p)) % p,
{
    let ts = seq![a, b];
    let one = seq![a];
    assert(ts.drop_last() =~= one);
    assert(one.drop_last() =~= seq![]);
    assert(field_texts(seq![]) =~= seq![]);
    assert(field_texts(one) =~= seq![field_text(a)]);
    assert(field_texts(ts) =~= seq![field_text(a), field_text(b)]);
    assert(residues(seq![], v, p) =~= seq![]);
    assert(residues(one, v, p) =~= seq![residue(a, v, p)]);
    assert(residues(ts, v, p) =~= seq![residue(a, v, p), residue(b, v, p)]);
    assert(plain_terms(seq![]));
    assert(plain_terms(one) == plain_term(a));
    if p > 0 {
        let x = residue(a, v, p);
        let xs = seq![x, residue(b, v, p)];
        residue_is_element(a, v, p);
        assert(xs.drop_last() =~= seq![x]);
        assert(seq![x].drop_last() =~= seq![]);
        lemma_small_mod(x as nat, p as nat);
        lemma_small_mod(0, p as nat);
        assert(sum_mod(seq![], p) == 0);
        assert(sum_mod(seq![x], p) == x);
        assert(product_mod(seq![], p) == 1int % p);
        if p > 1 {
            lemma_small_mod(1, p as nat);
            assert(1 * x == x);
        }
        assert(product_mod(seq![x], p) == x);
    }
}

/// The texts, the truth and the names of two conditions.
pub proof fn lemma_two_conds(
    a: FieldCond,
    b: FieldCond,
    v: spec_fn(Seq<char>) -> int,
    p: int,
)
    ensures
        field_cond_texts(seq![a, b]) == seq![field_cond_text(a), field_cond_text(b)],
        plain_conds(seq![a, b]) == (plain_cond(a) && plain_cond(b)),
        each_true(field_truths(seq![a, b], v, p)) == (field_holds(a, v, p) && field_holds(b, v, p)),
        one_true(field_truths(seq![a, b], v, p)) == (field_holds(a, v, p) || field_holds(b, v, p)),
{
    let cs = seq![a, b];
    let one = seq![a];
    assert(cs.drop_last() =~= one);
    assert(one.drop_last() =~= seq![]);
    assert(field_cond_texts(seq![]) =~= seq![]);
    assert(field_cond_texts(one) =~= seq![field_cond_text(a)]);
    assert(field_cond_texts(cs) =~= seq![field_cond_text(a), field_cond_text(b)]);
    assert(plain_conds(seq![]));
    assert(plain_conds(one) == plain_cond(a));
    assert(field_truths(seq![], v, p) =~= seq![]);
    assert(field_truths(one, v, p) =~= seq![field_holds(a, v, p)]);
    let bs = field_truths(cs, v, p);
    assert(bs =~= seq![field_holds(a, v, p), field_holds(b, v, p)]);
    assert(bs[0] == field_holds(a, v, p) && bs[1] == field_holds(b, v, p));
}

proof fn lemma_multiple(k: int, t: FieldTerm, v: spec_fn(Seq<char>) -> int, y: int, p: int)
    requires
        p > 0,
        residue(t, v, p) == y % p,
    ensures
        field_text(multiple(k, t)) == scaled(k, field_text(t)),
        residue(multiple(k, t), v, p) == (k * y) % p,
        plain_term(multiple(k, t)) == plain_term(t),
{
    let c = FieldTerm::Const(k);
    lemma_two_terms(c, t, v, p);
    lemma_two_parts("ff.mul"@, field_const(k), field_text(t));
    assert(field_text(c) == field_const(k));
    assert(residue(c, v, p) == k % p);
    assert(plain_term(c));
    lemma_mul_mod_noop(k, y, p);
}

/// The name of a bit is plain.
pub proof fn lemma_bit_name_plain(id: int, i: int, j: int)
    ensures
        is_plain(bit_name(id, i, j)),
{
    reveal_strlit("__range_b");
    reveal_strlit("_");
    let a = decimal(id as nat);
    let b = decimal(i as nat);
    let c = decimal(j as nat);
    decimal_round_trip(id as nat);
    decimal_round_trip(i as nat);
    decimal_round_trip(j as nat);
    let s = bit_name(id, i, j);
    let n = a.len() as int;
    let m = b.len() as int;
    assert forall|k: int| 0 <= k < s.len() implies !is_delimiter(#[trigger] s[k]) by {
        if 9 <= k < 9 + n {
            assert(is_digit(a[k - 9]));
            assert(s[k] == a[k - 9]);
        } else if 10 + n <= k < 10 + n + m {
            assert(is_digit(b[k - 10 - n]));
            assert(s[k] == b[k - 10 - n]);
        } else if 11 + n + m <= k {
            assert(is_digit(c[k - 11 - n - m]));
            assert(s[k] == c[k - 11 - n - m]);
        }
    }
}

proof fn lemma_texts_push(ts: Seq<FieldTerm>, t: FieldTerm)
    ensures
        field_texts(ts.push(t)) == field_texts(ts).push(field_text(t)),
{
    assert(ts.push(t).drop_last() =~= ts);
}

proof fn lemma_texts_length(ts: Seq<FieldTerm>)
    ensures
        field_texts(ts).len() == ts.len(),
    decreases ts.len(),
{
    if ts.len() > 0 {
        lemma_texts_length(ts.drop_last());
    }
}

proof fn lemma_bit_term(id: int, i: int, j: int)
    ensures
        field_text(multiple(pow2(j as nat) as int, FieldTerm::Var(bit_name(id, i, j)))) == scaled(
            pow2(j as nat) as int,
            bit_name(id, i, j),
        ),
        plain_term(multiple(pow2(j as nat) as int, FieldTerm::Var(bit_name(id, i, j)))),
{
    let var = FieldTerm::Var(bit_name(id, i, j));
    let v = |name: Seq<char>| 0int;
    lemma_multiple(pow2(j as nat) as int, var, v, 0, 1);
    lemma_bit_name_plain(id, i, j);
    assert(field_text(var) == bit_name(id, i, j));
}

proof fn lemma_bits_text(c: Cvc5V, id: int, i: int, j: int, n: int)
    requires
        0 <= j <= n,
        c.bits_from(id, i, j, n, field_texts(bit_terms(id, i, j))) is Ok,
    ensures
        c.bits_from(id, i, j, n, field_texts(bit_terms(id, i, j)))->Ok_0.0 == field_texts(
            bit_terms(id, i, n),
        ),
    decreases n - j,
{
    if j < n {
        let name = bit_name(id, i, j);
        let w = pow2(j as nat) as int;
        let t = multiple(w, FieldTerm::Var(name));
        lemma_bit_term(id, i, j);
        lemma_texts_push(bit_terms(id, i, j), t);
        assert(bit_terms(id, i, j + 1) == bit_terms(id, i, j).push(t));
        let c1 = c.ensured(name, SymType::Bool)->Ok_0;
        lemma_bits_text(c1, id, i, j + 1, n);
    }
}

proof fn lemma_bits_shape(id: int, i: int, n: int)
    requires
        0 <= n,
    ensures
        bit_terms(id, i, n).len() == n,
        plain_terms(bit_terms(id, i, n)),
    decreases n,
{
    if n > 0 {
        lemma_bits_shape(id, i, n - 1);
        lemma_bit_term(id, i, n - 1);
        let ts = bit_terms(id, i, n);
        assert(ts.drop_last() =~= bit_terms(id, i, n - 1));
    }
}

proof fn lemma_sum_text(ts: Seq<FieldTerm>)
    requires
        ts.len() > 0,
    ensures
        field_text(FieldTerm::Sum(ts)) == gathered("ff.add"@, field_texts(ts)),
{
}

proof fn lemma_bytes_text(c: Cvc5V, id: int, i: int, remaining: int, acc: Seq<FieldTerm>)
    requires
        0 <= i,
        c.bytes_from(id, i, remaining, field_texts(acc)) is Ok,
    ensures
        c.bytes_from(id, i, remaining, field_texts(acc))->Ok_0.0 == field_texts(
            byte_terms(id, i, remaining, acc),
        ),
        plain_terms(acc) ==> plain_terms(byte_terms(id, i, remaining, acc)),
        remaining > 0 || acc.len() > 0 ==> byte_terms(id, i, remaining, acc).len() > 0,
    decreases remaining,
{
    if remaining > 0 {
        let n = if remaining < 8 {
            remaining
        } else {
            8
        };
        assert(bit_terms(id, i, 0) =~= seq![]);
        assert(field_texts(bit_terms(id, i, 0)) =~= seq![]);
        lemma_bits_text(c, id, i, 0, n);
        lemma_bits_shape(id, i, n);
        let (bits, c1) = c.bits_from(id, i, 0, n, seq![])->Ok_0;
        let ts = bit_terms(id, i, n);
        let sum = FieldTerm::Sum(ts);
        lemma_sum_text(ts);
        let part = byte_term(id, i, n);
        let v = |name: Seq<char>| 0int;
        lemma_multiple(pow2((8 * i) as nat) as int, sum, v, 0, 1);
        assert(plain_term(part));
        assert(acc.push(part).drop_last() =~= acc);
        lemma_texts_push(acc, part);
        lemma_bytes_text(c1, id, i + 1, remaining - n, acc.push(part));
    }
}

/// The text of a decomposition.
pub proof fn lemma_decomposed_text(c: Cvc5V, target: FieldTerm, bits: usize)
    requires
        bits > 0,
        c.decomposed(field_text(target), bits) is Ok,
    ensures
        c.decomposed(field_text(target), bits)->Ok_0.0 == field_cond_text(
            decomposition(target, c.fresh as int, bits as int),
        ),
        plain_term(target) ==> plain_cond(decomposition(target, c.fresh as int, bits as int)),
{
    reveal(decomposition);
    let c1 = Cvc5V {
        hints: c.hints.insert(field_text(target), bits),
        fresh: (c.fresh + 1) as usize,
        ..c
    };
    assert(field_texts(seq![]) =~= seq![]);
    lemma_bytes_text(c1, c.fresh as int, 0, bits as int, seq![]);
    let ts = byte_terms(c.fresh as int, 0, bits as int, seq![]);
    lemma_sum_text(ts);
    let sum = FieldTerm::Sum(ts);
    lemma_two_parts("="@, field_text(target), field_text(sum));
    assert(plain_terms(ts));
    assert(plain_term(sum));
    assert(plain_cond(FieldCond::Same(target, sum)) == (plain_term(target) && plain_term(sum)));
}

proof fn lemma_bits_residue(v: spec_fn(Seq<char>) -> int, id: int, i: int, n: int, p: int)
    requires
        p > 0,
        0 <= n,
    ensures
        sum_mod(residues(bit_terms(id, i, n), v, p), p) == byte_value(bits_under(v, id), i, n) % p,
    decreases n,
{
    if n > 0 {
        lemma_bits_residue(v, id, i, n - 1, p);
        let w = pow2((n - 1) as nat) as int;
        let name = bit_name(id, i, n - 1);
        let var = FieldTerm::Var(name);
        let t = multiple(w, var);
        let ts = bit_terms(id, i, n);
        assert(ts.drop_last() =~= bit_terms(id, i, n - 1));
        assert(ts.last() == t);
        assert(residue(var, v, p) == v(name) % p);
        lemma_multiple(w, var, v, v(name), p);
        let xs = residues(ts, v, p);
        assert(xs.drop_last() =~= residues(bit_terms(id, i, n - 1), v, p));
        lemma_add_mod_noop(byte_value(bits_under(v, id), i, n - 1), w * v(name), p);
    }
}

proof fn lemma_bytes_residue(
    v: spec_fn(Seq<char>) -> int,
    id: int,
    i: int,
    remaining: int,
    acc: Seq<FieldTerm>,
    total: int,
    p: int,
)
    requires
        p > 0,
        0 <= i,
        sum_mod(residues(acc, v, p), p) == total % p,
    ensures
        sum_mod(residues(byte_terms(id, i, remaining, acc), v, p), p) == (total + bytes_value(
            bits_under(v, id),
            i,
            remaining,
        )) % p,
    decreases remaining,
{
    if remaining > 0 {
        let n = if remaining < 8 {
            remaining
        } else {
            8
        };
        lemma_bits_residue(v, id, i, n, p);
        let b = byte_value(bits_under(v, id), i, n);
        let w = pow2((8 * i) as nat) as int;
        let sum = FieldTerm::Sum(bit_terms(id, i, n));
        let part = byte_term(id, i, n);
        assert(residue(sum, v, p) == b % p);
        if i == 0 {
            lemma2_to64();
            assert(w * b == b);
        } else {
            lemma_multiple(w, sum, v, b, p);
        }
        assert(residue(part, v, p) == (w * b) % p);
        let next = acc.push(part);
        assert(next.drop_last() =~= acc);
        let xs = residues(next, v, p);
        assert(xs.drop_last() =~= residues(acc, v, p));
        lemma_add_mod_noop(total, w * b, p);
        lemma_bytes_residue(v, id, i + 1, remaining - n, next, total + w * b, p);
    }
}

/// A decomposition holds where the target is the number that the bits make.
proof fn lemma_decomposition_holds(
    v: spec_fn(Seq<char>) -> int,
    target: FieldTerm,
    id: int,
    bits: int,
    p: int,
)
    requires
        p > 0,
    ensures
        field_holds(decomposition(target, id, bits), v, p) == (residue(target, v, p)
            == bytes_value(bits_under(v, id), 0, bits) % p),
{
    reveal(decomposition);
    assert(residues(seq![], v, p) =~= seq![]);
    lemma_bytes_residue(v, id, 0, bits, seq![], 0, p);
    let sum = FieldTerm::Sum(byte_terms(id, 0, bits, seq![]));
    assert(residue(sum, v, p) == bytes_value(bits_under(v, id), 0, bits) % p);
    assert(field_holds(FieldCond::Same(target, sum), v, p) == (residue(target, v, p) == residue(
        sum,
        v,
        p,
    )));
}

proof fn lemma_single_digit(n: int)
    requires
        0 <= n < 10,
    ensures
        decimal(n as nat).len() == 1,
{
}

/// Bits with different numbers or places have different names.
pub proof fn lemma_bit_names(id1: int, i1: int, j1: int, id2: int, i2: int, j2: int)
    requires
        0 <= id1,
        0 <= id2,
        0 <= i1 < 10,
        0 <= j1 < 10,
        0 <= i2 < 10,
        0 <= j2 < 10,
        bit_name(id1, i1, j1) == bit_name(id2, i2, j2),
    ensures
        id1 == id2 && i1 == i2 && j1 == j2,
{
    reveal_strlit("__range_b");
    reveal_strlit("_");
    lemma_single_digit(i1);
    lemma_single_digit(j1);
    lemma_single_digit(i2);
    lemma_single_digit(j2);
    let a = bit_name(id1, i1, j1);
    let b = bit_name(id2, i2, j2);
    let d1 = decimal(id1 as nat);
    let d2 = decimal(id2 as nat);
    assert(a.len() == d1.len() + 13);
    assert(b.len() == d2.len() + 13);
    let n = d1.len() as int;
    assert(a.subrange(9, 9 + n) =~= d1);
    assert(b.subrange(9, 9 + n) =~= d2);
    assert(a.subrange(10 + n, 11 + n) =~= decimal(i1 as nat));
    assert(b.subrange(10 + n, 11 + n) =~= decimal(i2 as nat));
    assert(a.subrange(12 + n, 13 + n) =~= decimal(j1 as nat));
    assert(b.subrange(12 + n, 13 + n) =~= decimal(j2 as nat));
    decimal_is_injective(id1 as nat, id2 as nat);
    decimal_is_injective(i1 as nat, i2 as nat);
    decimal_is_injective(j1 as nat, j2 as nat);
}

proof fn lemma_same_byte(
    a: spec_fn(int, int) -> int,
    b: spec_fn(int, int) -> int,
    i: int,
    n: int,
    top: int,
)
    requires
        0 <= i < 3,
        n <= 8,
        8 * i + n <= top,
        forall|k: int, j: int|
            0 <= k < 3 && 0 <= j < 8 && 8 * k + j < top ==> #[trigger] a(k, j) == b(k, j),
    ensures
        byte_value(a, i, n) == byte_value(b, i, n),
    decreases n,
{
    if n > 0 {
        lemma_same_byte(a, b, i, n - 1, top);
        assert(a(i, n - 1) == b(i, n - 1));
    }
}

proof fn lemma_same_bytes(
    a: spec_fn(int, int) -> int,
    b: spec_fn(int, int) -> int,
    i: int,
    remaining: int,
    top: int,
)
    requires
        0 <= i,
        remaining > 0 ==> 8 * i + remaining <= top,
        top <= 24,
        forall|k: int, j: int|
            0 <= k < 3 && 0 <= j < 8 && 8 * k + j < top ==> #[trigger] a(k, j) == b(k, j),
    ensures
        bytes_value(a, i, remaining) == bytes_value(b, i, remaining),
    decreases remaining,
{
    if remaining > 0 {
        let n = if remaining < 8 {
            remaining
        } else {
            8
        };
        lemma_same_byte(a, b, i, n, top);
        lemma_same_bytes(a, b, i + 1, remaining - n, top);
    }
}

/// Where a decomposition holds, and its bits are zero or one, its target is a number of the width.
pub proof fn decomposition_bounds_target(
    v: spec_fn(Seq<char>) -> int,
    target: FieldTerm,
    id: int,
    bits: int,
    p: int,
)
    requires
        0 <= bits <= 24,
        pow2(24) <= p,
        bits_ok(v, id, bits),
        field_holds(decomposition(target, id, bits), v, p),
    ensures
        residue(target, v, p) < pow2(bits as nat),
{
    lemma2_to64();
    lemma_decomposition_holds(v, target, id, bits, p);
    let a = bits_under(v, id);
    let b = |i: int, j: int|
        if 0 <= i && 0 <= j < 8 && 8 * i + j < bits {
            v(bit_name(id, i, j))
        } else {
            0int
        };
    assert forall|i: int, j: int| 0 <= #[trigger] b(i, j) <= 1 by {}
    lemma_same_bytes(a, b, 0, bits, bits);
    decomposition_is_range(b, 0, bits);
    if bits < 24 {
        lemma_pow2_strictly_increases(bits as nat, 24);
    }
    lemma_small_mod(bytes_value(a, 0, bits) as nat, p as nat);
}

/// With the digits of its target, a decomposition holds exactly where the target is a number of the
/// width.
pub proof fn digits_decide_decomposition(
    v: spec_fn(Seq<char>) -> int,
    target: FieldTerm,
    id: int,
    bits: int,
    p: int,
)
    requires
        0 <= bits <= 24,
        pow2(24) <= p,
        has_digits(v, id, residue(target, v, p)),
    ensures
        field_holds(decomposition(target, id, bits), v, p) <==> residue(target, v, p) < pow2(
            bits as nat,
        ),
{
    lemma2_to64();
    let x = residue(target, v, p);
    residue_is_element(target, v, p);
    assert(bits_ok(v, id, bits)) by {
        assert forall|i: int, j: int| 0 <= i && 0 <= j < 8 && 8 * i + j < bits implies 0 <= v(
            #[trigger] bit_name(id, i, j),
        ) <= 1 by {
            lemma_mod_bound(x / (pow2((8 * i + j) as nat) as int), 2);
        }
    }
    if field_holds(decomposition(target, id, bits), v, p) {
        decomposition_bounds_target(v, target, id, bits, p);
    }
    if x < pow2(bits as nat) {
        lemma_decomposition_holds(v, target, id, bits, p);
        assert forall|k: int, j: int|
            0 <= k < 3 && 0 <= j < 8 && 8 * k + j < bits implies #[trigger] bits_under(v, id)(k, j)
            == bits_of(x)(k, j) by {
            assert(v(bit_name(id, k, j)) == bits_of(x)(k, j));
        }
        lemma_same_bytes(bits_under(v, id), bits_of(x), 0, bits, bits);
        decomposition_is_range(bits_of(x), x, bits);
        lemma_small_mod(x as nat, p as nat);
    }
}

/// A field term that is a given distance above `start`.
#[verifier::opaque]
pub open spec fn shifted(t: FieldTerm, start: Option<int>) -> FieldTerm {
    match start {
        None => t,
        Some(k) => FieldTerm::Sum(seq![t, FieldTerm::Neg(Box::new(FieldTerm::Const(k)))]),
    }
}

/// The distance of a field term from a bound.
#[verifier::opaque]
pub open spec fn below(t: FieldTerm, bound: int) -> FieldTerm {
    FieldTerm::Sum(seq![FieldTerm::Const(bound), FieldTerm::Neg(Box::new(t))])
}

/// The start of a range.
pub open spec fn start_of(start: Option<int>) -> int {
    match start {
        None => 0,
        Some(k) => k,
    }
}

proof fn lemma_minus(t: FieldTerm, y: int, v: spec_fn(Seq<char>) -> int, p: int)
    requires
        p > 0,
        residue(t, v, p) == y % p,
    ensures
        residue(FieldTerm::Neg(Box::new(t)), v, p) == (-y) % p,
{
    let minus = FieldTerm::Neg(Box::new(t));
    lemma_sub_mod_noop_right(0, y, p);
    assert(residue(minus, v, p) == (-residue(t, v, p)) % p);
}

/// The text, the residue and the names of the distance from a start.
pub proof fn lemma_shifted(
    t: FieldTerm,
    start: Option<int>,
    y: int,
    v: spec_fn(Seq<char>) -> int,
    p: int,
)
    ensures
        field_text(shifted(t, start)) == match start {
            None => field_text(t),
            Some(k) => offset(field_text(t), k),
        },
        plain_term(t) ==> plain_term(shifted(t, start)),
        p > 0 && residue(t, v, p) == y % p ==> residue(shifted(t, start), v, p) == (y - start_of(
            start,
        )) % p,
{
    reveal(shifted);
    if let Some(k) = start {
        let c = FieldTerm::Const(k);
        let minus = FieldTerm::Neg(Box::new(c));
        assert(field_text(c) == field_const(k));
        assert(field_text(minus) == applied("ff.neg"@, field_const(k)));
        assert(plain_term(c));
        assert(plain_term(minus));
        lemma_two_terms(t, minus, v, p);
        lemma_two_parts("ff.add"@, field_text(t), field_text(minus));
        if p > 0 && residue(t, v, p) == y % p {
            assert(residue(c, v, p) == k % p);
            lemma_minus(c, k, v, p);
            lemma_add_mod_noop(y, -k, p);
        }
    }
}

/// The text, the residue and the names of the distance from a bound.
pub proof fn lemma_below(
    t: FieldTerm,
    bound: int,
    y: int,
    v: spec_fn(Seq<char>) -> int,
    p: int,
)
    ensures
        field_text(below(t, bound)) == remainder_to(bound, field_text(t)),
        plain_term(t) ==> plain_term(below(t, bound)),
        p > 0 && residue(t, v, p) == y % p ==> residue(below(t, bound), v, p) == (bound - y) % p,
{
    reveal(below);
    let c = FieldTerm::Const(bound);
    let minus = FieldTerm::Neg(Box::new(t));
    assert(field_text(c) == field_const(bound));
    assert(field_text(minus) == applied("ff.neg"@, field_text(t)));
    assert(plain_term(c));
    assert(plain_term(minus) == plain_term(t));
    lemma_two_terms(c, minus, v, p);
    lemma_two_parts("ff.add"@, field_text(c), field_text(minus));
    if p > 0 && residue(t, v, p) == y % p {
        assert(residue(c, v, p) == bound % p);
        lemma_minus(t, y, v, p);
        lemma_add_mod_noop(bound, -y, p);
    }
}

/// The text and the names of a difference.
pub proof fn lemma_difference_text(x: FieldTerm, y: FieldTerm)
    ensures
        field_text(FieldTerm::Sum(seq![x, FieldTerm::Neg(Box::new(y))])) == applied_two(
            "ff.add"@,
            field_text(x),
            applied("ff.neg"@, field_text(y)),
        ),
        plain_term(FieldTerm::Sum(seq![x, FieldTerm::Neg(Box::new(y))])) == (plain_term(x)
            && plain_term(y)),
{
    let any = |name: Seq<char>| 0int;
    let minus = FieldTerm::Neg(Box::new(y));
    assert(field_text(minus) == applied("ff.neg"@, field_text(y)));
    assert(plain_term(minus) == plain_term(y));
    lemma_two_terms(x, minus, any, 1);
    lemma_two_parts("ff.add"@, field_text(x), field_text(minus));
}

/// The text and the names of a quotient.
pub proof fn lemma_quotient_text(x: FieldTerm, y: FieldTerm)
    ensures
        field_text(FieldTerm::Product(seq![x, FieldTerm::Inv(Box::new(y))])) == applied_two(
            "ff.mul"@,
            field_text(x),
            applied("ff.inv"@, field_text(y)),
        ),
        plain_term(FieldTerm::Product(seq![x, FieldTerm::Inv(Box::new(y))])) == (plain_term(x)
            && plain_term(y)),
{
    let any = |name: Seq<char>| 0int;
    let inv = FieldTerm::Inv(Box::new(y));
    assert(field_text(inv) == applied("ff.inv"@, field_text(y)));
    assert(plain_term(inv) == plain_term(y));
    lemma_two_terms(x, inv, any, 1);
    lemma_two_parts("ff.mul"@, field_text(x), field_text(inv));
}

/// The text and the names of an equality and of its negation.
pub proof fn lemma_same_text(x: FieldTerm, y: FieldTerm)
    ensures
        field_cond_text(FieldCond::Same(x, y)) == applied_two("="@, field_text(x), field_text(y)),
        plain_cond(FieldCond::Same(x, y)) == (plain_term(x) && plain_term(y)),
        field_cond_text(FieldCond::Not(Box::new(FieldCond::Same(x, y)))) == applied(
            "not"@,
            applied_two("="@, field_text(x), field_text(y)),
        ),
        plain_cond(FieldCond::Not(Box::new(FieldCond::Same(x, y)))) == (plain_term(x)
            && plain_term(y)),
{
    lemma_two_parts("="@, field_text(x), field_text(y));
    let same = FieldCond::Same(x, y);
    assert(field_cond_text(same) == applied_two("="@, field_text(x), field_text(y)));
    assert(plain_cond(same) == (plain_term(x) && plain_term(y)));
}

/// The text and the names of two conditions that both hold.
pub proof fn lemma_both_text(x: FieldCond, y: FieldCond)
    ensures
        field_cond_text(FieldCond::All(seq![x, y])) == applied_two(
            "and"@,
            field_cond_text(x),
            field_cond_text(y),
        ),
        plain_cond(FieldCond::All(seq![x, y])) == (plain_cond(x) && plain_cond(y)),
{
    let any = |name: Seq<char>| 0int;
    lemma_two_conds(x, y, any, 1);
    lemma_two_parts("and"@, field_cond_text(x), field_cond_text(y));
}

/// The condition that a variable is zero or one.
pub open spec fn bit_cond(name: Seq<char>) -> FieldCond {
    FieldCond::Any(
        seq![
            FieldCond::Same(FieldTerm::Var(name), FieldTerm::Const(0)),
            FieldCond::Same(FieldTerm::Var(name), FieldTerm::Const(1)),
        ],
    )
}

/// The text, the meaning and the names of the condition that a variable is zero or one.
pub proof fn lemma_bit_cond(name: Seq<char>, v: spec_fn(Seq<char>) -> int, p: int)
    ensures
        field_cond_text(bit_cond(name)) == bit_condition(name),
        plain_cond(bit_cond(name)) == is_plain(name),
        p > 1 ==> field_holds(bit_cond(name), v, p) == (v(name) % p == 0 || v(name) % p == 1),
{
    reveal_strlit("(or (= ");
    reveal_strlit(" (as ff0 F)) (= ");
    reveal_strlit(" (as ff1 F)))");
    reveal_strlit("(as ff");
    reveal_strlit(" F)");
    reveal_strlit("(");
    reveal_strlit(" ");
    reveal_strlit(")");
    reveal_strlit("or");
    reveal_strlit("=");
    let var = FieldTerm::Var(name);
    let zero = FieldTerm::Const(0);
    let one = FieldTerm::Const(1);
    let a = FieldCond::Same(var, zero);
    let b = FieldCond::Same(var, one);
    assert(field_text(var) == name);
    assert(field_text(zero) == field_const(0));
    assert(field_text(one) == field_const(1));
    assert(decimal(0) =~= seq!['0']);
    assert(decimal(1) =~= seq!['1']);
    lemma_two_parts("="@, name, field_const(0));
    lemma_two_parts("="@, name, field_const(1));
    assert(field_cond_text(a) == applied_two("="@, name, field_const(0)));
    assert(field_cond_text(b) == applied_two("="@, name, field_const(1)));
    lemma_two_conds(a, b, v, p);
    lemma_two_parts("or"@, field_cond_text(a), field_cond_text(b));
    assert(field_cond_text(bit_cond(name)) == applied_two(
        "or"@,
        field_cond_text(a),
        field_cond_text(b),
    ));
    assert(applied_two("or"@, field_cond_text(a), field_cond_text(b)) =~= bit_condition(name));
    assert(plain_term(var) == is_plain(name));
    assert(plain_term(zero) && plain_term(one));
    assert(plain_cond(a) == is_plain(name));
    assert(plain_cond(b) == is_plain(name));
    if p > 1 {
        lemma_small_mod(0, p as nat);
        lemma_small_mod(1, p as nat);
        assert(residue(var, v, p) == v(name) % p);
        assert(residue(zero, v, p) == 0);
        assert(residue(one, v, p) == 1);
        assert(field_holds(a, v, p) == (v(name) % p == 0));
        assert(field_holds(b, v, p) == (v(name) % p == 1));
    }
}

} // verus!
