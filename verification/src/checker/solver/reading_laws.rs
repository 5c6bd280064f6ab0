//! The text of a term or a condition over the field says what it means.
//!
//! A text can be read back: two terms with the same text stand for the same residue, and two
//! conditions with the same text are both true or both false.

use vstd::arithmetic::div_mod::lemma_small_mod;
use vstd::prelude::*;
use crate::checker::solver::cvc5::{applied, conditional, field_const};
use crate::checker::solver::field::{
    each_true, field_cond_text, field_cond_texts, field_holds, field_text, field_texts,
    field_truths, inverse, is_delimiter, is_plain, one_true, plain_cond, plain_conds, plain_term,
    plain_terms, product_mod, residue, residues, sum_mod, FieldCond, FieldTerm,
};
use crate::text::{decimal, decimal_int, decimal_is_injective, decimal_round_trip, is_digit, joined};

verus! {

/// What follows the first `n` characters.
spec fn after(s: Seq<char>, n: nat) -> Seq<char> {
    if n <= s.len() {
        s.subrange(n as int, s.len() as int)
    } else {
        seq![]
    }
}

/// The characters up to the first that ends a name.
spec fn word(s: Seq<char>) -> Seq<char>
    decreases s.len(),
{
    if s.len() == 0 || is_delimiter(s[0]) {
        seq![]
    } else {
        seq![s[0]] + word(s.subrange(1, s.len() as int))
    }
}

/// The constant that a word stands for.
spec fn const_named(w: Seq<char>) -> int {
    choose|k: int| w == "ff"@ + #[trigger] decimal_int(k)
}

/// The residue that the term at the start of a text stands for, and what follows it.
#[verifier::opaque]
spec fn read_term(s: Seq<char>, v: spec_fn(Seq<char>) -> int, p: int) -> (int, Seq<char>)
    decreases s.len(), 0int,
{
    if s.len() > 0 && s[0] == '(' {
        let op = word(after(s, 1));
        let r = after(after(s, 1), op.len() + 1);
        if op == "as"@ {
            let w = word(r);
            (const_named(w) % p, after(r, w.len() + 3))
        } else if op == "ff.neg"@ {
            let (x, r1) = read_term(r, v, p);
            ((-x) % p, after(r1, 1))
        } else if op == "ff.inv"@ {
            let (x, r1) = read_term(r, v, p);
            (inverse(x, p), after(r1, 1))
        } else if op == "ff.add"@ {
            let (xs, r1) = read_terms(r, seq![], v, p);
            (sum_mod(xs, p), after(r1, 1))
        } else if op == "ff.mul"@ {
            let (xs, r1) = read_terms(r, seq![], v, p);
            (product_mod(xs, p), after(r1, 1))
        } else {
            let (b, r1) = read_cond(r, v, p);
            let r2 = after(r1, 1);
            if r2.len() >= s.len() {
                (0, s)
            } else {
                let (x, r3) = read_term(r2, v, p);
                let r4 = after(r3, 1);
                if r4.len() >= s.len() {
                    (0, s)
                } else {
                    let (y, r5) = read_term(r4, v, p);
                    (
                        if b {
                            x
                        } else {
                            y
                        },
                        after(r5, 1),
                    )
                }
            }
        }
    } else {
        (v(word(s)) % p, after(s, word(s).len()))
    }
}

/// The residues that the terms at the start of a text stand for, behind `acc`, and what follows
/// them.
#[verifier::opaque]
spec fn read_terms(
    s: Seq<char>,
    acc: Seq<int>,
    v: spec_fn(Seq<char>) -> int,
    p: int,
) -> (Seq<int>, Seq<char>)
    decreases s.len(), 1int,
{
    let (x, r) = read_term(s, v, p);
    if r.len() > 0 && r[0] == ' ' && r.len() <= s.len() {
        read_terms(after(r, 1), acc.push(x), v, p)
    } else {
        (acc.push(x), r)
    }
}

/// The truth of the condition at the start of a text, and what follows it.
#[verifier::opaque]
spec fn read_cond(s: Seq<char>, v: spec_fn(Seq<char>) -> int, p: int) -> (bool, Seq<char>)
    decreases s.len(), 0int,
{
    if s.len() > 0 && s[0] == '(' {
        let op = word(after(s, 1));
        let r = after(after(s, 1), op.len() + 1);
        if op == "not"@ {
            let (b, r1) = read_cond(r, v, p);
            (!b, after(r1, 1))
        } else if op == "and"@ {
            let (bs, r1) = read_conds(r, seq![], v, p);
            (each_true(bs), after(r1, 1))
        } else if op == "or"@ {
            let (bs, r1) = read_conds(r, seq![], v, p);
            (one_true(bs), after(r1, 1))
        } else {
            let (x, r1) = read_term(r, v, p);
            let r2 = after(r1, 1);
            if r2.len() >= s.len() {
                (false, s)
            } else {
                let (y, r3) = read_term(r2, v, p);
                (x == y, after(r3, 1))
            }
        }
    } else {
        (word(s) == "true"@, after(s, word(s).len()))
    }
}

/// The truth of the conditions at the start of a text, behind `acc`, and what follows them.
#[verifier::opaque]
spec fn read_conds(
    s: Seq<char>,
    acc: Seq<bool>,
    v: spec_fn(Seq<char>) -> int,
    p: int,
) -> (Seq<bool>, Seq<char>)
    decreases s.len(), 1int,
{
    let (b, r) = read_cond(s, v, p);
    if r.len() > 0 && r[0] == ' ' && r.len() <= s.len() {
        read_conds(after(r, 1), acc.push(b), v, p)
    } else {
        (acc.push(b), r)
    }
}

/// A text that can follow a name.
spec fn ends_name(rest: Seq<char>) -> bool {
    rest.len() == 0 || is_delimiter(rest[0])
}

proof fn lemma_word(w: Seq<char>, rest: Seq<char>)
    requires
        forall|i: int| 0 <= i < w.len() ==> !is_delimiter(#[trigger] w[i]),
        ends_name(rest),
    ensures
        word(w + rest) == w,
    decreases w.len(),
{
    let s = w + rest;
    if w.len() == 0 {
        assert(s =~= rest);
        assert(word(s) =~= w);
    } else {
        let tail = w.subrange(1, w.len() as int);
        assert forall|i: int| 0 <= i < tail.len() implies !is_delimiter(#[trigger] tail[i]) by {
            assert(tail[i] == w[i + 1]);
        }
        lemma_word(tail, rest);
        assert(s.subrange(1, s.len() as int) =~= tail + rest);
        assert(s[0] == w[0]);
        assert(word(s) =~= w);
    }
}

/// The start of an application: its operator and its body.
proof fn lemma_open(op: Seq<char>, a: Seq<char>, rest: Seq<char>)
    requires
        forall|i: int| 0 <= i < op.len() ==> !is_delimiter(#[trigger] op[i]),
    ensures
        (applied(op, a) + rest).len() > 0,
        (applied(op, a) + rest)[0] == '(',
        word(after(applied(op, a) + rest, 1)) == op,
        after(after(applied(op, a) + rest, 1), op.len() + 1) == a + (seq![')'] + rest),
{
    reveal_strlit("(");
    reveal_strlit(" ");
    reveal_strlit(")");
    let s = applied(op, a) + rest;
    let body = a + (seq![')'] + rest);
    let tail = seq![' '] + body;
    assert(after(s, 1) =~= op + tail);
    lemma_word(op, tail);
    assert(after(op + tail, op.len() + 1) =~= body);
}

proof fn lemma_ops()
    ensures
        forall|i: int| 0 <= i < "as"@.len() ==> !is_delimiter(#[trigger] "as"@[i]),
        forall|i: int| 0 <= i < "ff.neg"@.len() ==> !is_delimiter(#[trigger] "ff.neg"@[i]),
        forall|i: int| 0 <= i < "ff.inv"@.len() ==> !is_delimiter(#[trigger] "ff.inv"@[i]),
        forall|i: int| 0 <= i < "ff.add"@.len() ==> !is_delimiter(#[trigger] "ff.add"@[i]),
        forall|i: int| 0 <= i < "ff.mul"@.len() ==> !is_delimiter(#[trigger] "ff.mul"@[i]),
        forall|i: int| 0 <= i < "ite"@.len() ==> !is_delimiter(#[trigger] "ite"@[i]),
        "as"@ != "ff.neg"@ && "as"@ != "ff.inv"@ && "as"@ != "ff.add"@ && "as"@ != "ff.mul"@,
        "ff.neg"@ != "ff.inv"@ && "ff.neg"@ != "ff.add"@ && "ff.neg"@ != "ff.mul"@,
        "ff.inv"@ != "ff.add"@ && "ff.inv"@ != "ff.mul"@ && "ff.add"@ != "ff.mul"@,
        "ite"@ != "as"@ && "ite"@ != "ff.neg"@ && "ite"@ != "ff.inv"@ && "ite"@ != "ff.add"@
            && "ite"@ != "ff.mul"@,
{
    reveal_strlit("as");
    reveal_strlit("ff.neg");
    reveal_strlit("ff.inv");
    reveal_strlit("ff.add");
    reveal_strlit("ff.mul");
    reveal_strlit("ite");
    assert("ff.neg"@[3] == 'n' && "ff.inv"@[3] == 'i');
    assert("ff.add"@[3] == 'a' && "ff.mul"@[3] == 'm');
    assert("as"@.len() == 2 && "ite"@.len() == 3 && "ff.neg"@.len() == 6 && "ff.inv"@.len() == 6
        && "ff.add"@.len() == 6 && "ff.mul"@.len() == 6);
}

proof fn lemma_cond_ops()
    ensures
        forall|i: int| 0 <= i < "not"@.len() ==> !is_delimiter(#[trigger] "not"@[i]),
        forall|i: int| 0 <= i < "and"@.len() ==> !is_delimiter(#[trigger] "and"@[i]),
        forall|i: int| 0 <= i < "or"@.len() ==> !is_delimiter(#[trigger] "or"@[i]),
        forall|i: int| 0 <= i < "="@.len() ==> !is_delimiter(#[trigger] "="@[i]),
        is_plain("true"@),
        is_plain("false"@),
        "not"@ != "and"@ && "not"@ != "or"@ && "not"@ != "="@,
        "and"@ != "or"@ && "and"@ != "="@ && "or"@ != "="@,
        "true"@ != "false"@,
{
    reveal_strlit("not");
    reveal_strlit("and");
    reveal_strlit("or");
    reveal_strlit("=");
    reveal_strlit("true");
    reveal_strlit("false");
    assert("not"@[0] == 'n' && "and"@[0] == 'a');
    assert("not"@.len() == 3 && "and"@.len() == 3 && "or"@.len() == 2 && "="@.len() == 1);
    assert("true"@.len() == 4 && "false"@.len() == 5);
}

proof fn lemma_decimal_int(a: int, b: int)
    ensures
        decimal_int(a) == decimal_int(b) ==> a == b,
        forall|i: int|
            0 <= i < decimal_int(a).len() ==> !is_delimiter(#[trigger] decimal_int(a)[i]),
{
    let m = if a < 0 {
        (-a) as nat
    } else {
        a as nat
    };
    let n = if b < 0 {
        (-b) as nat
    } else {
        b as nat
    };
    decimal_round_trip(m);
    decimal_round_trip(n);
    decimal_is_injective(m, n);
    let s = decimal_int(a);
    let t = decimal_int(b);
    if a < 0 {
        assert(s.subrange(1, s.len() as int) =~= decimal(m));
        assert(s[0] == '-');
    } else {
        assert(is_digit(decimal(m)[0]));
    }
    if b < 0 {
        assert(t.subrange(1, t.len() as int) =~= decimal(n));
        assert(t[0] == '-');
    } else {
        assert(is_digit(decimal(n)[0]));
    }
    assert forall|i: int| 0 <= i < s.len() implies !is_delimiter(#[trigger] s[i]) by {
        if a < 0 {
            if i > 0 {
                assert(s[i] == decimal(m)[i - 1]);
                assert(is_digit(decimal(m)[i - 1]));
            }
        } else {
            assert(is_digit(decimal(m)[i]));
        }
    }
}

proof fn lemma_read_const(k: int, rest: Seq<char>, v: spec_fn(Seq<char>) -> int, p: int)
    ensures
        read_term(field_const(k) + rest, v, p) == (k % p, rest),
        field_const(k).len() > 0,
{
    reveal(read_term);
    reveal_strlit("(as ff");
    reveal_strlit(" F)");
    reveal_strlit("as");
    reveal_strlit("ff");
    reveal_strlit("(");
    reveal_strlit(" ");
    reveal_strlit(")");
    lemma_ops();
    let w = "ff"@ + decimal_int(k);
    let a = w + seq![' ', 'F'];
    assert(field_const(k) =~= applied("as"@, a));
    lemma_open("as"@, a, rest);
    let r = a + (seq![')'] + rest);
    let tail = seq![' ', 'F', ')'] + rest;
    assert(r =~= w + tail);
    lemma_decimal_int(k, k);
    assert forall|i: int| 0 <= i < w.len() implies !is_delimiter(#[trigger] w[i]) by {
        if i >= 2 {
            assert(w[i] == decimal_int(k)[i - 2]);
        }
    }
    lemma_word(w, tail);
    assert(after(r, w.len() + 3) =~= rest);
    let j = const_named(w);
    assert(w == "ff"@ + decimal_int(j));
    let u = "ff"@ + decimal_int(j);
    assert(w.subrange(2, w.len() as int) =~= decimal_int(k));
    assert(u.subrange(2, u.len() as int) =~= decimal_int(j));
    lemma_decimal_int(j, k);
}

/// A residue is a field element.
pub proof fn residue_is_element(t: FieldTerm, v: spec_fn(Seq<char>) -> int, p: int)
    requires
        p > 0,
    ensures
        0 <= residue(t, v, p) < p,
    decreases t,
{
    match t {
        FieldTerm::Choice(_, a, b) => {
            residue_is_element(*a, v, p);
            residue_is_element(*b, v, p);
        },
        FieldTerm::Sum(ts) => {
            let xs = residues(ts, v, p);
            if xs.len() > 0 {
                assert(0 <= (sum_mod(xs.drop_last(), p) + xs.last()) % p < p);
            }
        },
        FieldTerm::Product(ts) => {
            let xs = residues(ts, v, p);
            if xs.len() > 0 {
                assert(0 <= (product_mod(xs.drop_last(), p) * xs.last()) % p < p);
            }
        },
        _ => {},
    }
}

/// One residue is its own sum and its own product.
proof fn lemma_single(ts: Seq<FieldTerm>, v: spec_fn(Seq<char>) -> int, p: int)
    requires
        p > 0,
        ts.len() == 1,
    ensures
        sum_mod(residues(ts, v, p), p) == residue(ts[0], v, p),
        product_mod(residues(ts, v, p), p) == residue(ts[0], v, p),
{
    residue_is_element(ts[0], v, p);
    let x = residue(ts[0], v, p);
    assert(ts.drop_last() =~= seq![]);
    let xs = residues(ts, v, p);
    assert(residues(ts.drop_last(), v, p) =~= seq![]);
    assert(xs =~= seq![x]);
    assert(xs.drop_last() =~= seq![]);
    lemma_small_mod(x as nat, p as nat);
    lemma_small_mod(0, p as nat);
    assert(sum_mod(xs.drop_last(), p) == 0);
    assert(product_mod(xs.drop_last(), p) == 1int % p);
    if p > 1 {
        lemma_small_mod(1, p as nat);
        assert(1 * x == x);
    }
}

proof fn lemma_texts_at(ts: Seq<FieldTerm>, i: int)
    ensures
        field_texts(ts).len() == ts.len(),
        0 <= i < ts.len() ==> field_texts(ts)[i] == field_text(ts[i]),
        plain_terms(ts) && 0 <= i < ts.len() ==> plain_term(ts[i]),
    decreases ts.len(),
{
    if ts.len() > 0 {
        lemma_texts_at(ts.drop_last(), i);
    }
}

proof fn lemma_cond_texts_at(cs: Seq<FieldCond>, i: int)
    ensures
        field_cond_texts(cs).len() == cs.len(),
        0 <= i < cs.len() ==> field_cond_texts(cs)[i] == field_cond_text(cs[i]),
        plain_conds(cs) && 0 <= i < cs.len() ==> plain_cond(cs[i]),
    decreases cs.len(),
{
    if cs.len() > 0 {
        lemma_cond_texts_at(cs.drop_last(), i);
    }
}

proof fn lemma_one_read(
    ts: Seq<FieldTerm>,
    n: int,
    tail: Seq<char>,
    acc: Seq<int>,
    v: spec_fn(Seq<char>) -> int,
    p: int,
)
    requires
        p > 0,
        0 < n <= ts.len(),
        plain_terms(ts),
        tail.len() > 0,
        is_delimiter(tail[0]),
    ensures
        tail[0] == ' ' ==> read_terms(
            joined(field_texts(ts.take(n)), " "@) + tail,
            acc,
            v,
            p,
        ) == read_terms(after(tail, 1), acc + residues(ts.take(n), v, p), v, p),
        tail[0] != ' ' ==> read_terms(joined(field_texts(ts.take(n)), " "@) + tail, acc, v, p) == (
            acc + residues(ts.take(n), v, p),
            tail,
        ),
        joined(field_texts(ts.take(n)), " "@).len() > 0,
    decreases ts, 0int, n,
{
    reveal_strlit(" ");
    lemma_texts_at(ts, n - 1);
    lemma_texts_at(ts.take(n), n - 1);
    let t = ts[n - 1];
    let some = ts.take(n);
    assert(some.drop_last() =~= ts.take(n - 1));
    assert(some.last() == t);
    let parts = field_texts(some);
    assert(parts.drop_last() =~= field_texts(ts.take(n - 1)));
    assert(parts.last() == field_text(t));
    lemma_read_term(t, tail, v, p);
    let x = residue(t, v, p);
    let s = field_text(t) + tail;
    let before = acc + residues(ts.take(n - 1), v, p);
    assert(before.push(x) =~= acc + residues(some, v, p));
    assert(read_terms(s, before, v, p) == if tail[0] == ' ' {
        read_terms(after(tail, 1), before.push(x), v, p)
    } else {
        (before.push(x), tail)
    }) by {
        reveal(read_terms);
        reveal(read_term);
    }
    if n == 1 {
        assert(ts.take(0) =~= seq![]);
        assert(residues(ts.take(0), v, p) =~= seq![]);
        assert(before =~= acc);
        assert(joined(parts, " "@) == parts[0]);
    } else {
        let more = seq![' '] + s;
        lemma_one_read(ts, n - 1, more, acc, v, p);
        assert(after(more, 1) =~= s);
        assert(joined(parts, " "@) + tail =~= joined(field_texts(ts.take(n - 1)), " "@) + more);
    }
}

proof fn lemma_one_read_cond(
    cs: Seq<FieldCond>,
    n: int,
    tail: Seq<char>,
    acc: Seq<bool>,
    v: spec_fn(Seq<char>) -> int,
    p: int,
)
    requires
        p > 0,
        0 < n <= cs.len(),
        plain_conds(cs),
        tail.len() > 0,
        is_delimiter(tail[0]),
    ensures
        tail[0] == ' ' ==> read_conds(
            joined(field_cond_texts(cs.take(n)), " "@) + tail,
            acc,
            v,
            p,
        ) == read_conds(after(tail, 1), acc + field_truths(cs.take(n), v, p), v, p),
        tail[0] != ' ' ==> read_conds(
            joined(field_cond_texts(cs.take(n)), " "@) + tail,
            acc,
            v,
            p,
        ) == (acc + field_truths(cs.take(n), v, p), tail),
        joined(field_cond_texts(cs.take(n)), " "@).len() > 0,
    decreases cs, 0int, n,
{
    reveal_strlit(" ");
    lemma_cond_texts_at(cs, n - 1);
    lemma_cond_texts_at(cs.take(n), n - 1);
    let c = cs[n - 1];
    let some = cs.take(n);
    assert(some.drop_last() =~= cs.take(n - 1));
    assert(some.last() == c);
    let parts = field_cond_texts(some);
    assert(parts.drop_last() =~= field_cond_texts(cs.take(n - 1)));
    assert(parts.last() == field_cond_text(c));
    lemma_read_cond(c, tail, v, p);
    let b = field_holds(c, v, p);
    let s = field_cond_text(c) + tail;
    let before = acc + field_truths(cs.take(n - 1), v, p);
    assert(before.push(b) =~= acc + field_truths(some, v, p));
    assert(read_conds(s, before, v, p) == if tail[0] == ' ' {
        read_conds(after(tail, 1), before.push(b), v, p)
    } else {
        (before.push(b), tail)
    }) by {
        reveal(read_conds);
        reveal(read_cond);
    }
    if n == 1 {
        assert(cs.take(0) =~= seq![]);
        assert(field_truths(cs.take(0), v, p) =~= seq![]);
        assert(before =~= acc);
        assert(joined(parts, " "@) == parts[0]);
    } else {
        let more = seq![' '] + s;
        lemma_one_read_cond(cs, n - 1, more, acc, v, p);
        assert(after(more, 1) =~= s);
        assert(joined(parts, " "@) + tail =~= joined(field_cond_texts(cs.take(n - 1)), " "@)
            + more);
    }
}

proof fn lemma_read_term(
    t: FieldTerm,
    rest: Seq<char>,
    v: spec_fn(Seq<char>) -> int,
    p: int,
)
    requires
        p > 0,
        plain_term(t),
        ends_name(rest),
    ensures
        read_term(field_text(t) + rest, v, p) == (residue(t, v, p), rest),
        field_text(t).len() > 0,
    decreases t, 2int, 0int,
{
    let s = field_text(t) + rest;
    let close = seq![')'] + rest;
    lemma_ops();
    match t {
        FieldTerm::Const(k) => lemma_read_const(k, rest, v, p),
        FieldTerm::Var(name) => {
            reveal(read_term);
            lemma_word(name, rest);
            assert(s[0] == name[0]);
            assert(!is_delimiter(name[0]));
            assert(after(s, name.len()) =~= rest);
        },
        FieldTerm::Neg(a) => {
            lemma_read_term(*a, close, v, p);
            lemma_open("ff.neg"@, field_text(*a), rest);
            reveal(read_term);
            assert(after(close, 1) =~= rest);
        },
        FieldTerm::Inv(a) => {
            lemma_read_term(*a, close, v, p);
            lemma_open("ff.inv"@, field_text(*a), rest);
            reveal(read_term);
            assert(after(close, 1) =~= rest);
        },
        FieldTerm::Sum(ts) => lemma_read_list(t, ts, "ff.add"@, rest, v, p),
        FieldTerm::Product(ts) => lemma_read_list(t, ts, "ff.mul"@, rest, v, p),
        FieldTerm::Choice(_, _, _) => lemma_read_choice(t, rest, v, p),
    }
}

proof fn lemma_read_list(
    t: FieldTerm,
    ts: Seq<FieldTerm>,
    op: Seq<char>,
    rest: Seq<char>,
    v: spec_fn(Seq<char>) -> int,
    p: int,
)
    requires
        p > 0,
        plain_terms(ts),
        ends_name(rest),
        (t == FieldTerm::Sum(ts) && op == "ff.add"@) || (t == FieldTerm::Product(ts) && op
            == "ff.mul"@),
    ensures
        read_term(field_text(t) + rest, v, p) == (residue(t, v, p), rest),
        field_text(t).len() > 0,
    decreases ts, 1int, 0int,
{
    lemma_ops();
    let close = seq![')'] + rest;
    if ts.len() == 0 {
        assert(residues(ts, v, p) =~= seq![]);
        lemma_read_const(0, rest, v, p);
        lemma_read_const(1, rest, v, p);
    } else if ts.len() == 1 {
        lemma_texts_at(ts, 0);
        lemma_read_term(ts[0], rest, v, p);
        lemma_single(ts, v, p);
    } else {
        lemma_texts_at(ts, 0);
        assert(ts.take(ts.len() as int) =~= ts);
        let a = joined(field_texts(ts), " "@);
        lemma_one_read(ts, ts.len() as int, close, seq![], v, p);
        assert(seq![] + residues(ts, v, p) =~= residues(ts, v, p));
        lemma_open(op, a, rest);
        reveal(read_term);
        reveal(read_terms);
        assert(field_text(t) == applied(op, a));
        assert(after(close, 1) =~= rest);
    }
}

proof fn lemma_read_choice(
    t: FieldTerm,
    rest: Seq<char>,
    v: spec_fn(Seq<char>) -> int,
    p: int,
)
    requires
        p > 0,
        t is Choice,
        plain_term(t),
        ends_name(rest),
    ensures
        read_term(field_text(t) + rest, v, p) == (residue(t, v, p), rest),
        field_text(t).len() > 0,
    decreases t, 1int, 0int,
{
    match t {
        FieldTerm::Choice(c, a, b) => {
            reveal_strlit("(ite ");
            reveal_strlit("ite");
            reveal_strlit("(");
            reveal_strlit(" ");
            reveal_strlit(")");
            lemma_ops();
            let close = seq![')'] + rest;
            let tc = field_cond_text(*c);
            let ta = field_text(*a);
            let tb = field_text(*b);
            let r4 = tb + close;
            let r3 = seq![' '] + r4;
            let r2 = ta + r3;
            let r1 = seq![' '] + r2;
            let body = tc + " "@ + ta + " "@ + tb;
            assert(conditional(tc, ta, tb) =~= applied("ite"@, body));
            lemma_open("ite"@, body, rest);
            let r = tc + r1;
            assert(body + close =~= r);
            lemma_read_cond(*c, r1, v, p);
            lemma_read_term(*a, r3, v, p);
            lemma_read_term(*b, close, v, p);
            assert(after(r1, 1) =~= r2);
            assert(after(r3, 1) =~= r4);
            assert(after(close, 1) =~= rest);
            reveal(read_term);
            reveal(read_cond);
            assert(field_text(t) == conditional(tc, ta, tb));
        },
        _ => {},
    }
}

proof fn lemma_read_cond(
    c: FieldCond,
    rest: Seq<char>,
    v: spec_fn(Seq<char>) -> int,
    p: int,
)
    requires
        p > 0,
        plain_cond(c),
        ends_name(rest),
    ensures
        read_cond(field_cond_text(c) + rest, v, p) == (field_holds(c, v, p), rest),
        field_cond_text(c).len() > 0,
    decreases c, 2int, 0int,
{
    let s = field_cond_text(c) + rest;
    let close = seq![')'] + rest;
    lemma_cond_ops();
    match c {
        FieldCond::Truth(b) => {
            lemma_read_constant(b, rest, v, p);
            assert(field_holds(c, v, p) == b);
        },
        FieldCond::Not(a) => {
            lemma_read_cond(*a, close, v, p);
            lemma_open("not"@, field_cond_text(*a), rest);
            reveal(read_cond);
            assert(after(close, 1) =~= rest);
        },
        FieldCond::All(cs) => lemma_read_cond_list(c, cs, "and"@, rest, v, p),
        FieldCond::Any(cs) => lemma_read_cond_list(c, cs, "or"@, rest, v, p),
        FieldCond::Same(a, b) => {
            reveal_strlit(" ");
            let ta = field_text(a);
            let tb = field_text(b);
            let parts = seq![ta, tb];
            let r3 = tb + close;
            let r2 = seq![' '] + r3;
            assert(parts.drop_last() =~= seq![ta]);
            assert(joined(seq![ta], " "@) == ta);
            assert(joined(parts, " "@) == ta + " "@ + tb);
            let body = ta + " "@ + tb;
            lemma_open("="@, body, rest);
            assert(body + close =~= ta + r2);
            lemma_read_term(a, r2, v, p);
            lemma_read_term(b, close, v, p);
            assert(after(r2, 1) =~= r3);
            assert(after(close, 1) =~= rest);
            reveal(read_cond);
            reveal(read_term);
            assert(field_cond_text(c) == applied("="@, body));
        },
    }
}

proof fn lemma_read_constant(
    b: bool,
    rest: Seq<char>,
    v: spec_fn(Seq<char>) -> int,
    p: int,
)
    requires
        ends_name(rest),
    ensures
        b ==> read_cond("true"@ + rest, v, p) == (true, rest),
        !b ==> read_cond("false"@ + rest, v, p) == (false, rest),
{
    lemma_cond_ops();
    let w = if b {
        "true"@
    } else {
        "false"@
    };
    let s = w + rest;
    lemma_word(w, rest);
    assert(s[0] == w[0]);
    assert(!is_delimiter(w[0]));
    assert(after(s, w.len()) =~= rest);
    reveal(read_cond);
}

proof fn lemma_read_cond_list(
    c: FieldCond,
    cs: Seq<FieldCond>,
    op: Seq<char>,
    rest: Seq<char>,
    v: spec_fn(Seq<char>) -> int,
    p: int,
)
    requires
        p > 0,
        plain_conds(cs),
        ends_name(rest),
        (c == FieldCond::All(cs) && op == "and"@) || (c == FieldCond::Any(cs) && op == "or"@),
    ensures
        read_cond(field_cond_text(c) + rest, v, p) == (field_holds(c, v, p), rest),
        field_cond_text(c).len() > 0,
    decreases cs, 1int, 0int,
{
    lemma_cond_ops();
    let close = seq![')'] + rest;
    if cs.len() == 0 {
        assert(field_truths(cs, v, p) =~= seq![]);
        lemma_read_constant(c is All, rest, v, p);
    } else if cs.len() == 1 {
        lemma_cond_texts_at(cs, 0);
        lemma_read_cond(cs[0], rest, v, p);
        assert(cs.drop_last() =~= seq![]);
        assert(field_truths(cs.drop_last(), v, p) =~= seq![]);
        let bs = field_truths(cs, v, p);
        assert(bs =~= seq![field_holds(cs[0], v, p)]);
        assert(bs[0] == field_holds(cs[0], v, p));
    } else {
        lemma_cond_texts_at(cs, 0);
        assert(cs.take(cs.len() as int) =~= cs);
        let a = joined(field_cond_texts(cs), " "@);
        lemma_one_read_cond(cs, cs.len() as int, close, seq![], v, p);
        assert(seq![] + field_truths(cs, v, p) =~= field_truths(cs, v, p));
        lemma_open(op, a, rest);
        reveal(read_cond);
        reveal(read_conds);
        assert(field_cond_text(c) == applied(op, a));
        assert(after(close, 1) =~= rest);
    }
}

/// Terms with the same text stand for the same residue.
pub proof fn text_tells_residue(
    a: FieldTerm,
    b: FieldTerm,
    v: spec_fn(Seq<char>) -> int,
    p: int,
)
    requires
        p > 0,
        plain_term(a),
        plain_term(b),
        field_text(a) == field_text(b),
    ensures
        residue(a, v, p) == residue(b, v, p),
{
    lemma_read_term(a, seq![], v, p);
    lemma_read_term(b, seq![], v, p);
}

/// Conditions with the same text are both true or both false.
pub proof fn text_tells_truth(
    a: FieldCond,
    b: FieldCond,
    v: spec_fn(Seq<char>) -> int,
    p: int,
)
    requires
        p > 0,
        plain_cond(a),
        plain_cond(b),
        field_cond_text(a) == field_cond_text(b),
    ensures
        field_holds(a, v, p) == field_holds(b, v, p),
{
    lemma_read_cond(a, seq![], v, p);
    lemma_read_cond(b, seq![], v, p);
}

} // verus!
