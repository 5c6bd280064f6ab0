//! What the text helpers do to every text.

use vstd::prelude::*;
use crate::text::{
    decimal, decimal_round_trip, is_digit, is_space, joined, lower, lower_char, text_lt, trim_end,
    trim_start, trimmed, unsigned_body, unsigned_value,
};

verus! {

/// The decimal notation of a number is read as that number, with or without a plus sign, if it is
/// not too large; a number that is too large is not read at all.
pub proof fn numbers_are_read_as_written(n: nat, max: nat)
    ensures
        unsigned_value(decimal(n), max) == (if n <= max {
            Some(n)
        } else {
            None
        }),
        unsigned_value(seq!['+'] + decimal(n), max) == unsigned_value(decimal(n), max),
{
    let d = decimal(n);
    decimal_round_trip(n);
    assert(is_digit(d[0]));
    assert(unsigned_body(d) == d);
    assert((seq!['+'] + d).subrange(1, (d.len() + 1) as int) =~= d);
    assert(unsigned_body(seq!['+'] + d) == d);
}

/// Digits are read from the most significant to the least significant.
pub proof fn digits_are_read_in_order(s: Seq<char>, c: char, max: nat)
    requires
        unsigned_value(s, max) is Some,
        is_digit(c),
    ensures
        ({
            let more = 10 * unsigned_value(s, max)->0 + (c as int - '0' as int);
            unsigned_value(s.push(c), max) == if more <= max {
                Some(more as nat)
            } else {
                None
            }
        }),
{
    let body = unsigned_body(s);
    let next = unsigned_body(s.push(c));
    assert(next =~= body.push(c));
    assert(next.drop_last() =~= body);
    assert forall|i: int| 0 <= i < next.len() implies is_digit(#[trigger] next[i]) by {
        if i < body.len() {
            assert(next[i] == body[i]);
        }
    }
}

/// A text in which anything but a digit stands behind the sign is no number.
pub proof fn only_digits_are_read(s: Seq<char>, i: int, max: nat)
    requires
        0 <= i < s.len(),
        !is_digit(s[i]),
        i > 0 || s[i] != '+',
    ensures
        unsigned_value(s, max) is None,
{
    let body = unsigned_body(s);
    if s[0] == '+' {
        assert(body[i - 1] == s[i]);
    } else {
        assert(body[i] == s[i]);
    }
}

/// Folding leaves no capital letter, moves capitals to the small letter of the same place in the
/// alphabet, and leaves everything else.
pub proof fn folding_moves_only_capitals(s: Seq<char>, i: int)
    requires
        0 <= i < s.len(),
    ensures
        lower(s).len() == s.len(),
        !('A' <= lower(s)[i] && lower(s)[i] <= 'Z'),
        lower(s)[i] != s[i] <==> 'A' <= s[i] && s[i] <= 'Z',
        'A' <= s[i] && s[i] <= 'Z' ==> lower(s)[i] as int - 'a' as int == s[i] as int - 'A' as int,
        lower(lower(s)) == lower(s),
{
    assert forall|k: int| 0 <= k < s.len() implies lower(lower(s))[k] == lower(s)[k] by {
        assert(lower(s)[k] == lower_char(s[k]));
    }
    assert(lower(lower(s)) =~= lower(s));
}

/// Parts that are joined stand between what their neighbours are joined to.
pub proof fn joining_keeps_parts_apart(a: Seq<Seq<char>>, p: Seq<char>, b: Seq<Seq<char>>, sep: Seq<char>)
    ensures
        joined(seq![p], sep) == p,
        a.len() > 0 && b.len() > 0 ==> joined(a + b, sep) == joined(a, sep) + sep + joined(b, sep),
    decreases b.len(),
{
    if a.len() > 0 && b.len() > 0 {
        let ab = a + b;
        assert(ab.last() == b.last());
        if b.len() == 1 {
            assert(ab.drop_last() =~= a);
        } else {
            assert(ab.drop_last() =~= a + b.drop_last());
            joining_keeps_parts_apart(a, p, b.drop_last(), sep);
            assert(joined(a + b, sep) =~= joined(a, sep) + sep + joined(b, sep));
        }
    }
}

spec fn all_spaces(s: Seq<char>) -> bool {
    forall|i: int| 0 <= i < s.len() ==> is_space(#[trigger] s[i])
}

proof fn lemma_trim_start(s: Seq<char>) -> (a: Seq<char>)
    ensures
        all_spaces(a),
        s == a + trim_start(s),
        trim_start(s).len() > 0 ==> !is_space(trim_start(s)[0]),
    decreases s.len(),
{
    if s.len() > 0 && is_space(s[0]) {
        let a = lemma_trim_start(s.skip(1));
        assert(s =~= seq![s[0]] + s.skip(1));
        assert(s =~= (seq![s[0]] + a) + trim_start(s.skip(1)));
        seq![s[0]] + a
    } else {
        assert(s =~= Seq::<char>::empty() + s);
        seq![]
    }
}

proof fn lemma_trim_end(s: Seq<char>) -> (b: Seq<char>)
    ensures
        all_spaces(b),
        s == trim_end(s) + b,
        trim_end(s).len() > 0 ==> !is_space(trim_end(s).last()),
    decreases s.len(),
{
    if s.len() > 0 && is_space(s.last()) {
        let b = lemma_trim_end(s.drop_last());
        assert(s =~= s.drop_last().push(s.last()));
        assert(s =~= trim_end(s.drop_last()) + b.push(s.last()));
        b.push(s.last())
    } else {
        assert(s =~= s + Seq::<char>::empty());
        seq![]
    }
}

/// A text is white space, what is left of it by trimming, and white space.
pub open spec fn trims_to(s: Seq<char>, a: Seq<char>, b: Seq<char>) -> bool {
    &&& s == a + trimmed(s) + b
    &&& forall|i: int| 0 <= i < a.len() ==> is_space(#[trigger] a[i])
    &&& forall|i: int| 0 <= i < b.len() ==> is_space(#[trigger] b[i])
}

/// Trimming takes white space from both ends and nothing else, and leaves none there.
pub proof fn trimming_takes_outer_space(s: Seq<char>)
    ensures
        exists|a: Seq<char>, b: Seq<char>| trims_to(s, a, b),
        trimmed(s).len() > 0 ==> !is_space(trimmed(s)[0]) && !is_space(trimmed(s).last()),
{
    let a = lemma_trim_start(s);
    let t = trim_start(s);
    let b = lemma_trim_end(t);
    assert(s =~= a + trimmed(s) + b);
    assert(trims_to(s, a, b));
    if trimmed(s).len() > 0 {
        assert(t[0] == trimmed(s)[0]);
    }
}

/// `a` and `b` agree up to `k`, where `a` ends or has the smaller character.
pub open spec fn first_differ_at(a: Seq<char>, b: Seq<char>, k: int) -> bool {
    &&& 0 <= k <= a.len()
    &&& k < b.len()
    &&& forall|i: int| 0 <= i < k ==> a[i] == #[trigger] b[i]
    &&& k < a.len() ==> (a[k] as u32) < (b[k] as u32)
}

proof fn lemma_lt_differs(a: Seq<char>, b: Seq<char>) -> (k: int)
    requires
        text_lt(a, b),
    ensures
        first_differ_at(a, b, k),
    decreases a.len(),
{
    if a.len() == 0 || a[0] != b[0] {
        0
    } else {
        let k = lemma_lt_differs(a.skip(1), b.skip(1));
        assert forall|i: int| 0 <= i < k + 1 implies a[i] == #[trigger] b[i] by {
            if i > 0 {
                assert(a.skip(1)[i - 1] == b.skip(1)[i - 1]);
            }
        }
        k + 1
    }
}

proof fn lemma_differs_lt(a: Seq<char>, b: Seq<char>, k: int)
    requires
        first_differ_at(a, b, k),
    ensures
        text_lt(a, b),
        !text_lt(b, a),
    decreases a.len(),
{
    if k > 0 {
        assert(a[0] == b[0]);
        assert forall|i: int| 0 <= i < k - 1 implies a.skip(1)[i] == #[trigger] b.skip(1)[i] by {
            assert(a[i + 1] == b[i + 1]);
        }
        lemma_differs_lt(a.skip(1), b.skip(1), k - 1);
    }
}

/// One text comes before another where, at the first place at which they differ, it ends or has
/// the smaller character.
pub proof fn texts_are_ordered_by_first_difference(a: Seq<char>, b: Seq<char>)
    ensures
        text_lt(a, b) <==> exists|k: int| first_differ_at(a, b, k),
        !(text_lt(a, b) && text_lt(b, a)),
{
    if text_lt(a, b) {
        let k = lemma_lt_differs(a, b);
        lemma_differs_lt(a, b, k);
    }
    if exists|k: int| first_differ_at(a, b, k) {
        let k = choose|k: int| first_differ_at(a, b, k);
        lemma_differs_lt(a, b, k);
    }
}

proof fn lemma_code(c: char)
    ensures
        c as u32 as int == c as int,
{
}

/// Of two different texts one comes before the other.
pub proof fn texts_are_comparable(a: Seq<char>, b: Seq<char>)
    ensures
        a != b <==> text_lt(a, b) || text_lt(b, a),
    decreases a.len(),
{
    if a.len() == 0 || b.len() == 0 {
        assert(a == b || a.len() != b.len()) by {
            if a.len() == b.len() {
                assert(a =~= b);
            }
        }
    } else if a[0] != b[0] {
        lemma_code(a[0]);
        lemma_code(b[0]);
    } else {
        texts_are_comparable(a.skip(1), b.skip(1));
        if a.skip(1) == b.skip(1) {
            assert(a =~= seq![a[0]] + a.skip(1));
            assert(b =~= seq![b[0]] + b.skip(1));
        }
    }
}

} // verus!
