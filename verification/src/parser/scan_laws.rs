//! How texts are cut into words, names, numbers and operators.

use vstd::prelude::*;
use crate::parser::expr::op_of;
use crate::parser::grammar::{grammar, PegV};
use crate::parser::scan::{
    comment_at, figures_end, is_blank, is_figure, is_letter, is_name_char, line_end, matched,
    name_end, skipped, slice, word_at, MatchV,
};
use crate::parser::tree::Rule;
use crate::text::{lower, lower_char};

verus! {

/// The position lies in a comment that begins at `c`.
pub open spec fn in_comment(s: Seq<char>, c: int, p: int) -> bool {
    &&& 0 <= c <= p < s.len()
    &&& comment_at(s, c)
    &&& forall|q: int| c <= q <= p ==> #[trigger] s[q] != '\n'
}

/// The position holds white space, or lies in a comment that begins at `from` or later.
pub open spec fn is_passed_over(s: Seq<char>, from: int, p: int) -> bool {
    is_blank(s[p]) || exists|c: int| from <= c && in_comment(s, c, p)
}

proof fn lemma_line(s: Seq<char>, i: int)
    requires
        0 <= i <= s.len(),
    ensures
        i <= line_end(s, i) <= s.len(),
        forall|q: int| i <= q < line_end(s, i) ==> #[trigger] s[q] != '\n',
        line_end(s, i) < s.len() ==> s[line_end(s, i)] == '\n',
    decreases s.len() - i,
{
    if i < s.len() && s[i] != '\n' {
        lemma_line(s, i + 1);
    }
}

/// Only white space and comments are skipped, and all of them: what follows is the end of the text
/// or a character that is neither white space nor the beginning of a comment.
pub proof fn blanks_and_comments_are_skipped(s: Seq<char>, i: int)
    requires
        0 <= i <= s.len(),
    ensures
        ({
            let k = skipped(s, i);
            &&& i <= k <= s.len()
            &&& forall|p: int| i <= p < k ==> #[trigger] is_passed_over(s, i, p)
            &&& k < s.len() ==> !is_blank(s[k]) && !comment_at(s, k)
        }),
    decreases s.len() - i,
{
    let k = skipped(s, i);
    if i < s.len() {
        if is_blank(s[i]) {
            blanks_and_comments_are_skipped(s, i + 1);
            assert forall|p: int| i <= p < k implies #[trigger] is_passed_over(s, i, p) by {
                if p > i {
                    assert(is_passed_over(s, i + 1, p));
                }
            }
        } else if comment_at(s, i) {
            lemma_line(s, i + 2);
            let e = line_end(s, i + 2);
            blanks_and_comments_are_skipped(s, e);
            assert forall|p: int| i <= p < k implies #[trigger] is_passed_over(s, i, p) by {
                if p < e {
                    assert(in_comment(s, i, p));
                } else {
                    assert(is_passed_over(s, e, p));
                }
            }
        }
    }
}

proof fn lemma_name(s: Seq<char>, i: int)
    requires
        0 <= i <= s.len(),
    ensures
        i <= name_end(s, i) <= s.len(),
        forall|p: int| i <= p < name_end(s, i) ==> is_name_char(#[trigger] s[p]),
        name_end(s, i) < s.len() ==> !is_name_char(s[name_end(s, i)]),
    decreases s.len() - i,
{
    if i < s.len() && is_name_char(s[i]) {
        lemma_name(s, i + 1);
    }
}

proof fn lemma_figures(s: Seq<char>, i: int)
    requires
        0 <= i <= s.len(),
    ensures
        i <= figures_end(s, i) <= s.len(),
        forall|p: int| i <= p < figures_end(s, i) ==> is_figure(#[trigger] s[p]),
        figures_end(s, i) < s.len() ==> !is_figure(s[figures_end(s, i)]),
    decreases s.len() - i,
{
    if i < s.len() && is_figure(s[i]) {
        lemma_figures(s, i + 1);
    }
}

/// A name begins with a letter or an underscore, has letters, digits and underscores behind it,
/// and ends where they end; where no letter and no underscore stands there is no name.
pub proof fn names_are_read_whole(s: Seq<char>, i: int, depth: nat)
    requires
        0 <= i <= s.len(),
    ensures
        ({
            let at = skipped(s, i);
            match matched(PegV::Name, s, i, depth) {
                MatchV::Done(j, _) => {
                    &&& at < j <= s.len()
                    &&& is_letter(s[at])
                    &&& forall|p: int| at <= p < j ==> is_name_char(#[trigger] s[p])
                    &&& j < s.len() ==> !is_name_char(s[j])
                },
                MatchV::Fail => at == s.len() || !is_letter(s[at]),
                MatchV::Deep => false,
            }
        }),
{
    blanks_and_comments_are_skipped(s, i);
    lemma_name(s, skipped(s, i));
}

/// A number has all the digits that stand together.
pub proof fn numbers_are_read_whole(s: Seq<char>, i: int, depth: nat)
    requires
        0 <= i <= s.len(),
    ensures
        ({
            let at = skipped(s, i);
            match matched(PegV::Digits, s, i, depth) {
                MatchV::Done(j, _) => {
                    &&& at < j <= s.len()
                    &&& forall|p: int| at <= p < j ==> is_figure(#[trigger] s[p])
                    &&& j < s.len() ==> !is_figure(s[j])
                },
                MatchV::Fail => at == s.len() || !is_figure(s[at]),
                MatchV::Deep => false,
            }
        }),
{
    blanks_and_comments_are_skipped(s, i);
    lemma_figures(s, skipped(s, i));
}

/// A word is read where it stands and is not the beginning of a longer name.
pub proof fn words_are_read_whole(s: Seq<char>, i: int, w: Seq<char>, depth: nat)
    requires
        0 <= i <= s.len(),
        w.len() > 0,
    ensures
        ({
            let at = skipped(s, i);
            let end = at + w.len();
            let stands = slice(s, at, end) == w && !(is_name_char(w.last()) && end < s.len()
                && is_name_char(s[end]));
            matched(PegV::Word(w, false), s, i, depth) == if stands {
                MatchV::Done(end, seq![])
            } else {
                MatchV::Fail
            }
        }),
{
    blanks_and_comments_are_skipped(s, i);
    lemma_word(s, skipped(s, i), w);
}

proof fn lemma_word(s: Seq<char>, at: int, w: Seq<char>)
    requires
        0 <= at <= s.len(),
        w.len() > 0,
    ensures
        word_at(s, at, w, false) <==> slice(s, at, at + w.len()) == w,
{
    let part = slice(s, at, at + w.len());
    if word_at(s, at, w, false) {
        assert forall|j: int| 0 <= j < w.len() implies part[j] == w[j] by {
            assert(w[j] == s[at + j]);
        }
        assert(part =~= w);
    }
    if part == w {
        assert forall|j: int| 0 <= j < w.len() implies s[at + j] == #[trigger] w[j] by {
            assert(part[j] == s[at + j]);
        }
    }
}

proof fn lemma_fold(c: char)
    ensures
        is_blank(lower_char(c)) == is_blank(c),
        is_name_char(lower_char(c)) == is_name_char(c),
        (lower_char(c) == '\n') == (c == '\n'),
        (lower_char(c) == '/') == (c == '/'),
        lower_char(lower_char(c)) == lower_char(c),
{
}

proof fn lemma_fold_line(s: Seq<char>, i: int)
    requires
        0 <= i <= s.len(),
    ensures
        line_end(lower(s), i) == line_end(s, i),
    decreases s.len() - i,
{
    if i < s.len() {
        lemma_fold(s[i]);
        if s[i] != '\n' {
            lemma_fold_line(s, i + 1);
        }
    }
}

proof fn lemma_fold_skipped(s: Seq<char>, i: int)
    requires
        0 <= i <= s.len(),
    ensures
        skipped(lower(s), i) == skipped(s, i),
    decreases s.len() - i,
{
    if i < s.len() {
        lemma_fold(s[i]);
        if i + 1 < s.len() {
            lemma_fold(s[i + 1]);
        }
        if is_blank(s[i]) {
            lemma_fold_skipped(s, i + 1);
        } else if comment_at(s, i) {
            lemma_line(s, i + 2);
            lemma_fold_line(s, i + 2);
            lemma_fold_skipped(s, line_end(s, i + 2));
        }
    }
}

/// A keyword is read in any mix of upper and lower case.
pub proof fn keywords_ignore_case(s: Seq<char>, i: int, w: Seq<char>, depth: nat)
    requires
        0 <= i <= s.len(),
    ensures
        matched(PegV::Word(w, true), lower(s), i, depth) == matched(
            PegV::Word(w, true),
            s,
            i,
            depth,
        ),
{
    let t = lower(s);
    let at = skipped(s, i);
    blanks_and_comments_are_skipped(s, i);
    lemma_fold_skipped(s, i);
    if at + w.len() <= s.len() {
        assert forall|j: int| 0 <= j < w.len() implies lower_char(#[trigger] t[at + j])
            == lower_char(s[at + j]) by {
            lemma_fold(s[at + j]);
        }
        if word_at(s, at, w, true) {
            assert forall|j: int| 0 <= j < w.len() implies lower_char(t[at + j])
                == #[trigger] w[j] by {
                assert(lower_char(s[at + j]) == w[j]);
                assert(lower_char(t[at + j]) == lower_char(s[at + j]));
            }
        }
        if word_at(t, at, w, true) {
            assert forall|j: int| 0 <= j < w.len() implies lower_char(s[at + j])
                == #[trigger] w[j] by {
                assert(lower_char(t[at + j]) == w[j]);
            }
        }
        if at + w.len() < s.len() {
            lemma_fold(s[at + w.len()]);
        }
    }
}

proof fn lemma_tokens()
    ensures
        "=="@ == seq!['=', '='],
        "!="@ == seq!['!', '='],
        "<="@ == seq!['<', '='],
        ">="@ == seq!['>', '='],
        "<"@ == seq!['<'],
        ">"@ == seq!['>'],
        "&&"@ == seq!['&', '&'],
        "||"@ == seq!['|', '|'],
        "*"@ == seq!['*'],
        "+"@ == seq!['+'],
        "-"@ == seq!['-'],
        "&"@ == seq!['&'],
{
    reveal_strlit("==");
    reveal_strlit("!=");
    reveal_strlit("<=");
    reveal_strlit(">=");
    reveal_strlit("<");
    reveal_strlit(">");
    reveal_strlit("&&");
    reveal_strlit("||");
    reveal_strlit("*");
    reveal_strlit("+");
    reveal_strlit("-");
    reveal_strlit("&");
    assert("=="@ =~= seq!['=', '=']);
    assert("!="@ =~= seq!['!', '=']);
    assert("<="@ =~= seq!['<', '=']);
    assert(">="@ =~= seq!['>', '=']);
    assert("<"@ =~= seq!['<']);
    assert(">"@ =~= seq!['>']);
    assert("&&"@ =~= seq!['&', '&']);
    assert("||"@ =~= seq!['|', '|']);
    assert("*"@ =~= seq!['*']);
    assert("+"@ =~= seq!['+']);
    assert("-"@ =~= seq!['-']);
    assert("&"@ =~= seq!['&']);
}

proof fn lemma_slices(s: Seq<char>, at: int, k: int)
    requires
        0 <= at <= k <= s.len(),
    ensures
        slice(s, at, k).len() == k - at,
        k > at ==> slice(s, at, k)[0] == s[at],
        k > at + 1 ==> slice(s, at, k)[1] == s[at + 1],
        k == at + 1 ==> slice(s, at, k) == seq![s[at]],
        k == at + 2 ==> slice(s, at, k) == seq![s[at], s[at + 1]],
{
    if k == at + 1 {
        assert(slice(s, at, k) =~= seq![s[at]]);
    }
    if k == at + 2 {
        assert(slice(s, at, k) =~= seq![s[at], s[at + 1]]);
    }
}

spec fn one_stands(s: Seq<char>, at: int, c: char) -> bool {
    at < s.len() && s[at] == c
}

spec fn two_stand(s: Seq<char>, at: int, c: char, d: char) -> bool {
    at + 1 < s.len() && s[at] == c && s[at + 1] == d
}

proof fn lemma_one(s: Seq<char>, i: int, w: Seq<char>, c: char, depth: nat)
    requires
        0 <= i <= s.len(),
        w == seq![c],
        !is_name_char(c),
    ensures
        ({
            let at = skipped(s, i);
            matched(PegV::word(w), s, i, depth) == if one_stands(s, at, c) {
                MatchV::Done(at + 1, seq![])
            } else {
                MatchV::Fail
            }
        }),
{
    let at = skipped(s, i);
    blanks_and_comments_are_skipped(s, i);
    words_are_read_whole(s, i, w, depth);
    if at + 1 <= s.len() {
        lemma_slices(s, at, at + 1);
        assert(seq![s[at]][0] == s[at]);
        assert(w[0] == c);
    }
}

proof fn lemma_two(s: Seq<char>, i: int, w: Seq<char>, c: char, d: char, depth: nat)
    requires
        0 <= i <= s.len(),
        w == seq![c, d],
        !is_name_char(d),
    ensures
        ({
            let at = skipped(s, i);
            matched(PegV::word(w), s, i, depth) == if two_stand(s, at, c, d) {
                MatchV::Done(at + 2, seq![])
            } else {
                MatchV::Fail
            }
        }),
{
    let at = skipped(s, i);
    blanks_and_comments_are_skipped(s, i);
    words_are_read_whole(s, i, w, depth);
    if at + 2 <= s.len() {
        lemma_slices(s, at, at + 2);
        let part = seq![s[at], s[at + 1]];
        assert(part[0] == s[at] && part[1] == s[at + 1]);
        assert(w[0] == c && w[1] == d);
    }
}

pub proof fn lemma_or(a: PegV, b: PegV, s: Seq<char>, i: int, depth: nat)
    ensures
        matched(PegV::any2(a, b), s, i, depth) == match matched(a, s, i, depth) {
            MatchV::Fail => matched(b, s, i, depth),
            other => other,
        },
{
}

/// One of the operators of one character.
spec fn short_stands(s: Seq<char>, at: int) -> bool {
    at < s.len() && (s[at] == '<' || s[at] == '>' || s[at] == '*' || s[at] == '+' || s[at] == '-'
        || s[at] == '&')
}

/// One of the operators of two characters.
spec fn long_stands(s: Seq<char>, at: int) -> bool {
    ||| two_stand(s, at, '=', '=')
    ||| two_stand(s, at, '!', '=')
    ||| two_stand(s, at, '<', '=')
    ||| two_stand(s, at, '>', '=')
    ||| two_stand(s, at, '&', '&')
    ||| two_stand(s, at, '|', '|')
}

proof fn lemma_op_slice(s: Seq<char>, at: int, k: int)
    requires
        0 <= at <= k <= s.len(),
    ensures
        op_of(slice(s, at, k)) is Some <==> (k == at + 1 && short_stands(s, at)) || (k == at + 2
            && long_stands(s, at)),
{
    let part = slice(s, at, k);
    lemma_slices(s, at, k);
    lemma_tokens();
    if k == at + 1 {
        assert(part[0] == s[at]);
        assert(seq!['<'][0] == '<' && seq!['>'][0] == '>' && seq!['*'][0] == '*');
        assert(seq!['+'][0] == '+' && seq!['-'][0] == '-' && seq!['&'][0] == '&');
    } else if k == at + 2 {
        assert(part[0] == s[at] && part[1] == s[at + 1]);
    }
}

proof fn lemma_op_match(s: Seq<char>, i: int, depth: nat)
    requires
        0 <= i <= s.len(),
    ensures
        ({
            let at = skipped(s, i);
            matched(grammar(Rule::Op), s, i, depth) == if long_stands(s, at) {
                MatchV::Done(at + 2, seq![])
            } else if short_stands(s, at) {
                MatchV::Done(at + 1, seq![])
            } else {
                MatchV::Fail
            }
        }),
{
    lemma_tokens();
    lemma_two(s, i, "=="@, '=', '=', depth);
    lemma_two(s, i, "!="@, '!', '=', depth);
    lemma_two(s, i, "<="@, '<', '=', depth);
    lemma_two(s, i, ">="@, '>', '=', depth);
    lemma_one(s, i, "<"@, '<', depth);
    lemma_one(s, i, ">"@, '>', depth);
    lemma_two(s, i, "&&"@, '&', '&', depth);
    lemma_two(s, i, "||"@, '|', '|', depth);
    lemma_one(s, i, "*"@, '*', depth);
    lemma_one(s, i, "+"@, '+', depth);
    lemma_one(s, i, "-"@, '-', depth);
    lemma_one(s, i, "&"@, '&', depth);
    let p2 = PegV::any2(PegV::word("-"@), PegV::word("&"@));
    let p3 = PegV::any2(PegV::word("+"@), p2);
    let p4 = PegV::any2(PegV::word("*"@), p3);
    let p5 = PegV::any2(PegV::word("||"@), p4);
    let p6 = PegV::any2(PegV::word("&&"@), p5);
    let p7 = PegV::any2(PegV::word(">"@), p6);
    let p8 = PegV::any2(PegV::word("<"@), p7);
    let p9 = PegV::any2(PegV::word(">="@), p8);
    let p10 = PegV::any2(PegV::word("<="@), p9);
    let p11 = PegV::any2(PegV::word("!="@), p10);
    lemma_or(PegV::word("-"@), PegV::word("&"@), s, i, depth);
    lemma_or(PegV::word("+"@), p2, s, i, depth);
    lemma_or(PegV::word("*"@), p3, s, i, depth);
    lemma_or(PegV::word("||"@), p4, s, i, depth);
    lemma_or(PegV::word("&&"@), p5, s, i, depth);
    lemma_or(PegV::word(">"@), p6, s, i, depth);
    lemma_or(PegV::word("<"@), p7, s, i, depth);
    lemma_or(PegV::word(">="@), p8, s, i, depth);
    lemma_or(PegV::word("<="@), p9, s, i, depth);
    lemma_or(PegV::word("!="@), p10, s, i, depth);
    lemma_or(PegV::word("=="@), p11, s, i, depth);
    assert(grammar(Rule::Op) == PegV::any2(PegV::word("=="@), p11));
}

/// Where operators stand, the longest of them is read; where none stands, none is read.
pub proof fn operators_are_read_whole(s: Seq<char>, i: int, depth: nat)
    requires
        0 <= i <= s.len(),
    ensures
        ({
            let at = skipped(s, i);
            match matched(grammar(Rule::Op), s, i, depth) {
                MatchV::Done(j, _) => {
                    &&& op_of(slice(s, at, j)) is Some
                    &&& forall|k: int| j < k <= s.len() ==> op_of(#[trigger] slice(s, at, k)) is None
                },
                MatchV::Fail => forall|k: int|
                    at <= k <= s.len() ==> op_of(#[trigger] slice(s, at, k)) is None,
                MatchV::Deep => false,
            }
        }),
{
    let at = skipped(s, i);
    blanks_and_comments_are_skipped(s, i);
    lemma_op_match(s, i, depth);
    assert forall|k: int| at <= k <= s.len() implies (op_of(#[trigger] slice(s, at, k)) is Some
        <==> (k == at + 1 && short_stands(s, at)) || (k == at + 2 && long_stands(s, at))) by {
        lemma_op_slice(s, at, k);
    }
}

} // verus!
