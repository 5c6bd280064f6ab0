//! From text to syntax trees.

use vstd::prelude::*;
use crate::parser::grammar::{grammar, rule_peg, Peg, PegV};
use crate::parser::tree::{nodes_of, SyntaxNode, SyntaxNodeV};
use crate::text::lower_char;

verus! {

/// White space.
pub open spec fn is_blank(c: char) -> bool {
    c == ' ' || c == '\t' || c == '\r' || c == '\n'
}

/// A character that a name can begin with.
pub open spec fn is_letter(c: char) -> bool {
    ('a' <= c && c <= 'z') || ('A' <= c && c <= 'Z') || c == '_'
}

/// A decimal digit.
pub open spec fn is_figure(c: char) -> bool {
    '0' <= c && c <= '9'
}

/// A character that can stand inside a name.
pub open spec fn is_name_char(c: char) -> bool {
    is_letter(c) || is_figure(c)
}

/// The end of the line that `i` is on.
pub open spec fn line_end(s: Seq<char>, i: int) -> int
    decreases s.len() - i,
{
    if i < 0 || i >= s.len() || s[i] == '\n' {
        i
    } else {
        line_end(s, i + 1)
    }
}

proof fn lemma_line_end(s: Seq<char>, i: int)
    requires
        0 <= i <= s.len(),
    ensures
        i <= line_end(s, i) <= s.len(),
    decreases s.len() - i,
{
    if i < s.len() && s[i] != '\n' {
        lemma_line_end(s, i + 1);
    }
}

/// A comment begins at `i`.
pub open spec fn comment_at(s: Seq<char>, i: int) -> bool {
    i + 1 < s.len() && s[i] == '/' && s[i + 1] == '/'
}

/// The first position from `i` on that is neither white space nor in a comment.
pub open spec fn skipped(s: Seq<char>, i: int) -> int
    decreases s.len() - i,
{
    if i < 0 || i >= s.len() {
        i
    } else if is_blank(s[i]) {
        skipped(s, i + 1)
    } else if comment_at(s, i) && i < line_end(s, i + 2) <= s.len() {
        skipped(s, line_end(s, i + 2))
    } else {
        i
    }
}

proof fn lemma_skipped(s: Seq<char>, i: int)
    requires
        0 <= i <= s.len(),
    ensures
        i <= skipped(s, i) <= s.len(),
    decreases s.len() - i,
{
    if i < s.len() {
        if is_blank(s[i]) {
            lemma_skipped(s, i + 1);
        } else if comment_at(s, i) {
            lemma_line_end(s, i + 2);
            lemma_skipped(s, line_end(s, i + 2));
        }
    }
}

/// The end of the name characters from `i` on.
pub open spec fn name_end(s: Seq<char>, i: int) -> int
    decreases s.len() - i,
{
    if i < 0 || i >= s.len() || !is_name_char(s[i]) {
        i
    } else {
        name_end(s, i + 1)
    }
}

proof fn lemma_name_end(s: Seq<char>, i: int)
    requires
        0 <= i <= s.len(),
    ensures
        i <= name_end(s, i) <= s.len(),
    decreases s.len() - i,
{
    if i < s.len() && is_name_char(s[i]) {
        lemma_name_end(s, i + 1);
    }
}

/// The end of the digits from `i` on.
pub open spec fn figures_end(s: Seq<char>, i: int) -> int
    decreases s.len() - i,
{
    if i < 0 || i >= s.len() || !is_figure(s[i]) {
        i
    } else {
        figures_end(s, i + 1)
    }
}

proof fn lemma_figures_end(s: Seq<char>, i: int)
    requires
        0 <= i <= s.len(),
    ensures
        i <= figures_end(s, i) <= s.len(),
    decreases s.len() - i,
{
    if i < s.len() && is_figure(s[i]) {
        lemma_figures_end(s, i + 1);
    }
}

/// The word stands at `i`.
pub open spec fn word_at(s: Seq<char>, i: int, w: Seq<char>, any_case: bool) -> bool {
    &&& i + w.len() <= s.len()
    &&& forall|j: int|
        0 <= j < w.len() ==> (if any_case {
            lower_char(s[i + j])
        } else {
            s[i + j]
        }) == #[trigger] w[j]
}

/// The word at `i` is cut off in the middle of a name.
pub open spec fn cut_off(s: Seq<char>, i: int, w: Seq<char>) -> bool {
    w.len() > 0 && is_name_char(w.last()) && i + w.len() < s.len() && is_name_char(
        s[i + w.len()],
    )
}

/// What matching a parsing expression yields.
pub enum MatchV {
    /// The text does not match.
    Fail,
    /// The rules are nested too deeply.
    Deep,
    /// The text up to a position matches, with the nodes found in it.
    Done(int, Seq<SyntaxNodeV>),
}

/// The text from `i` up to `j`.
pub open spec fn slice(s: Seq<char>, i: int, j: int) -> Seq<char> {
    if 0 <= i <= j <= s.len() {
        s.subrange(i, j)
    } else {
        seq![]
    }
}

/// What matching `p` against the text from `i` on yields, with rules nested at most `depth` deep.
pub open spec fn matched(p: PegV, s: Seq<char>, i: int, depth: nat) -> MatchV
    decreases depth, p, s.len() - i,
{
    let at = skipped(s, i);
    match p {
        PegV::Word(w, any_case) => if word_at(s, at, w, any_case) && !cut_off(s, at, w) {
            MatchV::Done(at + w.len(), seq![])
        } else {
            MatchV::Fail
        },
        PegV::Name => if at < s.len() && is_letter(s[at]) {
            MatchV::Done(name_end(s, at), seq![])
        } else {
            MatchV::Fail
        },
        PegV::Digits => if at < s.len() && is_figure(s[at]) {
            MatchV::Done(figures_end(s, at), seq![])
        } else {
            MatchV::Fail
        },
        PegV::End => if at >= s.len() {
            MatchV::Done(at, seq![])
        } else {
            MatchV::Fail
        },
        PegV::Empty => MatchV::Done(i, seq![]),
        PegV::Never => MatchV::Fail,
        PegV::Node(rule) => if depth == 0 {
            MatchV::Deep
        } else {
            match matched(grammar(rule), s, i, (depth - 1) as nat) {
                MatchV::Done(j, inner) => MatchV::Done(
                    j,
                    seq![SyntaxNodeV { rule, text: slice(s, at, j), inner }],
                ),
                other => other,
            }
        },
        PegV::Then(a, b) => match matched(*a, s, i, depth) {
            MatchV::Done(j, xs) => match matched(*b, s, j, depth) {
                MatchV::Done(k, ys) => MatchV::Done(k, xs + ys),
                other => other,
            },
            other => other,
        },
        PegV::Or(a, b) => match matched(*a, s, i, depth) {
            MatchV::Fail => matched(*b, s, i, depth),
            other => other,
        },
        PegV::Many(a) => match matched(*a, s, i, depth) {
            MatchV::Deep => MatchV::Deep,
            MatchV::Fail => MatchV::Done(i, seq![]),
            MatchV::Done(j, xs) => if i < j <= s.len() {
                match matched(p, s, j, depth) {
                    MatchV::Done(k, ys) => MatchV::Done(k, xs + ys),
                    other => other,
                }
            } else {
                MatchV::Done(i, seq![])
            },
        },
    }
}

/// A match ends no earlier than it begins, and within the text.
pub proof fn match_ends_in_text(p: PegV, s: Seq<char>, i: int, depth: nat)
    requires
        0 <= i <= s.len(),
    ensures
        match matched(p, s, i, depth) {
            MatchV::Done(j, _) => i <= j <= s.len(),
            _ => true,
        },
    decreases depth, p, s.len() - i,
{
    lemma_skipped(s, i);
    let at = skipped(s, i);
    lemma_name_end(s, at);
    lemma_figures_end(s, at);
    match p {
        PegV::Node(rule) => {
            if depth > 0 {
                match_ends_in_text(grammar(rule), s, i, (depth - 1) as nat);
            }
        },
        PegV::Then(a, b) => {
            match_ends_in_text(*a, s, i, depth);
            if let MatchV::Done(j, _) = matched(*a, s, i, depth) {
                match_ends_in_text(*b, s, j, depth);
            }
        },
        PegV::Or(a, b) => {
            match_ends_in_text(*a, s, i, depth);
            match_ends_in_text(*b, s, i, depth);
        },
        PegV::Many(a) => {
            match_ends_in_text(*a, s, i, depth);
            if let MatchV::Done(j, _) = matched(*a, s, i, depth) {
                if i < j {
                    match_ends_in_text(p, s, j, depth);
                }
            }
        },
        _ => {},
    }
}

/// What does not stop at a bound on the nesting of rules is the same under every greater bound.
pub proof fn match_is_stable(p: PegV, s: Seq<char>, i: int, n: nat, k: nat)
    requires
        n <= k,
        !(matched(p, s, i, n) is Deep),
    ensures
        matched(p, s, i, k) == matched(p, s, i, n),
    decreases n, p, s.len() - i,
{
    match p {
        PegV::Node(rule) => match_is_stable(grammar(rule), s, i, (n - 1) as nat, (k - 1) as nat),
        PegV::Then(a, b) => {
            match_is_stable(*a, s, i, n, k);
            if let MatchV::Done(j, _) = matched(*a, s, i, n) {
                match_is_stable(*b, s, j, n, k);
            }
        },
        PegV::Or(a, b) => {
            match_is_stable(*a, s, i, n, k);
            if matched(*a, s, i, n) is Fail {
                match_is_stable(*b, s, i, n, k);
            }
        },
        PegV::Many(a) => {
            match_is_stable(*a, s, i, n, k);
            if let MatchV::Done(j, _) = matched(*a, s, i, n) {
                if i < j <= s.len() {
                    match_is_stable(p, s, j, n, k);
                }
            }
        },
        _ => {},
    }
}

/// What matching a parsing expression yields.
#[derive(Debug)]
pub enum Match {
    Fail,
    Deep,
    Done(usize, Vec<SyntaxNode>),
}

impl View for Match {
    type V = MatchV;

    open spec fn view(&self) -> MatchV {
        match self {
            Match::Fail => MatchV::Fail,
            Match::Deep => MatchV::Deep,
            Match::Done(j, xs) => MatchV::Done(*j as int, nodes_of(xs@)),
        }
    }
}

fn blank(c: char) -> (r: bool)
    ensures
        r == is_blank(c),
{
    c == ' ' || c == '\t' || c == '\r' || c == '\n'
}

fn letter(c: char) -> (r: bool)
    ensures
        r == is_letter(c),
{
    ('a' <= c && c <= 'z') || ('A' <= c && c <= 'Z') || c == '_'
}

fn figure(c: char) -> (r: bool)
    ensures
        r == is_figure(c),
{
    '0' <= c && c <= '9'
}

fn skip(s: &Vec<char>, i: usize) -> (r: usize)
    requires
        i <= s@.len(),
    ensures
        r == skipped(s@, i as int),
        i <= r <= s@.len(),
{
    proof {
        lemma_skipped(s@, i as int);
    }
    let n = s.len();
    let mut at: usize = i;
    #[verifier::loop_isolation(false)]
    while at < n
        invariant
            i <= at <= n,
            skipped(s@, i as int) == skipped(s@, at as int),
        decreases n - at,
    {
        if blank(s[at]) {
            at = at + 1;
        } else if at < n - 1 && s[at] == '/' && s[at + 1] == '/' {
            let ghost start = at as int;
            let ghost end = line_end(s@, at + 2);
            proof {
                lemma_line_end(s@, at + 2);
            }
            at = at + 2;
            #[verifier::loop_isolation(false)]
            while at < n && s[at] != '\n'
                invariant
                    start + 2 <= at <= n,
                    line_end(s@, at as int) == end,
                decreases n - at,
            {
                at = at + 1;
            }
        } else {
            return at;
        }
    }
    at
}

fn match_word(s: &Vec<char>, at: usize, w: &Vec<char>, any_case: bool) -> (r: bool)
    requires
        at <= s@.len(),
    ensures
        r == (word_at(s@, at as int, w@, any_case) && !cut_off(s@, at as int, w@)),
{
    let n = w.len();
    if n > s.len() - at {
        return false;
    }
    #[verifier::loop_isolation(false)]
    for j in 0..n
        invariant
            forall|k: int|
                0 <= k < j ==> (if any_case {
                    lower_char(s@[at + k])
                } else {
                    s@[at + k]
                }) == #[trigger] w@[k],
    {
        let c = s[at + j];
        let c = if any_case {
            crate::text::lower_of(c)
        } else {
            c
        };
        if c != w[j] {
            return false;
        }
    }
    if n > 0 && name_char(w[n - 1]) && n < s.len() - at && name_char(s[at + n]) {
        return false;
    }
    true
}

fn name_char(c: char) -> (r: bool)
    ensures
        r == is_name_char(c),
{
    letter(c) || figure(c)
}

fn end_of_name(s: &Vec<char>, i: usize) -> (r: usize)
    requires
        i <= s@.len(),
    ensures
        r == name_end(s@, i as int),
{
    let mut at: usize = i;
    #[verifier::loop_isolation(false)]
    while at < s.len() && name_char(s[at])
        invariant
            i <= at <= s@.len(),
            name_end(s@, i as int) == name_end(s@, at as int),
        decreases s@.len() - at,
    {
        at = at + 1;
    }
    at
}

fn end_of_figures(s: &Vec<char>, i: usize) -> (r: usize)
    requires
        i <= s@.len(),
    ensures
        r == figures_end(s@, i as int),
{
    let mut at: usize = i;
    #[verifier::loop_isolation(false)]
    while at < s.len() && figure(s[at])
        invariant
            i <= at <= s@.len(),
            figures_end(s@, i as int) == figures_end(s@, at as int),
        decreases s@.len() - at,
    {
        at = at + 1;
    }
    at
}

/// The characters of a text.
pub fn characters(s: &str) -> (r: Vec<char>)
    ensures
        r@ == s@,
{
    let n = s.unicode_len();
    let mut out: Vec<char> = Vec::new();
    #[verifier::loop_isolation(false)]
    for i in 0..n
        invariant
            out@ == s@.take(i as int),
    {
        out.push(s.get_char(i));
        proof {
            assert(s@.take(i + 1) =~= s@.take(i as int).push(s@[i as int]));
        }
    }
    proof {
        assert(s@.take(n as int) =~= s@);
    }
    out
}

fn text_between(s: &Vec<char>, i: usize, j: usize) -> (r: String)
    ensures
        r@ == slice(s@, i as int, j as int),
{
    let mut out = String::new();
    if i > j || j > s.len() {
        return out;
    }
    proof {
        assert(out@ =~= s@.subrange(i as int, i as int));
    }
    #[verifier::loop_isolation(false)]
    for k in i..j
        invariant
            out@ == s@.subrange(i as int, k as int),
    {
        out.push(s[k]);
        proof {
            assert(s@.subrange(i as int, k + 1) =~= s@.subrange(i as int, k as int).push(
                s@[k as int],
            ));
        }
    }
    out
}

fn no_matches() -> (r: Vec<SyntaxNode>)
    ensures
        nodes_of(r@) == Seq::<SyntaxNodeV>::empty(),
{
    let r: Vec<SyntaxNode> = Vec::new();
    proof {
        assert(nodes_of(r@) =~= Seq::<SyntaxNodeV>::empty());
    }
    r
}

fn joined_nodes(a: Vec<SyntaxNode>, b: Vec<SyntaxNode>) -> (r: Vec<SyntaxNode>)
    ensures
        nodes_of(r@) == nodes_of(a@) + nodes_of(b@),
{
    let mut out = a;
    let mut more = b;
    let ghost before = out@;
    let ghost added = more@;
    out.append(&mut more);
    proof {
        assert(nodes_of(out@) =~= nodes_of(before) + nodes_of(added));
    }
    out
}

fn match_token(p: &Peg, s: &Vec<char>, i: usize) -> (r: Match)
    requires
        i <= s@.len(),
        p is Word || p is Name || p is Digits || p is End,
    ensures
        r@ == matched(p@, s@, i as int, 0),
{
    let at = skip(s, i);
    let found: Option<usize> = match p {
        Peg::Word(w, any_case) => {
            let cs = characters(w.as_str());
            let n = s.len();
            if match_word(s, at, &cs, *any_case) {
                proof {
                    assert(at + cs@.len() <= n);
                }
                Some(at + cs.len())
            } else {
                None
            }
        },
        Peg::Name => if at < s.len() && letter(s[at]) {
            Some(end_of_name(s, at))
        } else {
            None
        },
        Peg::Digits => if at < s.len() && figure(s[at]) {
            Some(end_of_figures(s, at))
        } else {
            None
        },
        _ => if at >= s.len() {
            Some(at)
        } else {
            None
        },
    };
    match found {
        Some(j) => Match::Done(j, no_matches()),
        None => Match::Fail,
    }
}

/// Matches a parsing expression against the text from `i` on, with rules nested at most `depth`
/// deep.
pub fn match_peg(p: &Peg, s: &Vec<char>, i: usize, depth: usize) -> (r: Match)
    requires
        i <= s@.len(),
    ensures
        r@ == matched(p@, s@, i as int, depth as nat),
    decreases depth, p, s@.len() - i,
{
    proof {
        match_ends_in_text(p@, s@, i as int, depth as nat);
        lemma_skipped(s@, i as int);
    }
    match p {
        Peg::Empty => Match::Done(i, no_matches()),
        Peg::Never => Match::Fail,
        Peg::Node(rule) => {
            if depth == 0 {
                return Match::Deep;
            }
            let body = rule_peg(*rule);
            match match_peg(&body, s, i, depth - 1) {
                Match::Done(j, inner) => {
                    let text = text_between(s, skip(s, i), j);
                    let mut out: Vec<SyntaxNode> = Vec::new();
                    let node = SyntaxNode { rule: *rule, text, inner };
                    out.push(node);
                    proof {
                        assert(nodes_of(out@) =~= seq![node@]);
                    }
                    Match::Done(j, out)
                },
                other => other,
            }
        },
        Peg::Then(a, b) => {
            proof {
                match_ends_in_text(a@, s@, i as int, depth as nat);
            }
            match match_peg(a, s, i, depth) {
                Match::Done(j, xs) => match match_peg(b, s, j, depth) {
                    Match::Done(k, ys) => Match::Done(k, joined_nodes(xs, ys)),
                    other => other,
                },
                other => other,
            }
        },
        Peg::Or(a, b) => match match_peg(a, s, i, depth) {
            Match::Fail => match_peg(b, s, i, depth),
            other => other,
        },
        Peg::Many(a) => {
            proof {
                match_ends_in_text(a@, s@, i as int, depth as nat);
            }
            match match_peg(a, s, i, depth) {
                Match::Deep => Match::Deep,
                Match::Fail => Match::Done(i, no_matches()),
                Match::Done(j, xs) => if i < j {
                    match match_peg(p, s, j, depth) {
                        Match::Done(k, ys) => Match::Done(k, joined_nodes(xs, ys)),
                        other => other,
                    }
                } else {
                    Match::Done(i, no_matches())
                },
            }
        },
        _ => match_token(p, s, i),
    }
}

} // verus!
