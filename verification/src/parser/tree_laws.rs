//! Every syntax tree of a source text has the children that its rules give it.

use vstd::prelude::*;
use crate::parser::grammar::{grammar, PegV};
use crate::parser::reading_laws::{all_regular, assertion_word, lemma_regular_at, regular};
use crate::parser::scan::{is_name_char, match_ends_in_text, matched, skipped, slice, MatchV};
use crate::parser::scan_laws::{
    blanks_and_comments_are_skipped, lemma_or, words_are_read_whole,
};
use crate::parser::tree::{Rule, SyntaxNodeV};
use crate::text::trim_start;

verus! {

/// The number of nodes that a parsing expression yields, where that is fixed.
spec fn count(p: PegV) -> Option<nat>
    decreases p,
{
    match p {
        PegV::Node(_) => Some(1),
        PegV::Then(a, b) => match (count(*a), count(*b)) {
            (Some(m), Some(n)) => Some(m + n),
            _ => None,
        },
        PegV::Or(a, b) => if count(*a) == count(*b) {
            count(*a)
        } else {
            None
        },
        PegV::Many(_) => None,
        _ => Some(0),
    }
}

/// The rule of the node at a position, where that is fixed.
spec fn kind_at(p: PegV, k: int) -> Option<Rule>
    decreases p,
{
    match p {
        PegV::Node(r) => if k == 0 {
            Some(r)
        } else {
            None
        },
        PegV::Then(a, b) => match count(*a) {
            Some(n) => if k < n {
                kind_at(*a, k)
            } else {
                kind_at(*b, k - n)
            },
            None => None,
        },
        _ => None,
    }
}

proof fn lemma_count(p: PegV, s: Seq<char>, i: int, depth: nat, k: int)
    ensures
        match matched(p, s, i, depth) {
            MatchV::Done(_, xs) => {
                &&& count(p) is Some ==> xs.len() == count(p)->0
                &&& 0 <= k && kind_at(p, k) is Some ==> k < xs.len() && xs[k].rule == kind_at(
                    p,
                    k,
                )->0
            },
            _ => true,
        },
    decreases p,
{
    match p {
        PegV::Then(a, b) => {
            lemma_count(*a, s, i, depth, k);
            if let MatchV::Done(j, xs) = matched(*a, s, i, depth) {
                lemma_count(*b, s, j, depth, k - xs.len());
            }
        },
        PegV::Or(a, b) => {
            lemma_count(*a, s, i, depth, k);
            lemma_count(*b, s, i, depth, k);
        },
        _ => {},
    }
}

proof fn lemma_all_from(kids: Seq<SyntaxNodeV>, i: int)
    requires
        0 <= i <= kids.len(),
        forall|k: int| i <= k < kids.len() ==> regular(#[trigger] kids[k]),
    ensures
        all_regular(kids, i),
    decreases kids.len() - i,
{
    if i < kids.len() {
        lemma_all_from(kids, i + 1);
    }
}

proof fn lemma_all_both(xs: Seq<SyntaxNodeV>, ys: Seq<SyntaxNodeV>)
    requires
        all_regular(xs, 0),
        all_regular(ys, 0),
    ensures
        all_regular(xs + ys, 0),
{
    let both = xs + ys;
    assert forall|k: int| 0 <= k < both.len() implies regular(#[trigger] both[k]) by {
        if k < xs.len() {
            lemma_regular_at(xs, 0, k);
        } else {
            lemma_regular_at(ys, 0, k - xs.len());
        }
    }
    lemma_all_from(both, 0);
}

/// The names behind the first one of a path.
proof fn lemma_segments(s: Seq<char>, i: int, depth: nat)
    requires
        0 <= i <= s.len(),
    ensures
        match matched(
            PegV::many(PegV::all2(PegV::word("::"@), PegV::node(Rule::Ident))),
            s,
            i,
            depth,
        ) {
            MatchV::Done(_, xs) => forall|k: int|
                0 <= k < xs.len() ==> (#[trigger] xs[k]).rule == Rule::Ident,
            _ => true,
        },
    decreases s.len() - i,
{
    let one = PegV::all2(PegV::word("::"@), PegV::node(Rule::Ident));
    let all = PegV::many(one);
    match_ends_in_text(one, s, i, depth);
    reveal_with_fuel(count, 3);
    reveal_with_fuel(kind_at, 3);
    lemma_count(one, s, i, depth, 0);
    if let MatchV::Done(j, xs) = matched(one, s, i, depth) {
        if i < j <= s.len() {
            lemma_segments(s, j, depth);
            if let MatchV::Done(_, ys) = matched(all, s, j, depth) {
                assert forall|k: int| 0 <= k < (xs + ys).len() implies (#[trigger] (xs
                    + ys)[k]).rule == Rule::Ident by {
                    if k >= xs.len() {
                        assert((xs + ys)[k] == ys[k - xs.len()]);
                    }
                }
            }
        }
    }
}

proof fn lemma_path_shape(s: Seq<char>, i: int, depth: nat)
    requires
        0 <= i <= s.len(),
    ensures
        match matched(grammar(Rule::Path), s, i, depth) {
            MatchV::Done(_, xs) => forall|k: int|
                0 <= k < xs.len() ==> (#[trigger] xs[k]).rule == Rule::Ident,
            _ => true,
        },
{
    let first = PegV::node(Rule::Ident);
    let rest = PegV::many(PegV::all2(PegV::word("::"@), PegV::node(Rule::Ident)));
    assert(grammar(Rule::Path) == PegV::all2(first, rest));
    match_ends_in_text(first, s, i, depth);
    lemma_count(first, s, i, depth, 0);
    if let MatchV::Done(j, xs) = matched(first, s, i, depth) {
        lemma_segments(s, j, depth);
        if let MatchV::Done(_, ys) = matched(rest, s, j, depth) {
            assert forall|k: int| 0 <= k < (xs + ys).len() implies (#[trigger] (xs + ys)[k]).rule
                == Rule::Ident by {
                if k >= xs.len() {
                    assert((xs + ys)[k] == ys[k - xs.len()]);
                }
            }
        }
    }
}

/// An optional part with one node.
proof fn lemma_maybe_one(p: PegV, r: Rule, s: Seq<char>, i: int, depth: nat)
    requires
        count(p) == Some(1nat),
        kind_at(p, 0) == Some(r),
    ensures
        match matched(PegV::maybe(p), s, i, depth) {
            MatchV::Done(_, xs) => xs.len() <= 1 && (xs.len() == 1 ==> xs[0].rule == r),
            _ => true,
        },
{
    lemma_count(p, s, i, depth, 0);
    assert(matched(PegV::Empty, s, i, depth) == MatchV::Done(i, seq![]));
}

proof fn lemma_call_tail_shape(s: Seq<char>, i: int, depth: nat)
    ensures
        match matched(grammar(Rule::CallTail), s, i, depth) {
            MatchV::Done(_, xs) => xs.len() <= 1 && (xs.len() == 1 ==> xs[0].rule == Rule::ArgList),
            _ => true,
        },
{
    let list = PegV::node(Rule::ArgList);
    let rest = PegV::all2(PegV::maybe(list), PegV::word(")"@));
    assert(grammar(Rule::CallTail) == PegV::all2(PegV::word("("@), rest));
    lemma_count(PegV::word("("@), s, i, depth, 0);
    if let MatchV::Done(j, _) = matched(PegV::word("("@), s, i, depth) {
        lemma_maybe_one(list, Rule::ArgList, s, j, depth);
        if let MatchV::Done(k, xs) = matched(PegV::maybe(list), s, j, depth) {
            lemma_count(PegV::word(")"@), s, k, depth, 0);
            if let MatchV::Done(l, ys) = matched(PegV::word(")"@), s, k, depth) {
                assert(matched(rest, s, j, depth) == MatchV::Done(l, xs + ys));
                let none = Seq::<SyntaxNodeV>::empty();
                assert(none + (xs + ys) =~= xs);
            } else {
                assert(!(matched(rest, s, j, depth) is Done));
            }
        } else {
            assert(!(matched(rest, s, j, depth) is Done));
        }
    }
}

proof fn lemma_if_shape(s: Seq<char>, i: int, depth: nat)
    ensures
        match matched(grammar(Rule::IfStmt), s, i, depth) {
            MatchV::Done(_, xs) => 2 <= xs.len() <= 3 && xs[1].rule == Rule::Block && (xs.len() == 3
                ==> xs[2].rule == Rule::Block),
            _ => true,
        },
{
    let head = PegV::word("if"@);
    let cond = PegV::node(Rule::Expr);
    let block = PegV::node(Rule::Block);
    let other = PegV::all2(PegV::word("else"@), block);
    let r3 = PegV::all2(block, PegV::maybe(other));
    let r2 = PegV::all2(cond, r3);
    assert(grammar(Rule::IfStmt) == PegV::all2(head, r2));
    reveal_with_fuel(count, 3);
    reveal_with_fuel(kind_at, 3);
    lemma_count(head, s, i, depth, 0);
    if let MatchV::Done(a, _) = matched(head, s, i, depth) {
        lemma_count(cond, s, a, depth, 0);
        if let MatchV::Done(b, xs) = matched(cond, s, a, depth) {
            lemma_count(block, s, b, depth, 0);
            if let MatchV::Done(c, ys) = matched(block, s, b, depth) {
                lemma_maybe_one(other, Rule::Block, s, c, depth);
                if let MatchV::Done(d, zs) = matched(PegV::maybe(other), s, c, depth) {
                    assert(matched(r3, s, b, depth) == MatchV::Done(d, ys + zs));
                    assert(matched(r2, s, a, depth) == MatchV::Done(d, xs + (ys + zs)));
                    assert((xs + (ys + zs))[1] == ys[0]);
                    if zs.len() == 1 {
                        assert((xs + (ys + zs))[2] == zs[0]);
                    }
                    let none = Seq::<SyntaxNodeV>::empty();
                    assert(none + (xs + (ys + zs)) =~= xs + (ys + zs));
                }
            }
        }
    }
}

/// The word stands at the beginning of the text, and no name goes on behind it.
spec fn begins_with_word(text: Seq<char>, w: Seq<char>) -> bool {
    &&& w.len() <= text.len()
    &&& text.take(w.len() as int) == w
    &&& text.len() > w.len() ==> !is_name_char(text[w.len() as int])
}

proof fn lemma_begins(s: Seq<char>, i: int, w: Seq<char>, depth: nat, j: int)
    requires
        0 <= i <= s.len(),
        w.len() > 0,
        is_name_char(w.last()),
        matched(PegV::word(w), s, i, depth) is Done,
        matched(PegV::word(w), s, i, depth)->Done_0 <= j <= s.len(),
    ensures
        begins_with_word(slice(s, skipped(s, i), j), w),
{
    let at = skipped(s, i);
    blanks_and_comments_are_skipped(s, i);
    words_are_read_whole(s, i, w, depth);
    let text = slice(s, at, j);
    assert(slice(s, at, at + w.len()) == w);
    assert(text.take(w.len() as int) =~= w) by {
        assert(text.take(w.len() as int) =~= slice(s, at, at + w.len()));
    }
}

proof fn lemma_assert_texts()
    ensures
        "assert_range"@ == seq!['a', 's', 's', 'e', 'r', 't', '_', 'r', 'a', 'n', 'g', 'e'],
        "assert_zero"@ == seq!['a', 's', 's', 'e', 'r', 't', '_', 'z', 'e', 'r', 'o'],
        "assert_eq"@ == seq!['a', 's', 's', 'e', 'r', 't', '_', 'e', 'q'],
        "assert_bool"@ == seq!['a', 's', 's', 'e', 'r', 't', '_', 'b', 'o', 'o', 'l'],
        "assert"@ == seq!['a', 's', 's', 'e', 'r', 't'],
{
    reveal_strlit("assert_range");
    reveal_strlit("assert_zero");
    reveal_strlit("assert_eq");
    reveal_strlit("assert_bool");
    reveal_strlit("assert");
    assert("assert_range"@ =~= seq!['a', 's', 's', 'e', 'r', 't', '_', 'r', 'a', 'n', 'g', 'e']);
    assert("assert_zero"@ =~= seq!['a', 's', 's', 'e', 'r', 't', '_', 'z', 'e', 'r', 'o']);
    assert("assert_eq"@ =~= seq!['a', 's', 's', 'e', 'r', 't', '_', 'e', 'q']);
    assert("assert_bool"@ =~= seq!['a', 's', 's', 'e', 'r', 't', '_', 'b', 'o', 'o', 'l']);
    assert("assert"@ =~= seq!['a', 's', 's', 'e', 'r', 't']);
}

proof fn lemma_range_word(text: Seq<char>)
    requires
        begins_with_word(text, "assert_range"@),
    ensures
        assertion_word(text) == "assert_range"@,
{
    lemma_assert_texts();
    let w = "assert_range"@;
    assert(text.take(12)[0] == text[0]);
    assert(trim_start(text) == text);
    assert(w =~= text.subrange(0, 12));
}

proof fn lemma_other_word(text: Seq<char>, w: Seq<char>)
    requires
        begins_with_word(text, w),
        w == "assert_zero"@ || w == "assert_eq"@ || w == "assert_bool"@ || w == "assert"@,
    ensures
        assertion_word(text) != "assert_range"@,
{
    lemma_assert_texts();
    assert(text.take(w.len() as int)[0] == text[0]);
    assert(trim_start(text) == text);
    let r = "assert_range"@;
    assert("assert_zero"@.len() == 11);
    assert(r.len() == 12);
    if r.is_prefix_of(text) {
        assert(r =~= text.subrange(0, 12));
        assert(r[6] == text[6]);
        assert(r[7] == text[7]);
        if w.len() > 7 {
            assert(text.take(w.len() as int)[7] == text[7]);
        } else {
            assert(is_name_char('_'));
        }
    }
}

proof fn lemma_bool_shape(s: Seq<char>, i: int, depth: nat)
    requires
        0 <= i <= s.len(),
    ensures
        match matched(grammar(Rule::Bool), s, i, depth) {
            MatchV::Done(j, _) => {
                let text = slice(s, skipped(s, i), j);
                text == "true"@ || text == "false"@
            },
            _ => true,
        },
{
    reveal_strlit("true");
    reveal_strlit("false");
    assert("true"@.len() == 4 && "false"@.len() == 5);
    lemma_or(PegV::word("true"@), PegV::word("false"@), s, i, depth);
    assert(grammar(Rule::Bool) == PegV::any2(PegV::word("true"@), PegV::word("false"@)));
    words_are_read_whole(s, i, "true"@, depth);
    words_are_read_whole(s, i, "false"@, depth);
}

/// The node of an assertion has the children that its word asks for.
spec fn asserts(text: Seq<char>, xs: Seq<SyntaxNodeV>) -> bool {
    if assertion_word(text) == "assert_range"@ {
        xs.len() == 2 && xs[0].rule == Rule::Expr && xs[1].rule == Rule::TypeRef
    } else {
        xs.len() == 1 && xs[0].rule == Rule::ArgList
    }
}

proof fn lemma_assert_shape(s: Seq<char>, i: int, depth: nat)
    requires
        0 <= i <= s.len(),
    ensures
        match matched(grammar(Rule::AssertStmt), s, i, depth) {
            MatchV::Done(j, xs) => asserts(slice(s, skipped(s, i), j), xs),
            _ => true,
        },
{
    let zero = PegV::word("assert_zero"@);
    let eq = PegV::word("assert_eq"@);
    let boolean = PegV::word("assert_bool"@);
    let plain = PegV::word("assert"@);
    let words = PegV::any4(zero, eq, boolean, plain);
    let range = PegV::word("assert_range"@);
    let range_rest = PegV::all6(
        PegV::word("("@),
        PegV::node(Rule::Expr),
        PegV::word(","@),
        PegV::node(Rule::TypeRef),
        PegV::word(")"@),
        PegV::word(";"@),
    );
    let rest = PegV::all4(
        PegV::word("("@),
        PegV::node(Rule::ArgList),
        PegV::word(")"@),
        PegV::word(";"@),
    );
    let a = PegV::all2(range, range_rest);
    let b = PegV::all2(words, rest);
    assert(grammar(Rule::AssertStmt) == PegV::any2(a, b));
    lemma_or(a, b, s, i, depth);
    reveal_with_fuel(count, 9);
    reveal_with_fuel(kind_at, 9);
    assert(count(a) == Some(2nat));
    assert(kind_at(a, 0) == Some(Rule::Expr));
    assert(kind_at(a, 1) == Some(Rule::TypeRef));
    assert(count(words) == Some(0nat));
    assert(count(b) == Some(1nat));
    assert(kind_at(b, 0) == Some(Rule::ArgList));
    lemma_count(a, s, i, depth, 0);
    lemma_count(a, s, i, depth, 1);
    lemma_count(b, s, i, depth, 0);
    lemma_assert_texts();
    if let MatchV::Done(j, xs) = matched(a, s, i, depth) {
        match_ends_in_text(range, s, i, depth);
        let k = matched(range, s, i, depth)->Done_0;
        match_ends_in_text(range_rest, s, k, depth);
        lemma_begins(s, i, "assert_range"@, depth, j);
        lemma_range_word(slice(s, skipped(s, i), j));
    } else if let MatchV::Done(j, xs) = matched(b, s, i, depth) {
        match_ends_in_text(words, s, i, depth);
        let k = matched(words, s, i, depth)->Done_0;
        match_ends_in_text(rest, s, k, depth);
        let w2 = PegV::any2(boolean, plain);
        let w3 = PegV::any2(eq, w2);
        lemma_or(boolean, plain, s, i, depth);
        lemma_or(eq, w2, s, i, depth);
        lemma_or(zero, w3, s, i, depth);
        assert(words == PegV::any2(zero, w3));
        let w = if matched(zero, s, i, depth) is Done {
            "assert_zero"@
        } else if matched(eq, s, i, depth) is Done {
            "assert_eq"@
        } else if matched(boolean, s, i, depth) is Done {
            "assert_bool"@
        } else {
            "assert"@
        };
        assert(matched(PegV::word(w), s, i, depth) == matched(words, s, i, depth));
        lemma_begins(s, i, w, depth, j);
        lemma_other_word(slice(s, skipped(s, i), j), w);
    }
}

proof fn lemma_shape(rule: Rule, s: Seq<char>, i: int, depth: nat)
    requires
        0 <= i <= s.len(),
    ensures
        match matched(grammar(rule), s, i, depth) {
            MatchV::Done(j, inner) => all_regular(inner, 0) ==> regular(
                SyntaxNodeV { rule, text: slice(s, skipped(s, i), j), inner },
            ),
            _ => true,
        },
{
    let g = grammar(rule);
    match rule {
        Rule::Bool => lemma_bool_shape(s, i, depth),
        Rule::Path => lemma_path_shape(s, i, depth),
        Rule::CallTail => lemma_call_tail_shape(s, i, depth),
        Rule::IfStmt => lemma_if_shape(s, i, depth),
        Rule::AssertStmt => lemma_assert_shape(s, i, depth),
        _ => {
            lemma_counts(rule);
            lemma_count(g, s, i, depth, 0);
            lemma_count(g, s, i, depth, 1);
            lemma_count(g, s, i, depth, 2);
        },
    }
}

proof fn lemma_counts(rule: Rule)
    ensures
        ({
            let g = grammar(rule);
            match rule {
                Rule::Primary
                | Rule::FieldTail
                | Rule::IndexTail
                | Rule::TypeRef
                | Rule::ReturnStmt => count(g) == Some(1nat),
                Rule::CallStmt => count(g) == Some(1nat) && kind_at(g, 0) == Some(Rule::Call),
                Rule::MapIndexTail | Rule::ArrayTy | Rule::RangeExpr => count(g) == Some(2nat),
                Rule::Assign | Rule::AndAssign => count(g) == Some(2nat) && kind_at(g, 0) == Some(
                    Rule::LValue,
                ),
                Rule::MapTy => count(g) == Some(3nat),
                Rule::VarDecl => count(g) == Some(3nat) && kind_at(g, 1) == Some(Rule::Ident),
                Rule::ForLoop => count(g) == Some(3nat) && kind_at(g, 0) == Some(Rule::Ident)
                    && kind_at(g, 1) == Some(Rule::RangeExpr) && kind_at(g, 2) == Some(Rule::Block),
                Rule::Call => count(g) == Some(2nat) && kind_at(g, 0) == Some(Rule::LValue)
                    && kind_at(g, 1) == Some(Rule::CallTail),
                Rule::LValue => kind_at(g, 0) == Some(Rule::Path),
                Rule::Postfix => kind_at(g, 0) == Some(Rule::Primary),
                _ => true,
            }
        }),
{
    reveal_with_fuel(count, 9);
    reveal_with_fuel(kind_at, 9);
}

/// Every node that is read from a text has the children that its rule gives it, and so have those.
pub proof fn trees_are_regular(p: PegV, s: Seq<char>, i: int, depth: nat)
    requires
        0 <= i <= s.len(),
    ensures
        match matched(p, s, i, depth) {
            MatchV::Done(_, xs) => all_regular(xs, 0),
            _ => true,
        },
    decreases depth, p, s.len() - i,
{
    match p {
        PegV::Node(rule) => {
            if depth > 0 {
                let below = (depth - 1) as nat;
                trees_are_regular(grammar(rule), s, i, below);
                lemma_shape(rule, s, i, below);
                if let MatchV::Done(j, inner) = matched(grammar(rule), s, i, below) {
                    let n = SyntaxNodeV { rule, text: slice(s, skipped(s, i), j), inner };
                    assert(regular(n));
                    lemma_all_from(seq![n], 0);
                }
            }
        },
        PegV::Then(a, b) => {
            trees_are_regular(*a, s, i, depth);
            match_ends_in_text(*a, s, i, depth);
            if let MatchV::Done(j, xs) = matched(*a, s, i, depth) {
                trees_are_regular(*b, s, j, depth);
                if let MatchV::Done(_, ys) = matched(*b, s, j, depth) {
                    lemma_all_both(xs, ys);
                }
            }
        },
        PegV::Or(a, b) => {
            trees_are_regular(*a, s, i, depth);
            trees_are_regular(*b, s, i, depth);
        },
        PegV::Many(a) => {
            trees_are_regular(*a, s, i, depth);
            if let MatchV::Done(j, xs) = matched(*a, s, i, depth) {
                if i < j <= s.len() {
                    trees_are_regular(p, s, j, depth);
                    if let MatchV::Done(_, ys) = matched(p, s, j, depth) {
                        lemma_all_both(xs, ys);
                    }
                }
            }
        },
        _ => {},
    }
}

} // verus!
