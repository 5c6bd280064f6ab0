//! What the parts of a source text begin and end with.

use vstd::prelude::*;
use crate::parser::grammar::{grammar, PegV};
use crate::parser::scan::{match_ends_in_text, matched, skipped, slice, word_at, MatchV};
use crate::parser::scan_laws::blanks_and_comments_are_skipped;
use crate::parser::tree::Rule;
use crate::text::lower;

verus! {

/// The keyword that a part begins with, and whether it is read in any case.
pub open spec fn opening(rule: Rule) -> Option<(Seq<char>, bool)> {
    match rule {
        Rule::Import => Some(("import"@, true)),
        Rule::ConstDecl => Some(("const"@, true)),
        Rule::StructDecl => Some(("struct"@, true)),
        Rule::Component => Some(("component"@, true)),
        Rule::Computation => Some(("computation"@, true)),
        Rule::Constraint => Some(("constraint"@, true)),
        Rule::QueryStmt => Some(("query"@, true)),
        Rule::ForLoop => Some(("for"@, false)),
        Rule::IfStmt => Some(("if"@, false)),
        Rule::ReturnStmt => Some(("return"@, false)),
        Rule::MapTy => Some(("map"@, false)),
        Rule::Block => Some(("{"@, false)),
        Rule::TupleTy | Rule::CallTail => Some(("("@, false)),
        Rule::ArrayTy | Rule::IndexTail | Rule::MapIndexTail => Some(("["@, false)),
        Rule::FieldTail => Some(("."@, false)),
        _ => None,
    }
}

/// The mark that a part ends with.
pub open spec fn closing(rule: Rule) -> Option<Seq<char>> {
    match rule {
        Rule::Import
        | Rule::ConstDecl
        | Rule::VarDecl
        | Rule::Assign
        | Rule::AndAssign
        | Rule::CallStmt
        | Rule::ReturnStmt => Some(";"@),
        Rule::StructDecl | Rule::Component | Rule::Block => Some("}"@),
        Rule::MapTy => Some(">"@),
        Rule::TupleTy | Rule::CallTail => Some(")"@),
        Rule::ArrayTy | Rule::IndexTail | Rule::MapIndexTail => Some("]"@),
        _ => None,
    }
}

/// The word that a parsing expression ends with.
spec fn last_word(p: PegV) -> Option<Seq<char>>
    decreases p,
{
    match p {
        PegV::Word(w, false) => Some(w),
        PegV::Then(_, b) => last_word(*b),
        _ => None,
    }
}

proof fn lemma_last_word(p: PegV, s: Seq<char>, i: int, depth: nat)
    requires
        0 <= i <= s.len(),
        last_word(p) is Some,
    ensures
        match matched(p, s, i, depth) {
            MatchV::Done(j, _) => {
                let w = last_word(p)->0;
                i <= j - w.len() && j <= s.len() && word_at(s, j - w.len(), w, false)
            },
            _ => true,
        },
    decreases p,
{
    blanks_and_comments_are_skipped(s, i);
    if let PegV::Then(a, b) = p {
        match_ends_in_text(*a, s, i, depth);
        if let MatchV::Done(j, _) = matched(*a, s, i, depth) {
            lemma_last_word(*b, s, j, depth);
        }
    }
}

spec fn first_word(p: PegV) -> Option<(Seq<char>, bool)> {
    match p {
        PegV::Then(a, _) => match *a {
            PegV::Word(w, any_case) => Some((w, any_case)),
            _ => None,
        },
        _ => None,
    }
}

proof fn lemma_first_word(p: PegV, s: Seq<char>, i: int, depth: nat)
    requires
        0 <= i <= s.len(),
        first_word(p) is Some,
    ensures
        match matched(p, s, i, depth) {
            MatchV::Done(j, _) => {
                let (w, any_case) = first_word(p)->0;
                skipped(s, i) + w.len() <= j <= s.len() && word_at(s, skipped(s, i), w, any_case)
            },
            _ => true,
        },
{
    if let PegV::Then(a, b) = p {
        match_ends_in_text(*a, s, i, depth);
        assert(matched(*a, s, i, depth) is Fail || matched(*a, s, i, depth) is Done);
        if let MatchV::Done(j, _) = matched(*a, s, i, depth) {
            match_ends_in_text(*b, s, j, depth);
        }
    }
}

proof fn lemma_openings(rule: Rule)
    requires
        opening(rule) is Some,
    ensures
        first_word(grammar(rule)) == opening(rule),
{
}

proof fn lemma_closings(rule: Rule)
    requires
        closing(rule) is Some,
    ensures
        last_word(grammar(rule)) == closing(rule),
{
    reveal_with_fuel(last_word, 9);
}

proof fn lemma_text_before(s: Seq<char>, at: int, j: int, w: Seq<char>, any_case: bool)
    requires
        0 <= at,
        at + w.len() <= j <= s.len(),
        word_at(s, at, w, any_case),
    ensures
        ({
            let head = slice(s, at, j).take(w.len() as int);
            if any_case {
                lower(head) == w
            } else {
                head == w
            }
        }),
{
    let head = slice(s, at, j).take(w.len() as int);
    assert forall|k: int| 0 <= k < w.len() implies head[k] == s[at + k] by {}
    if any_case {
        assert forall|k: int| 0 <= k < w.len() implies lower(head)[k] == w[k] by {
            assert(head[k] == s[at + k]);
        }
        assert(lower(head) =~= w);
    } else {
        assert forall|k: int| 0 <= k < w.len() implies head[k] == w[k] by {
            assert(head[k] == s[at + k]);
        }
        assert(head =~= w);
    }
}

/// What is read as a declaration, a statement, a type or a tail begins with its keyword or opening
/// mark; keywords of declarations are read in any mix of upper and lower case.
pub proof fn parts_begin_with_their_keyword(rule: Rule, s: Seq<char>, i: int, depth: nat)
    requires
        0 <= i <= s.len(),
        opening(rule) is Some,
    ensures
        match matched(PegV::Node(rule), s, i, depth) {
            MatchV::Done(_, nodes) => {
                let (w, any_case) = opening(rule)->0;
                let head = nodes[0].text.take(w.len() as int);
                &&& nodes.len() == 1
                &&& nodes[0].rule == rule
                &&& nodes[0].text.len() >= w.len()
                &&& if any_case {
                    lower(head) == w
                } else {
                    head == w
                }
            },
            _ => true,
        },
{
    if depth > 0 {
        let below = (depth - 1) as nat;
        lemma_openings(rule);
        lemma_first_word(grammar(rule), s, i, below);
        blanks_and_comments_are_skipped(s, i);
        if let MatchV::Done(j, _) = matched(grammar(rule), s, i, below) {
            let (w, any_case) = opening(rule)->0;
            lemma_text_before(s, skipped(s, i), j, w, any_case);
        }
    }
}

/// What is read as a declaration, a statement, a type or a tail ends with its closing mark.
pub proof fn parts_end_with_their_mark(rule: Rule, s: Seq<char>, i: int, depth: nat)
    requires
        0 <= i <= s.len(),
        closing(rule) is Some,
    ensures
        match matched(PegV::Node(rule), s, i, depth) {
            MatchV::Done(j, _) => {
                let w = closing(rule)->0;
                i <= j - w.len() && slice(s, j - w.len(), j) == w
            },
            _ => true,
        },
{
    if depth > 0 {
        let below = (depth - 1) as nat;
        lemma_closings(rule);
        lemma_last_word(grammar(rule), s, i, below);
        if let MatchV::Done(j, _) = matched(grammar(rule), s, i, below) {
            let w = closing(rule)->0;
            lemma_text_before(s, j - w.len(), j, w, false);
            let part = slice(s, j - w.len(), j);
            assert(part.take(w.len() as int) =~= part);
        }
    }
}

} // verus!
