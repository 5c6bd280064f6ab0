//! From source text to abstract syntax.

use vstd::prelude::*;
use crate::ast::{File, FileV};
use crate::parser::grammar::{Peg, PegV};
use crate::parser::item::{file_at, file_of_tree};
use crate::parser::scan::{characters, match_peg, matched, Match, MatchV};
use crate::parser::tree::{nodes_of, ParseError, Rule};

verus! {

/// How deep the rules of the grammar may nest: deeper than any machine can.
pub const RULE_NESTING: usize = usize::MAX;

/// Why a text is not a source file.
#[derive(Clone, Copy, Debug, PartialEq, Eq, Structural)]
pub enum SourceError {
    /// The text does not match the grammar.
    Syntax,
    /// The rules of the grammar are nested too deeply.
    TooDeep,
    /// The text matches the grammar, but has no meaning.
    Meaning(ParseError),
}

/// The file that a text stands for, with rules nested at most `depth` deep.
pub open spec fn source_file(s: Seq<char>, depth: nat) -> Result<FileV, SourceError> {
    match matched(PegV::Node(Rule::File), s, 0, depth) {
        MatchV::Fail => Err(SourceError::Syntax),
        MatchV::Deep => Err(SourceError::TooDeep),
        MatchV::Done(_, nodes) => match file_at(nodes[0]) {
            Ok(f) => Ok(f),
            Err(x) => Err(SourceError::Meaning(x)),
        },
    }
}

/// Parse an entire source file into an AST.
pub fn parse_file(src: &str) -> (r: Result<File, SourceError>)
    ensures
        match r {
            Ok(f) => source_file(src@, RULE_NESTING as nat) == Ok::<FileV, SourceError>(f@),
            Err(x) => source_file(src@, RULE_NESTING as nat) == Err::<FileV, SourceError>(x),
        },
{
    let s = characters(src);
    let root = Peg::Node(Rule::File);
    match match_peg(&root, &s, 0, RULE_NESTING) {
        Match::Fail => Err(SourceError::Syntax),
        Match::Deep => Err(SourceError::TooDeep),
        Match::Done(_, nodes) => {
            proof {
                assert(nodes_of(nodes@).len() == 1);
                assert(nodes_of(nodes@)[0] == nodes@[0]@);
            }
            match file_of_tree(&nodes[0]) {
                Ok(f) => Ok(f),
                Err(x) => Err(SourceError::Meaning(x)),
            }
        },
    }
}

} // verus!
