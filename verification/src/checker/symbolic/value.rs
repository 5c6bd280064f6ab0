//! Scalar values with an optional byte-wise view.

use vstd::prelude::*;
use crate::checker::symbolic::expr::{clone_terms, terms_of, SymExpr, Term};

verus! {

/// The bytes of a machine word, least significant first.
#[derive(Debug, PartialEq, Eq)]
pub struct SymWord {
    pub bytes: Vec<SymExpr>,
}

impl SymWord {
    /// A word of the given bytes.
    pub fn new(bytes: Vec<SymExpr>) -> (r: Self)
        ensures
            r.bytes == bytes,
    {
        SymWord { bytes }
    }
}

/// A scalar value: its expression and, for words, its bytes.
#[derive(Debug, PartialEq, Eq)]
pub struct SymValue {
    pub surface: SymExpr,
    pub word: Option<SymWord>,
}

/// Mathematical model of [`SymValue`].
pub struct ValueV {
    pub surface: Term,
    pub word: Option<Seq<Term>>,
}

impl View for SymValue {
    type V = ValueV;

    open spec fn view(&self) -> ValueV {
        ValueV {
            surface: self.surface@,
            word: match self.word {
                Some(w) => Some(terms_of(w.bytes@)),
                None => None,
            },
        }
    }
}

/// A value without bytes.
pub open spec fn plain_value(t: Term) -> ValueV {
    ValueV { surface: t, word: None }
}

impl Clone for SymValue {
    fn clone(&self) -> (r: Self)
        ensures
            r@ == self@,
    {
        SymValue {
            surface: self.surface.clone(),
            word: match &self.word {
                Some(w) => Some(SymWord { bytes: clone_terms(&w.bytes) }),
                None => None,
            },
        }
    }
}

impl SymValue {
    /// A value without bytes.
    pub fn plain(surface: SymExpr) -> (r: Self)
        ensures
            r@ == plain_value(surface@),
    {
        SymValue { surface, word: None }
    }

    /// A value with bytes.
    pub fn with_word(surface: SymExpr, bytes: Vec<SymExpr>) -> (r: Self)
        ensures
            r@ == (ValueV { surface: surface@, word: Some(terms_of(bytes@)) }),
    {
        SymValue { surface, word: Some(SymWord { bytes }) }
    }

    /// The bytes, if the value has them.
    pub fn word_bytes(&self) -> (r: Option<&Vec<SymExpr>>)
        ensures
            match r {
                Some(b) => self@.word == Some(terms_of(b@)),
                None => self@.word is None,
            },
    {
        match &self.word {
            Some(w) => Some(&w.bytes),
            None => None,
        }
    }
}

} // verus!
