//! What types mean.

use vstd::arithmetic::power2::{lemma_pow2_strictly_increases, pow2};
use vstd::prelude::*;
use crate::ast::{BinOp, TypeV};
use crate::checker::symbolic::context::{builtin_sort, combine_sorts, type_of_sort, ContextV, PathKind};
use crate::checker::symbolic::expr::SymType;
use crate::checker::symbolic::stmt_laws::is_of_sort;
use crate::text::{decimal, decimal_round_trip, is_digit, lower, lower_char, unsigned_value};

verus! {

proof fn lemma_lower_prefixed(c: char, w: nat)
    requires
        c == 'u' || c == 'i',
    ensures
        lower(seq![c] + decimal(w)) == seq![c] + decimal(w),
{
    decimal_round_trip(w);
    let s = seq![c] + decimal(w);
    assert forall|i: int| 0 <= i < s.len() implies lower_char(s[i]) == s[i] by {
        if i > 0 {
            assert(s[i] == decimal(w)[i - 1]);
            assert(is_digit(decimal(w)[i - 1]));
        }
    }
    assert(lower(s) =~= s);
}

proof fn lemma_plain_names()
    ensures
        "bool"@.len() == 4,
        "bool"@[0] == 'b',
        "field"@.len() == 5,
        "field"@[0] == 'f',
        "f"@[0] == 'f',
        "selector"@.len() == 8,
        "selector"@[0] == 's',
        "timestamp"@.len() == 9,
        "timestamp"@[0] == 't',
        "word"@.len() == 4,
        "word"@[0] == 'w',
        "u"@ == seq!['u'],
        "i"@ == seq!['i'],
        lower("bool"@) == "bool"@,
        lower("field"@) == "field"@,
{
    reveal_strlit("bool");
    reveal_strlit("field");
    reveal_strlit("f");
    reveal_strlit("selector");
    reveal_strlit("timestamp");
    reveal_strlit("word");
    reveal_strlit("u");
    reveal_strlit("i");
    assert("u"@ =~= seq!['u']);
    assert("i"@ =~= seq!['i']);
    assert(lower("bool"@) =~= "bool"@);
    assert(lower("field"@) =~= "field"@);
}

/// The builtin type of a sort has that sort: the width of an integer type is the number in its
/// name.
pub proof fn sorts_have_types(sty: SymType)
    ensures
        match type_of_sort(sty) {
            TypeV::Path { segments, .. } => segments.len() == 1 && builtin_sort(segments[0]) == Some(
                sty,
            ),
            _ => false,
        },
{
    lemma_plain_names();
    match sty {
        SymType::Bool => {},
        SymType::F => {},
        SymType::Uint(w) => {
            let n = "u"@ + decimal(w as nat);
            lemma_lower_prefixed('u', w as nat);
            decimal_round_trip(w as nat);
            assert(n[0] == 'u');
            assert(n.skip(1) =~= decimal(w as nat));
            lemma_reads_back(w as nat);
        },
        SymType::Int(w) => {
            let n = "i"@ + decimal(w as nat);
            lemma_lower_prefixed('i', w as nat);
            decimal_round_trip(w as nat);
            assert(n[0] == 'i');
            assert(n.skip(1) =~= decimal(w as nat));
            lemma_reads_back(w as nat);
        },
    }
}

proof fn lemma_reads_back(w: nat)
    requires
        w <= usize::MAX,
    ensures
        unsigned_value(decimal(w), usize::MAX as nat) == Some(w),
{
    decimal_round_trip(w);
    assert(is_digit(decimal(w)[0]));
}

/// The names of primitive types mean the same in any capitalization.
pub proof fn type_names_ignore_case(a: Seq<char>, b: Seq<char>)
    requires
        lower(a) == lower(b),
    ensures
        builtin_sort(a) == builtin_sort(b),
{
}

/// The primitive types that have a name of their own.
pub proof fn named_sorts(name: Seq<char>)
    ensures
        lower(name) == "bool"@ || lower(name) == "selector"@ ==> builtin_sort(name) == Some(
            SymType::Bool,
        ),
        lower(name) == "field"@ || lower(name) == "f"@ ==> builtin_sort(name) == Some(SymType::F),
        lower(name) == "word"@ ==> builtin_sort(name) == Some(SymType::Uint(32)),
        lower(name) == "timestamp"@ ==> builtin_sort(name) == Some(SymType::Uint(64)),
{
    lemma_plain_names();
}

proof fn lemma_wider(a: usize, b: usize)
    requires
        a <= b,
    ensures
        pow2(a as nat) <= pow2(b as nat),
{
    if a < b {
        lemma_pow2_strictly_increases(a as nat, b as nat);
    }
}

/// An operation on operands of two sorts has a sort only if they go together: a comparison and a
/// connective have a truth value; arithmetic of field elements is that of field elements; and
/// arithmetic of integers of one kind has a sort that holds both operands.
pub proof fn combined_sorts_hold_operands(op: BinOp, l: SymType, r: SymType, x: int)
    requires
        combine_sorts(op, l, r) is Some,
    ensures
        ({
            let s = combine_sorts(op, l, r)->0;
            let arithmetic = op == BinOp::Add || op == BinOp::Sub || op == BinOp::Mul || op
                == BinOp::BitAnd;
            &&& !arithmetic ==> s == SymType::Bool
            &&& op == BinOp::And || op == BinOp::Or ==> l == SymType::Bool && r == SymType::Bool
            &&& l == SymType::F <==> r == SymType::F
            &&& arithmetic ==> (s == SymType::F <==> l == SymType::F)
            &&& arithmetic && s is Uint ==> !(l is Int) && !(r is Int) && (is_of_sort(x, l)
                || is_of_sort(x, r) ==> is_of_sort(x, s))
            &&& arithmetic && l is Int && r is Int && (is_of_sort(x, l) || is_of_sort(x, r))
                ==> is_of_sort(x, s)
        }),
{
    let s = combine_sorts(op, l, r)->0;
    vstd::arithmetic::power2::lemma2_to64();
    match (l, r, s) {
        (SymType::Uint(a), SymType::Uint(b), SymType::Uint(c)) => {
            lemma_wider(a, c);
            lemma_wider(b, c);
        },
        (SymType::Bool, SymType::Uint(a), SymType::Uint(c)) => {
            lemma_wider(a, c);
            lemma_wider(1, c);
        },
        (SymType::Uint(a), SymType::Bool, SymType::Uint(c)) => {
            lemma_wider(a, c);
            lemma_wider(1, c);
        },
        (SymType::Bool, SymType::Bool, SymType::Uint(c)) => {
            lemma_wider(1, c);
        },
        (SymType::Int(a), SymType::Int(b), SymType::Int(c)) => {
            if a > 0 {
                lemma_wider((a - 1) as usize, (c - 1) as usize);
            }
            if b > 0 {
                lemma_wider((b - 1) as usize, (c - 1) as usize);
            }
        },
        _ => {},
    }
}

/// A name of the program hides a primitive type of the same name, and a struct an enum; every
/// classified type is one of the three, and exactly the scalar ones have a sort or are primitive.
pub proof fn own_names_hide_builtin_names(ctx: ContextV, ty: TypeV)
    requires
        ctx.classify(ty) is Ok,
    ensures
        ty is Path,
        ({
            let last = ty->Path_segments.last();
            match ctx.classify(ty)->Ok_0 {
                PathKind::Struct(id) => ctx.struct_index.contains_key(last)
                    && ctx.struct_index[last] == id && !ctx.scalar(ty) && ctx.sort_of(ty) is None,
                PathKind::Enum(id) => !ctx.struct_index.contains_key(last)
                    && ctx.enum_index.contains_key(last) && ctx.enum_index[last] == id
                    && ctx.scalar(ty) && ctx.sort_of(ty) == Some(ctx.enum_sort(id)),
                PathKind::Builtin => !ctx.struct_index.contains_key(last)
                    && !ctx.enum_index.contains_key(last) && ctx.scalar(ty) && ctx.sort_of(ty)
                    == builtin_sort(last),
            }
        }),
{
}

} // verus!
