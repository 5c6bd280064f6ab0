//! Which types expressions have, and which numbers belong to a sort.

use vstd::arithmetic::power2::{lemma2_to64, lemma_pow2_pos, lemma_pow2_unfold, pow2};
use vstd::prelude::*;
use crate::ast::{BinOp, ExprV, TypeV};
use crate::checker::symbolic::builtins::{bounds_of, max_abs, product_stays};
use crate::checker::symbolic::context::{
    bool_type, combine_sorts, map_pair, type_of_sort, ContextV,
};
use crate::checker::symbolic::expr::{SymType, FIELD_MODULUS};
use crate::checker::symbolic::range::{type_range, type_width};
use crate::text::decimal;
use crate::text_laws::numbers_are_read_as_written;

verus! {

/// A comparison.
pub open spec fn is_comparison(op: BinOp) -> bool {
    op == BinOp::Eq || op == BinOp::Ne || op == BinOp::Lt || op == BinOp::Le || op == BinOp::Gt || op
        == BinOp::Ge
}

/// Arithmetic.
pub open spec fn is_arithmetic(op: BinOp) -> bool {
    op == BinOp::Add || op == BinOp::Sub || op == BinOp::Mul || op == BinOp::BitAnd
}

/// Operands of one sort can be compared, and computed with; the result of arithmetic is of their
/// sort, but for truth values, which add up to numbers. Integers with and without sign can be
/// computed with together.
pub proof fn like_sorts_go_together(op: BinOp, s: SymType, a: usize, b: usize)
    ensures
        is_comparison(op) ==> combine_sorts(op, s, s) == Some(SymType::Bool),
        is_arithmetic(op) && s != SymType::Bool ==> combine_sorts(op, s, s) == Some(s),
        is_arithmetic(op) ==> combine_sorts(op, SymType::Bool, SymType::Bool) == Some(
            SymType::Uint(1),
        ),
        is_arithmetic(op) ==> combine_sorts(op, SymType::Int(a), SymType::Uint(b)) is Some,
        is_arithmetic(op) ==> combine_sorts(op, SymType::Bool, SymType::Uint(b)) is Some,
        op == BinOp::And || op == BinOp::Or ==> combine_sorts(op, SymType::Bool, SymType::Bool)
            == Some(SymType::Bool),
{
}

/// The bounds of a sort are those of its interval, which has as many numbers as there are words of
/// its width; field elements have none.
pub proof fn bounds_have_the_width_of_the_sort(s: SymType)
    ensures
        match bounds_of(s) {
            Some((lo, hi, w)) => type_range(s) == Some((lo, hi)) && type_width(s) == Some(w) && hi
                - lo + 1 == pow2(w as nat),
            None => type_width(s) is None,
        },
        s == SymType::F ==> bounds_of(s) is None,
{
    reveal(bounds_of);
    lemma2_to64();
    match s {
        SymType::Int(w) => {
            if 0 < w < 127 {
                lemma_pow2_unfold(w as nat);
            }
        },
        _ => {},
    }
}

proof fn lemma_product_within(x: int, y: int, a: int, b: int)
    requires
        -a <= x <= a,
        -b <= y <= b,
    ensures
        -(a * b) <= x * y <= a * b,
{
    assert(-(a * b) <= x * y <= a * b) by (nonlinear_arith)
        requires
            -a <= x <= a,
            -b <= y <= b,
    ;
}

/// The greatest magnitude of a sort is that of one of its numbers, and no number of the sort is of
/// a greater one.
pub proof fn magnitudes_are_of_numbers(s: SymType, x: int)
    requires
        max_abs(s) is Some,
        type_range(s) is Some,
    ensures
        ({
            let (lo, hi) = type_range(s)->0;
            let m = max_abs(s)->0;
            &&& lo <= x <= hi ==> -m <= x <= m
            &&& m == hi || -m == lo
        }),
{
    match s {
        SymType::Uint(w) => lemma_pow2_pos(w as nat),
        SymType::Int(w) => lemma_pow2_pos((w - 1) as nat),
        _ => {},
    }
}

/// The product of numbers of two sorts is not reduced only if no such product leaves the field, and
/// only then if the greatest magnitudes are known.
pub proof fn products_that_stay_are_small(l: SymType, r: SymType, x: int, y: int)
    requires
        type_range(l) is Some,
        type_range(r) is Some,
    ensures
        ({
            let (a, b) = type_range(l)->0;
            let (c, d) = type_range(r)->0;
            &&& product_stays(l, r) && a <= x <= b && c <= y <= d ==> -FIELD_MODULUS < x * y
                < FIELD_MODULUS
            &&& !product_stays(l, r) && max_abs(l) is Some && max_abs(r) is Some ==> max_abs(l)->0
                * max_abs(r)->0 >= FIELD_MODULUS
        }),
{
    let (a, b) = type_range(l)->0;
    let (c, d) = type_range(r)->0;
    if product_stays(l, r) && a <= x <= b && c <= y <= d {
        magnitudes_are_of_numbers(l, x);
        magnitudes_are_of_numbers(r, y);
        lemma_product_within(x, y, max_abs(l)->0, max_abs(r)->0);
    }
}

/// An element of an array has the type of the elements; parentheses keep the type.
pub proof fn elements_have_the_element_type(cx: ContextV, base: ExprV, at: ExprV)
    ensures
        match cx.infer(base) {
            Some(TypeV::Array(inner, _)) => cx.infer(ExprV::Index(Box::new(base), Box::new(at)))
                == Some(*inner),
            _ => cx.infer(ExprV::Index(Box::new(base), Box::new(at))) is None,
        },
        cx.infer(ExprV::Paren(Box::new(base))) == cx.infer(base),
{
}

/// The result of comparing two scalars of one sort is a truth value; the result of arithmetic is of
/// the sort of the operands.
pub proof fn operations_have_the_type_of_their_operands(
    cx: ContextV,
    op: BinOp,
    lhs: ExprV,
    rhs: ExprV,
    s: SymType,
)
    requires
        cx.infer(lhs) is Some,
        cx.infer(rhs) is Some,
        cx.sort_of(cx.infer(lhs)->0) == Some(s),
        cx.sort_of(cx.infer(rhs)->0) == Some(s),
    ensures
        ({
            let e = ExprV::Binary { op, lhs: Box::new(lhs), rhs: Box::new(rhs) };
            &&& is_comparison(op) ==> cx.infer(e) == Some(bool_type())
            &&& is_arithmetic(op) && s != SymType::Bool ==> cx.infer(e) == Some(type_of_sort(s))
        }),
{
    like_sorts_go_together(op, s, 0, 0);
}

/// A variable has the type that it is declared with.
pub proof fn variables_have_their_declared_type(
    cx: ContextV,
    segments: Seq<Seq<char>>,
    id: i64,
)
    ensures
        cx.declared(id) is Some && !cx.field_types.contains_key(id) ==> cx.infer(
            ExprV::Path { segments, ref_id: Some(id) },
        ) == cx.declared(id),
{
}

/// The elements of a tuple have their types, by position; what is read from a map is a time and a
/// value, by position or by name.
pub proof fn parts_have_their_types(cx: ContextV, elems: Seq<TypeV>, n: nat, map: TypeV)
    requires
        n <= usize::MAX,
    ensures
        cx.field_access_type(decimal(n), None, None, Some(TypeV::Tuple(elems))) == (if n
            < elems.len() {
            Some(elems[n as int])
        } else {
            None
        }),
        map is Mapping ==> ({
            let pair = map_pair(*map->timestamp, *map->value);
            &&& cx.field_access_type("0"@, None, Some(map), None) == Some(pair.0)
            &&& cx.field_access_type("clk_prev"@, None, Some(map), None) == Some(pair.0)
            &&& cx.field_access_type("1"@, None, Some(map), None) == Some(pair.1)
            &&& cx.field_access_type("value"@, None, Some(map), None) == Some(pair.1)
        }),
{
    numbers_are_read_as_written(n, usize::MAX as nat);
    reveal_strlit("0");
    reveal_strlit("clk_prev");
    reveal_strlit("1");
    reveal_strlit("value");
    assert("0"@.len() == 1 && "1"@.len() == 1 && "clk_prev"@.len() == 8 && "value"@.len() == 5);
    assert("0"@[0] == '0' && "1"@[0] == '1');
}

} // verus!
