//! How operators group: products bind tightest, then sums, masks, comparisons, conjunctions and
//! disjunctions, and operators of one kind group to the left.

use vstd::prelude::*;
use crate::ast::{BinOp, ExprV};
use crate::parser::precedence::{loosest, prec_tree, precedence};

verus! {

/// A sum or a difference.
pub open spec fn is_sum(op: BinOp) -> bool {
    op == BinOp::Add || op == BinOp::Sub
}

/// A comparison.
pub open spec fn is_comparison(op: BinOp) -> bool {
    ||| op == BinOp::Eq
    ||| op == BinOp::Ne
    ||| op == BinOp::Lt
    ||| op == BinOp::Le
    ||| op == BinOp::Gt
    ||| op == BinOp::Ge
}

/// The first operator binds tighter than the second.
pub open spec fn tighter(a: BinOp, b: BinOp) -> bool {
    match a {
        BinOp::Mul => b != BinOp::Mul,
        BinOp::Add | BinOp::Sub => b != BinOp::Mul && !is_sum(b),
        BinOp::BitAnd => is_comparison(b) || b == BinOp::And || b == BinOp::Or,
        BinOp::And => b == BinOp::Or,
        BinOp::Or => false,
        _ => b == BinOp::And || b == BinOp::Or,
    }
}

/// Products bind tighter than sums and differences, those tighter than masks, those tighter than
/// comparisons, those tighter than conjunctions and those tighter than disjunctions; operators of
/// one of these kinds bind equally tightly.
pub proof fn levels_are_ordered(cmp1: BinOp, cmp2: BinOp)
    requires
        is_comparison(cmp1),
        is_comparison(cmp2),
    ensures
        precedence(BinOp::Mul) > precedence(BinOp::Add),
        precedence(BinOp::Add) == precedence(BinOp::Sub),
        precedence(BinOp::Sub) > precedence(BinOp::BitAnd),
        precedence(BinOp::BitAnd) > precedence(cmp1),
        precedence(cmp1) == precedence(cmp2),
        precedence(cmp2) > precedence(BinOp::And),
        precedence(BinOp::And) > precedence(BinOp::Or),
{
}

/// Of two operators, the one with the greater precedence is the one that binds tighter.
pub proof fn precedence_is_tightness(a: BinOp, b: BinOp)
    ensures
        precedence(a) > precedence(b) <==> tighter(a, b),
{
}

/// An expression groups operands that stand between operators: at the root is an operator such
/// that none before it is looser and all behind it are tighter, and both sides are grouped in the
/// same way.
pub open spec fn groups(vs: Seq<ExprV>, ops: Seq<BinOp>, e: ExprV) -> bool
    decreases ops.len(),
{
    if ops.len() == 0 {
        vs.len() == 1 && e == vs[0]
    } else {
        exists|k: int| #[trigger] grouped_at(ops, k) && vs.len() == ops.len() + 1 && e is Binary
            && e->Binary_op == ops[k] && (0 <= k < ops.len() ==> groups(
            vs.subrange(0, k + 1),
            ops.subrange(0, k),
            *e->Binary_lhs,
        ) && groups(
            vs.subrange(k + 1, vs.len() as int),
            ops.subrange(k + 1, ops.len() as int),
            *e->Binary_rhs,
        ))
    }
}

/// Nothing before the position is looser than the operator there, and everything behind it is
/// tighter.
pub open spec fn grouped_at(ops: Seq<BinOp>, k: int) -> bool {
    &&& 0 <= k < ops.len()
    &&& forall|i: int| 0 <= i < k ==> !tighter(ops[k], #[trigger] ops[i])
    &&& forall|i: int| k < i < ops.len() ==> tighter(#[trigger] ops[i], ops[k])
}

proof fn lemma_loosest_groups(ops: Seq<BinOp>)
    requires
        ops.len() > 0,
    ensures
        grouped_at(ops, loosest(ops)),
{
    crate::parser::precedence::lemma_loosest(ops);
    let k = loosest(ops);
    assert forall|i: int| 0 <= i < k implies !tighter(ops[k], #[trigger] ops[i]) by {
        precedence_is_tightness(ops[k], ops[i]);
    }
    assert forall|i: int| k < i < ops.len() implies tighter(#[trigger] ops[i], ops[k]) by {
        precedence_is_tightness(ops[i], ops[k]);
    }
}

/// What is built of operands and operators groups them by tightness.
pub proof fn expressions_group_by_tightness(vs: Seq<ExprV>, ops: Seq<BinOp>)
    requires
        vs.len() == ops.len() + 1,
    ensures
        groups(vs, ops, prec_tree(vs, ops)),
    decreases ops.len(),
{
    if ops.len() > 0 {
        lemma_loosest_groups(ops);
        let k = loosest(ops);
        expressions_group_by_tightness(vs.subrange(0, k + 1), ops.subrange(0, k));
        expressions_group_by_tightness(
            vs.subrange(k + 1, vs.len() as int),
            ops.subrange(k + 1, ops.len() as int),
        );
    }
}

/// There is only one way to group operands and operators by tightness.
pub proof fn grouping_is_unique(vs: Seq<ExprV>, ops: Seq<BinOp>, a: ExprV, b: ExprV)
    requires
        groups(vs, ops, a),
        groups(vs, ops, b),
    ensures
        a == b,
    decreases ops.len(),
{
    if ops.len() > 0 {
        let j = choose|k: int| #[trigger] grouped_at(ops, k) && a is Binary && a->Binary_op
            == ops[k] && groups(vs.subrange(0, k + 1), ops.subrange(0, k), *a->Binary_lhs)
            && groups(
            vs.subrange(k + 1, vs.len() as int),
            ops.subrange(k + 1, ops.len() as int),
            *a->Binary_rhs,
        );
        let k = choose|k: int| #[trigger] grouped_at(ops, k) && b is Binary && b->Binary_op
            == ops[k] && groups(vs.subrange(0, k + 1), ops.subrange(0, k), *b->Binary_lhs)
            && groups(
            vs.subrange(k + 1, vs.len() as int),
            ops.subrange(k + 1, ops.len() as int),
            *b->Binary_rhs,
        );
        if j < k {
            assert(tighter(ops[k], ops[j]));
        } else if k < j {
            assert(tighter(ops[j], ops[k]));
        }
        assert(j == k);
        grouping_is_unique(
            vs.subrange(0, k + 1),
            ops.subrange(0, k),
            *a->Binary_lhs,
            *b->Binary_lhs,
        );
        grouping_is_unique(
            vs.subrange(k + 1, vs.len() as int),
            ops.subrange(k + 1, ops.len() as int),
            *a->Binary_rhs,
            *b->Binary_rhs,
        );
    }
}

} // verus!
