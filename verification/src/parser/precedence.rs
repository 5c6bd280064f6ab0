//! Operator precedence.

use vstd::prelude::*;
use crate::ast::{exprs_of, BinOp, Expr, ExprV};

verus! {

broadcast use crate::ast::lists::group_lists;

/// How tightly an operator binds (larger is tighter).
pub open spec fn precedence(op: BinOp) -> int {
    match op {
        BinOp::Mul => 5,
        BinOp::Add | BinOp::Sub => 4,
        BinOp::BitAnd => 3,
        BinOp::Eq | BinOp::Ne | BinOp::Lt | BinOp::Le | BinOp::Gt | BinOp::Ge => 2,
        BinOp::And => 1,
        BinOp::Or => 0,
    }
}

/// The last of the loosest operators.
pub open spec fn loosest(ops: Seq<BinOp>) -> int
    decreases ops.len(),
{
    if ops.len() <= 1 {
        0
    } else {
        let r = loosest(ops.drop_last());
        if precedence(ops.last()) <= precedence(ops[r]) {
            ops.len() - 1
        } else {
            r
        }
    }
}

/// Nothing before position `c` binds looser than the operator there, and everything after it
/// binds tighter.
pub open spec fn splits_at(ops: Seq<BinOp>, c: int) -> bool {
    &&& 0 <= c < ops.len()
    &&& forall|i: int| 0 <= i < c ==> precedence(#[trigger] ops[i]) >= precedence(ops[c])
    &&& forall|i: int| c < i < ops.len() ==> precedence(#[trigger] ops[i]) > precedence(ops[c])
}

pub proof fn lemma_loosest(ops: Seq<BinOp>)
    requires
        ops.len() > 0,
    ensures
        splits_at(ops, loosest(ops)),
    decreases ops.len(),
{
    if ops.len() > 1 {
        let front = ops.drop_last();
        lemma_loosest(front);
        let r = loosest(front);
        assert(ops[r] == front[r]);
        assert forall|i: int| 0 <= i < front.len() implies precedence(#[trigger] ops[i])
            >= precedence(front[r]) by {
            assert(ops[i] == front[i]);
        }
        assert forall|i: int| r < i < front.len() implies precedence(#[trigger] ops[i])
            > precedence(front[r]) by {
            assert(ops[i] == front[i]);
        }
    }
}

/// The splitting position is unique.
pub proof fn lemma_split_unique(ops: Seq<BinOp>, c: int)
    requires
        splits_at(ops, c),
    ensures
        loosest(ops) == c,
{
    lemma_loosest(ops);
    let r = loosest(ops);
    if r < c {
        assert(precedence(ops[c]) > precedence(ops[r]));
        assert(precedence(ops[r]) >= precedence(ops[c]));
    } else if c < r {
        assert(precedence(ops[r]) > precedence(ops[c]));
        assert(precedence(ops[c]) >= precedence(ops[r]));
    }
}

/// The expression with operands `vs` separated by `ops`: the last of the loosest operators is
/// at the root, so that equally tight operators associate to the left.
pub open spec fn prec_tree(vs: Seq<ExprV>, ops: Seq<BinOp>) -> ExprV
    decreases ops.len(),
    when vs.len() == ops.len() + 1
    via prec_tree_decreases
{
    if ops.len() == 0 {
        vs[0]
    } else {
        let k = loosest(ops);
        ExprV::Binary {
            op: ops[k],
            lhs: Box::new(prec_tree(vs.subrange(0, k + 1), ops.subrange(0, k))),
            rhs: Box::new(
                prec_tree(
                    vs.subrange(k + 1, vs.len() as int),
                    ops.subrange(k + 1, ops.len() as int),
                ),
            ),
        }
    }
}

#[via_fn]
proof fn prec_tree_decreases(vs: Seq<ExprV>, ops: Seq<BinOp>) {
    if ops.len() > 0 {
        lemma_loosest(ops);
    }
}

/// Return precedence of a binary operator (larger is tighter).
pub fn binop_precedence(op: &BinOp) -> (r: u8)
    ensures
        r == precedence(*op),
{
    match op {
        BinOp::Mul => 5,
        BinOp::Add | BinOp::Sub => 4,
        BinOp::BitAnd => 3,
        BinOp::Eq | BinOp::Ne | BinOp::Lt | BinOp::Le | BinOp::Gt | BinOp::Ge => 2,
        BinOp::And => 1,
        BinOp::Or => 0,
    }
}

/// Where segment `j` of a partly reduced input starts.
spec fn seg_lo(cuts: Seq<int>, j: int) -> int {
    if j == 0 {
        0
    } else {
        cuts[j - 1] + 1
    }
}

/// Where segment `j` of a partly reduced input ends.
spec fn seg_hi(cuts: Seq<int>, j: int, n: int) -> int {
    if j == cuts.len() {
        n
    } else {
        cuts[j]
    }
}

/// The first `n` operators have been consumed: those at `cuts` wait on a stack, and the operands
/// between them have been combined into the trees `trees`.
#[verifier::opaque]
spec fn partly_reduced(
    vs: Seq<ExprV>,
    ops: Seq<BinOp>,
    n: int,
    cuts: Seq<int>,
    stack: Seq<BinOp>,
    trees: Seq<ExprV>,
) -> bool {
    &&& vs.len() == ops.len() + 1
    &&& 0 <= n <= ops.len()
    &&& stack.len() == cuts.len()
    &&& trees.len() == cuts.len() + 1
    &&& forall|j: int| 0 <= j < cuts.len() ==> 0 <= #[trigger] cuts[j] < n
    &&& forall|i: int, j: int| 0 <= i < j < cuts.len() ==> #[trigger] cuts[i] < #[trigger] cuts[j]
    &&& forall|j: int| 0 <= j < cuts.len() ==> #[trigger] stack[j] == ops[cuts[j]]
    &&& forall|j: int|
        0 <= j <= cuts.len() ==> #[trigger] trees[j] == prec_tree(
            vs.subrange(seg_lo(cuts, j), seg_hi(cuts, j, n) + 1),
            ops.subrange(seg_lo(cuts, j), seg_hi(cuts, j, n)),
        )
    &&& forall|j: int, i: int|
        #![trigger cuts[j], ops[i]]
        0 <= j < cuts.len() && seg_lo(cuts, j) <= i < cuts[j] ==> precedence(ops[i]) >= precedence(
            ops[cuts[j]],
        )
    &&& forall|j: int, i: int|
        #![trigger cuts[j], ops[i]]
        0 <= j < cuts.len() && cuts[j] < i < n ==> precedence(ops[i]) > precedence(ops[cuts[j]])
}

/// Combining the two topmost trees with the topmost operator.
proof fn lemma_reduce(
    vs: Seq<ExprV>,
    ops: Seq<BinOp>,
    n: int,
    cuts: Seq<int>,
    stack: Seq<BinOp>,
    trees: Seq<ExprV>,
)
    requires
        partly_reduced(vs, ops, n, cuts, stack, trees),
        cuts.len() > 0,
    ensures
        partly_reduced(
            vs,
            ops,
            n,
            cuts.drop_last(),
            stack.drop_last(),
            trees.drop_last().drop_last().push(
                ExprV::Binary {
                    op: stack.last(),
                    lhs: Box::new(trees[trees.len() - 2]),
                    rhs: Box::new(trees.last()),
                },
            ),
        ),
{
    reveal(partly_reduced);
    let t = cuts.len() - 1;
    let c = cuts[t];
    let lo = seg_lo(cuts, t as int);
    let mid = ops.subrange(lo, n);
    let mvs = vs.subrange(lo, n + 1);
    let k = c - lo;
    if t > 0 {
        assert(cuts[t - 1] < cuts[t as int]);
    }
    assert(splits_at(mid, k)) by {
        assert(mid[k] == ops[c]);
        assert forall|i: int| 0 <= i < k implies precedence(#[trigger] mid[i]) >= precedence(
            mid[k],
        ) by {
            assert(mid[i] == ops[lo + i]);
        }
        assert forall|i: int| k < i < mid.len() implies precedence(#[trigger] mid[i]) > precedence(
            mid[k],
        ) by {
            assert(mid[i] == ops[lo + i]);
        }
    }
    lemma_split_unique(mid, k);
    assert(mvs.subrange(0, k + 1) =~= vs.subrange(lo, c + 1));
    assert(mid.subrange(0, k) =~= ops.subrange(lo, c));
    assert(mvs.subrange(k + 1, mvs.len() as int) =~= vs.subrange(c + 1, n + 1));
    assert(mid.subrange(k + 1, mid.len() as int) =~= ops.subrange(c + 1, n));
    let joined = ExprV::Binary {
        op: stack.last(),
        lhs: Box::new(trees[trees.len() - 2]),
        rhs: Box::new(trees.last()),
    };
    assert(trees[t as int] == prec_tree(vs.subrange(lo, c + 1), ops.subrange(lo, c)));
    assert(trees[t + 1] == prec_tree(vs.subrange(c + 1, n + 1), ops.subrange(c + 1, n)));
    assert(joined == prec_tree(mvs, mid));
    let cuts2 = cuts.drop_last();
    let stack2 = stack.drop_last();
    let trees2 = trees.drop_last().drop_last().push(joined);
    assert forall|j: int| 0 <= j <= cuts2.len() implies #[trigger] trees2[j] == prec_tree(
        vs.subrange(seg_lo(cuts2, j), seg_hi(cuts2, j, n) + 1),
        ops.subrange(seg_lo(cuts2, j), seg_hi(cuts2, j, n)),
    ) by {
        if j < cuts2.len() {
            assert(trees2[j] == trees[j]);
        } else {
            assert(trees2[j] == joined);
        }
    }
    assert forall|j: int, i: int|
        #![trigger cuts2[j], ops[i]]
        0 <= j < cuts2.len() && seg_lo(cuts2, j) <= i < cuts2[j] implies precedence(ops[i])
        >= precedence(ops[cuts2[j]]) by {
        assert(cuts2[j] == cuts[j]);
    }
    assert forall|j: int, i: int|
        #![trigger cuts2[j], ops[i]]
        0 <= j < cuts2.len() && cuts2[j] < i < n implies precedence(ops[i]) > precedence(
        ops[cuts2[j]],
    ) by {
        assert(cuts2[j] == cuts[j]);
    }
}

/// Pushing the next operator and operand, once every waiting operator binds looser.
proof fn lemma_shift(
    vs: Seq<ExprV>,
    ops: Seq<BinOp>,
    n: int,
    cuts: Seq<int>,
    stack: Seq<BinOp>,
    trees: Seq<ExprV>,
)
    requires
        partly_reduced(vs, ops, n, cuts, stack, trees),
        n < ops.len(),
        cuts.len() > 0 ==> precedence(stack.last()) < precedence(ops[n]),
        forall|i: int|
            seg_lo(cuts, cuts.len() as int) <= i < n ==> precedence(#[trigger] ops[i])
                >= precedence(ops[n]),
    ensures
        partly_reduced(vs, ops, n + 1, cuts.push(n), stack.push(ops[n]), trees.push(vs[n + 1])),
{
    reveal(partly_reduced);
    let cuts2 = cuts.push(n);
    let stack2 = stack.push(ops[n]);
    let trees2 = trees.push(vs[n + 1]);
    assert forall|j: int| 0 <= j <= cuts2.len() implies #[trigger] trees2[j] == prec_tree(
        vs.subrange(seg_lo(cuts2, j), seg_hi(cuts2, j, n + 1) + 1),
        ops.subrange(seg_lo(cuts2, j), seg_hi(cuts2, j, n + 1)),
    ) by {
        if j < cuts2.len() {
            assert(trees2[j] == trees[j]);
        } else {
            let a = vs.subrange(n + 1, n + 2);
            let b = ops.subrange(n + 1, n + 1);
            assert(b.len() == 0);
            assert(a[0] == vs[n + 1]);
        }
    }
    assert forall|j: int, i: int|
        #![trigger cuts2[j], ops[i]]
        0 <= j < cuts2.len() && seg_lo(cuts2, j) <= i < cuts2[j] implies precedence(ops[i])
        >= precedence(ops[cuts2[j]]) by {
        if j < cuts.len() {
            assert(cuts2[j] == cuts[j]);
        }
    }
    assert forall|j: int, i: int|
        #![trigger cuts2[j], ops[i]]
        0 <= j < cuts2.len() && cuts2[j] < i < n + 1 implies precedence(ops[i]) > precedence(
        ops[cuts2[j]],
    ) by {
        assert(cuts2[j] == cuts[j]);
        if i == n {
            let t = cuts.len() - 1;
            assert(stack[t] == ops[cuts[t]]);
            if j < t {
                assert(cuts[j] < cuts[t]);
                assert(precedence(ops[cuts[t]]) > precedence(ops[cuts[j]]));
            }
        }
    }
}

/// One operand and no operator.
proof fn lemma_start(vs: Seq<ExprV>, ops: Seq<BinOp>)
    requires
        vs.len() == ops.len() + 1,
    ensures
        partly_reduced(vs, ops, 0, seq![], seq![], seq![vs[0]]),
{
    reveal(partly_reduced);
    assert(vs.subrange(0, 1)[0] == vs[0]);
}

/// Everything consumed and nothing waiting.
proof fn lemma_done(vs: Seq<ExprV>, ops: Seq<BinOp>, stack: Seq<BinOp>, trees: Seq<ExprV>)
    requires
        partly_reduced(vs, ops, ops.len() as int, seq![], stack, trees),
    ensures
        trees.len() == 1,
        trees[0] == prec_tree(vs, ops),
{
    reveal(partly_reduced);
    assert(vs.subrange(0, vs.len() as int) =~= vs);
    assert(ops.subrange(0, ops.len() as int) =~= ops);
}

/// How many operators and trees there are.
proof fn lemma_sizes(
    vs: Seq<ExprV>,
    ops: Seq<BinOp>,
    n: int,
    cuts: Seq<int>,
    stack: Seq<BinOp>,
    trees: Seq<ExprV>,
)
    requires
        partly_reduced(vs, ops, n, cuts, stack, trees),
    ensures
        stack.len() == cuts.len(),
        trees.len() == cuts.len() + 1,
{
    reveal(partly_reduced);
}

fn combine(val_stack: &mut Vec<Expr>, op: BinOp)
    requires
        old(val_stack)@.len() >= 2,
    ensures
        exprs_of(final(val_stack)@) == exprs_of(old(val_stack)@).drop_last().drop_last().push(
            ExprV::Binary {
                op,
                lhs: Box::new(exprs_of(old(val_stack)@)[old(val_stack)@.len() - 2]),
                rhs: Box::new(exprs_of(old(val_stack)@).last()),
            },
        ),
{
    let n = val_stack.len();
    let rhs = val_stack.remove(n - 1);
    let lhs = val_stack.remove(n - 2);
    let ghost rest = val_stack@;
    proof {
        assert(exprs_of(rest) =~= exprs_of(old(val_stack)@).drop_last().drop_last());
    }
    val_stack.push(Expr::Binary { op, lhs: Box::new(lhs), rhs: Box::new(rhs) });
}

/// Combines trees while the topmost waiting operator binds at least as tightly as `floor`.
#[verifier::loop_isolation(false)]
fn reduce(
    val_stack: &mut Vec<Expr>,
    op_stack: &mut Vec<BinOp>,
    floor: u8,
    vs: Ghost<Seq<ExprV>>,
    os: Ghost<Seq<BinOp>>,
    n: Ghost<int>,
    cuts: Ghost<Seq<int>>,
) -> (left: Ghost<Seq<int>>)
    requires
        partly_reduced(vs@, os@, n@, cuts@, old(op_stack)@, exprs_of(old(val_stack)@)),
        forall|i: int|
            seg_lo(cuts@, cuts@.len() as int) <= i < n@ ==> precedence(#[trigger] os@[i]) >= floor,
    ensures
        partly_reduced(vs@, os@, n@, left@, final(op_stack)@, exprs_of(final(val_stack)@)),
        forall|i: int|
            seg_lo(left@, left@.len() as int) <= i < n@ ==> precedence(#[trigger] os@[i]) >= floor,
        left@.len() > 0 ==> precedence(final(op_stack)@.last()) < floor,
{
    proof {
        reveal(partly_reduced);
    }
    let ghost mut left = cuts@;
    while op_stack.len() > 0 && binop_precedence(&op_stack[op_stack.len() - 1]) >= floor
        invariant
            partly_reduced(vs@, os@, n@, left, op_stack@, exprs_of(val_stack@)),
            forall|i: int|
                seg_lo(left, left.len() as int) <= i < n@ ==> precedence(#[trigger] os@[i])
                    >= floor,
        decreases op_stack@.len(),
    {
        let ghost before = left;
        proof {
            reveal(partly_reduced);
            lemma_reduce(vs@, os@, n@, left, op_stack@, exprs_of(val_stack@));
            left = left.drop_last();
            let t = left.len() as int;
            assert(op_stack@[t] == os@[before[t]]);
            assert forall|i: int| seg_lo(left, t) <= i < n@ implies precedence(#[trigger] os@[i])
                >= floor by {
                assert(seg_lo(left, t) == seg_lo(before, t));
                if i < before[t] {
                    assert(precedence(os@[i]) >= precedence(os@[before[t]]));
                } else if i > before[t] {
                    assert(precedence(os@[i]) > precedence(os@[before[t]]));
                }
            }
        }
        let k = op_stack.len();
        let top = op_stack.remove(k - 1);
        combine(val_stack, top);
    }
    Ghost(left)
}

/// Build a left-associative binary expression tree with precedence.
/// `values` has one element more than `ops`.
#[verifier::loop_isolation(false)]
pub fn build_bin_expr_with_precedence(values: Vec<Expr>, ops: Vec<BinOp>) -> (r: Expr)
    requires
        values@.len() == ops@.len() + 1,
    ensures
        r@ == prec_tree(exprs_of(values@), ops@),
{
    let ghost all = values@;
    let ghost vs = exprs_of(all);
    let ghost os = ops@;
    let ghost mut cuts: Seq<int> = seq![];
    let mut val_stack: Vec<Expr> = Vec::new();
    let mut op_stack: Vec<BinOp> = Vec::new();
    let total: usize = ops.len();
    let mut taken: usize = 0;
    for v in it: values
        invariant
            it.seq() == all,
            it.index() == 0 ==> val_stack@.len() == 0 && op_stack@.len() == 0 && cuts.len() == 0,
            it.index() > 0 ==> val_stack@.len() > 0 && partly_reduced(
                vs,
                os,
                taken as int,
                cuts,
                op_stack@,
                exprs_of(val_stack@),
            ) && seg_lo(cuts, cuts.len() as int) == taken,
            taken == if it.index() == 0 {
                0
            } else {
                it.index() - 1
            },
    {
        if val_stack.len() == 0 {
            val_stack.push(v);
            proof {
                lemma_start(vs, os);
                assert(exprs_of(val_stack@) =~= seq![vs[0]]);
                assert(op_stack@ =~= seq![]);
                assert(cuts =~= seq![]);
            }
        } else {
            let op = ops[taken];
            let left = reduce(
                &mut val_stack,
                &mut op_stack,
                binop_precedence(&op),
                Ghost(vs),
                Ghost(os),
                Ghost(taken as int),
                Ghost(cuts),
            );
            proof {
                lemma_sizes(vs, os, taken as int, left@, op_stack@, exprs_of(val_stack@));
                lemma_shift(vs, os, taken as int, left@, op_stack@, exprs_of(val_stack@));
                cuts = left@.push(taken as int);
            }
            op_stack.push(op);
            val_stack.push(v);
            assert(taken < total);
            taken = taken + 1;
        }
    }
    let left = reduce(
        &mut val_stack,
        &mut op_stack,
        0,
        Ghost(vs),
        Ghost(os),
        Ghost(os.len() as int),
        Ghost(cuts),
    );
    proof {
        assert(left@ =~= seq![]);
        lemma_done(vs, os, op_stack@, exprs_of(val_stack@));
        assert(exprs_of(val_stack@)[0] == val_stack@[0]@);
    }
    val_stack.remove(0)
}

} // verus!
