//! What is read stands in the syntax tree, in the same order.

use vstd::prelude::*;
use crate::ast::{BinOp, ExprV, LValueV, LvTailV, StmtV, TypeV};
use crate::parser::expr::{
    call_args, expr_at, exprs_from, index_expr, lv_tail_at, lv_tails_from, lvalue_at, op_of,
    operands_from, path_of, postfix_at, postfix_from, primary_at, two_exprs, type_at, types_from,
};
use crate::parser::precedence::{lemma_loosest, loosest, prec_tree};
use crate::parser::stmt::{
    assert_at, assert_parts_from, call_at, call_stmt_args, stmt_at, stmts_from,
};
use crate::parser::tree::{Rule, SyntaxNodeV};
use crate::text::{lower, trim_start, unsigned_value};

verus! {

/// A piece of a program: a word, a number, or a mark for a construct; [`Rule::Other`] marks its end.
pub enum Piece {
    Word(Seq<char>),
    Number(nat),
    Mark(Rule),
}

/// The mark of the end of a construct.
pub open spec fn ended() -> Seq<Piece> {
    seq![Piece::Mark(Rule::Other)]
}

/// The mark of a construct.
pub open spec fn marked(r: Rule) -> Seq<Piece> {
    seq![Piece::Mark(r)]
}

/// A word.
pub open spec fn worded(w: Seq<char>) -> Seq<Piece> {
    seq![Piece::Word(w)]
}

/// Words.
pub open spec fn words(ws: Seq<Seq<char>>) -> Seq<Piece> {
    Seq::new(ws.len(), |i: int| Piece::Word(ws[i]))
}

/// The word of an assertion.
pub open spec fn assertion_word(text: Seq<char>) -> Seq<char> {
    if "assert_range"@.is_prefix_of(trim_start(text)) {
        "assert_range"@
    } else if "assert_zero"@.is_prefix_of(trim_start(text)) {
        "assert_zero"@
    } else {
        "assert"@
    }
}

/// A node is the name of the lookup, in any capitalization.
pub open spec fn names_lookup(n: SyntaxNodeV) -> bool {
    n.rule == Rule::LValue && n.inner.len() == 1 && n.inner[0].inner.len() == 1 && lower(
        n.inner[0].inner[0].text,
    ) == "lookup"@
}

/// The pieces that a syntax tree spells.
pub open spec fn spelled(n: SyntaxNodeV) -> Seq<Piece>
    decreases n, 0int,
{
    match n.rule {
        Rule::Ident | Rule::Bool | Rule::Op => worded(n.text),
        Rule::Int => match unsigned_value(n.text, u64::MAX as nat) {
            Some(k) => seq![Piece::Number(k)],
            None => seq![],
        },
        Rule::FieldTail => marked(Rule::FieldTail) + if n.inner.len() > 0 {
            worded(n.inner[0].text)
        } else {
            seq![]
        },
        Rule::Primary => if n.inner.len() > 0 && n.inner[0].rule == Rule::Expr {
            marked(Rule::Primary) + spelled_from(n.inner, 0) + ended()
        } else {
            spelled_from(n.inner, 0)
        },
        Rule::CallTail
        | Rule::IndexTail
        | Rule::MapIndexTail
        | Rule::ArrayTy
        | Rule::MapTy
        | Rule::TupleTy
        | Rule::Block => marked(n.rule) + spelled_from(n.inner, 0) + ended(),
        Rule::Path
        | Rule::VarDecl
        | Rule::Assign
        | Rule::AndAssign
        | Rule::ForLoop
        | Rule::ReturnStmt => marked(n.rule) + spelled_from(n.inner, 0),
        Rule::IfStmt => marked(Rule::IfStmt) + spelled_from(n.inner, 0) + if n.inner.len() < 3 {
            marked(Rule::Block) + ended()
        } else {
            seq![]
        },
        Rule::AssertStmt => worded(assertion_word(n.text)) + spelled_from(n.inner, 0),
        Rule::Call => marked(Rule::Call) + if n.inner.len() > 0 && names_lookup(n.inner[0]) {
            marked(Rule::Path) + worded("lookup"@) + spelled_from(n.inner, 1)
        } else {
            spelled_from(n.inner, 0)
        },
        _ => spelled_from(n.inner, 0),
    }
}

/// The pieces that the children from `i` on spell.
pub open spec fn spelled_from(kids: Seq<SyntaxNodeV>, i: int) -> Seq<Piece>
    decreases kids, kids.len() - i,
{
    if i < 0 || i >= kids.len() {
        seq![]
    } else {
        spelled(kids[i]) + spelled_from(kids, i + 1)
    }
}

/// The token of an operator.
pub open spec fn op_text(op: BinOp) -> Seq<char> {
    match op {
        BinOp::Eq => "=="@,
        BinOp::Ne => "!="@,
        BinOp::Lt => "<"@,
        BinOp::Le => "<="@,
        BinOp::Gt => ">"@,
        BinOp::Ge => ">="@,
        BinOp::And => "&&"@,
        BinOp::Or => "||"@,
        BinOp::Mul => "*"@,
        BinOp::Add => "+"@,
        BinOp::Sub => "-"@,
        BinOp::BitAnd => "&"@,
    }
}

/// The pieces of an expression.
pub open spec fn expr_pieces(e: ExprV) -> Seq<Piece>
    decreases e,
{
    match e {
        ExprV::Int(k) => seq![Piece::Number(k as nat)],
        ExprV::Bool(b) => worded(
            if b {
                "true"@
            } else {
                "false"@
            },
        ),
        ExprV::Path { segments, .. } => marked(Rule::Path) + words(segments),
        ExprV::Call(callee, args) => expr_pieces(*callee) + marked(Rule::CallTail) + exprs_pieces(
            args,
        ) + ended(),
        ExprV::Index(base, idx) => expr_pieces(*base) + marked(Rule::IndexTail) + expr_pieces(*idx)
            + ended(),
        ExprV::MapIndex { base, keys } => expr_pieces(*base) + marked(Rule::MapIndexTail)
            + exprs_pieces(keys) + ended(),
        ExprV::Field { base, name, .. } => expr_pieces(*base) + marked(Rule::FieldTail) + worded(
            name,
        ),
        ExprV::Binary { op, lhs, rhs } => expr_pieces(*lhs) + worded(op_text(op)) + expr_pieces(
            *rhs,
        ),
        ExprV::Paren(inner) => marked(Rule::Primary) + expr_pieces(*inner) + ended(),
    }
}

/// The pieces of expressions, one after the other.
pub open spec fn exprs_pieces(es: Seq<ExprV>) -> Seq<Piece>
    decreases es,
{
    if es.len() == 0 {
        seq![]
    } else {
        exprs_pieces(es.drop_last()) + expr_pieces(es.last())
    }
}

/// The pieces of a type.
pub open spec fn type_pieces(t: TypeV) -> Seq<Piece>
    decreases t,
{
    match t {
        TypeV::Path { segments, .. } => marked(Rule::Path) + words(segments),
        TypeV::Array(inner, len) => marked(Rule::ArrayTy) + type_pieces(*inner) + expr_pieces(len)
            + ended(),
        TypeV::Mapping { timestamp, key, value } => marked(Rule::MapTy) + type_pieces(*timestamp)
            + type_pieces(*key) + type_pieces(*value) + ended(),
        TypeV::Tuple(ts) => marked(Rule::TupleTy) + types_pieces(ts) + ended(),
        TypeV::Function { .. } => seq![],
    }
}

/// The pieces of types, one after the other.
pub open spec fn types_pieces(ts: Seq<TypeV>) -> Seq<Piece>
    decreases ts,
{
    if ts.len() == 0 {
        seq![]
    } else {
        types_pieces(ts.drop_last()) + type_pieces(ts.last())
    }
}

/// The pieces of a step of a place.
pub open spec fn tail_pieces(t: LvTailV) -> Seq<Piece> {
    match t {
        LvTailV::Field { name } => marked(Rule::FieldTail) + worded(name),
        LvTailV::Index(e) => marked(Rule::IndexTail) + expr_pieces(e) + ended(),
        LvTailV::MapIndex(a, b) => marked(Rule::MapIndexTail) + expr_pieces(a) + expr_pieces(b)
            + ended(),
    }
}

/// The pieces of the steps of a place, one after the other.
pub open spec fn tails_pieces(ts: Seq<LvTailV>) -> Seq<Piece>
    decreases ts.len(),
{
    if ts.len() == 0 {
        seq![]
    } else {
        tails_pieces(ts.drop_last()) + tail_pieces(ts.last())
    }
}

/// The pieces of a place.
pub open spec fn place_pieces(lv: LValueV) -> Seq<Piece> {
    marked(Rule::Path) + words(lv.head) + tails_pieces(lv.tails)
}

/// The pieces of a statement.
pub open spec fn stmt_pieces(s: StmtV) -> Seq<Piece>
    decreases s,
{
    match s {
        StmtV::VarDecl { ty, name, init, .. } => marked(Rule::VarDecl) + type_pieces(ty) + worded(
            name,
        ) + expr_pieces(init),
        StmtV::Assign { target, value } => marked(Rule::Assign) + place_pieces(target)
            + expr_pieces(value),
        StmtV::AndAssign { target, value } => marked(Rule::AndAssign) + place_pieces(target)
            + expr_pieces(value),
        StmtV::For { var, start, end, body, .. } => marked(Rule::ForLoop) + worded(var)
            + expr_pieces(start) + expr_pieces(end) + marked(Rule::Block) + stmts_pieces(body)
            + ended(),
        StmtV::If { cond, then_branch, else_branch } => marked(Rule::IfStmt) + expr_pieces(cond)
            + marked(Rule::Block) + stmts_pieces(then_branch) + ended() + marked(Rule::Block)
            + stmts_pieces(else_branch) + ended(),
        StmtV::AssertRange { value, ty } => worded("assert_range"@) + expr_pieces(value)
            + type_pieces(ty),
        StmtV::AssertZero(e) => worded("assert_zero"@) + expr_pieces(e),
        StmtV::AssertBool(e) => worded("assert"@) + expr_pieces(e),
        StmtV::AssertEq(a, b) => worded("assert"@) + expr_pieces(a) + expr_pieces(b),
        StmtV::Lookup { chip, opcode, args } => marked(Rule::Call) + marked(Rule::Path) + worded(
            "lookup"@,
        ) + marked(Rule::CallTail) + marked(Rule::Path) + words(chip) + expr_pieces(opcode)
            + exprs_pieces(args) + ended(),
        StmtV::Call { callee, args } => marked(Rule::Call) + place_pieces(callee) + marked(
            Rule::CallTail,
        ) + exprs_pieces(args) + ended(),
        StmtV::Return(e) => marked(Rule::ReturnStmt) + expr_pieces(e),
    }
}

/// The pieces of statements, one after the other.
pub open spec fn stmts_pieces(ss: Seq<StmtV>) -> Seq<Piece>
    decreases ss,
{
    if ss.len() == 0 {
        seq![]
    } else {
        stmts_pieces(ss.drop_last()) + stmt_pieces(ss.last())
    }
}

/// A node has the children that the grammar gives it, and so have those.
pub open spec fn regular(n: SyntaxNodeV) -> bool
    decreases n, 0int,
{
    &&& match n.rule {
        Rule::Bool => n.text == "true"@ || n.text == "false"@,
        Rule::Path => forall|i: int| 0 <= i < n.inner.len() ==> (#[trigger] n.inner[i]).rule
            == Rule::Ident,
        Rule::Primary | Rule::FieldTail | Rule::IndexTail | Rule::TypeRef | Rule::ReturnStmt => {
            n.inner.len() == 1
        },
        Rule::CallStmt => n.inner.len() == 1 && n.inner[0].rule == Rule::Call,
        Rule::CallTail => n.inner.len() <= 1 && (n.inner.len() == 1 ==> n.inner[0].rule
            == Rule::ArgList),
        Rule::MapIndexTail | Rule::ArrayTy | Rule::RangeExpr => n.inner.len() == 2,
        Rule::Assign | Rule::AndAssign => n.inner.len() == 2 && n.inner[0].rule == Rule::LValue,
        Rule::MapTy => n.inner.len() == 3,
        Rule::VarDecl => n.inner.len() == 3 && n.inner[1].rule == Rule::Ident,
        Rule::ForLoop => n.inner.len() == 3 && n.inner[0].rule == Rule::Ident && n.inner[1].rule
            == Rule::RangeExpr && n.inner[2].rule == Rule::Block,
        Rule::IfStmt => 2 <= n.inner.len() <= 3 && n.inner[1].rule == Rule::Block && (n.inner.len()
            == 3 ==> n.inner[2].rule == Rule::Block),
        Rule::AssertStmt => if assertion_word(n.text) == "assert_range"@ {
            n.inner.len() == 2 && n.inner[0].rule == Rule::Expr && n.inner[1].rule == Rule::TypeRef
        } else {
            n.inner.len() == 1 && n.inner[0].rule == Rule::ArgList
        },
        Rule::Call => n.inner.len() == 2 && n.inner[0].rule == Rule::LValue && n.inner[1].rule
            == Rule::CallTail,
        Rule::LValue => n.inner.len() > 0 && n.inner[0].rule == Rule::Path,
        Rule::Postfix => n.inner.len() > 0 && n.inner[0].rule == Rule::Primary,
        _ => true,
    }
    &&& all_regular(n.inner, 0)
}

/// The children from `i` on are regular.
pub open spec fn all_regular(kids: Seq<SyntaxNodeV>, i: int) -> bool
    decreases kids, kids.len() - i,
{
    if i < 0 || i >= kids.len() {
        true
    } else {
        regular(kids[i]) && all_regular(kids, i + 1)
    }
}

pub proof fn lemma_regular_at(kids: Seq<SyntaxNodeV>, i: int, j: int)
    requires
        0 <= i <= j < kids.len(),
        all_regular(kids, i),
    ensures
        regular(kids[j]),
    decreases j - i,
{
    if i < j {
        lemma_regular_at(kids, i + 1, j);
    }
}

proof fn lemma_op_text(text: Seq<char>)
    requires
        op_of(text) is Some,
    ensures
        op_text(op_of(text)->0) == text,
{
}

/// Operands and operators in turn.
spec fn woven(vs: Seq<ExprV>, ops: Seq<BinOp>) -> Seq<Piece>
    decreases ops.len(),
{
    if ops.len() == 0 {
        if vs.len() > 0 {
            expr_pieces(vs[0])
        } else {
            seq![]
        }
    } else {
        woven(vs.drop_last(), ops.drop_last()) + worded(op_text(ops.last())) + expr_pieces(
            vs.last(),
        )
    }
}

proof fn lemma_woven_split(vs: Seq<ExprV>, ops: Seq<BinOp>, c: int)
    requires
        vs.len() == ops.len() + 1,
        0 <= c < ops.len(),
    ensures
        woven(vs, ops) == woven(vs.take(c + 1), ops.take(c)) + worded(op_text(ops[c])) + woven(
            vs.skip(c + 1),
            ops.skip(c + 1),
        ),
    decreases ops.len(),
{
    let n = ops.len() as int;
    let head = woven(vs.take(c + 1), ops.take(c)) + worded(op_text(ops[c]));
    if c == n - 1 {
        assert(vs.take(c + 1) =~= vs.drop_last());
        assert(ops.take(c) =~= ops.drop_last());
        assert(vs.skip(c + 1)[0] == vs.last());
        assert(ops.skip(c + 1).len() == 0);
    } else {
        let v2 = vs.drop_last();
        let o2 = ops.drop_last();
        lemma_woven_split(v2, o2, c);
        assert(v2.take(c + 1) =~= vs.take(c + 1));
        assert(o2.take(c) =~= ops.take(c));
        assert(o2[c] == ops[c]);
        let vr = vs.skip(c + 1);
        let or = ops.skip(c + 1);
        assert(vr.drop_last() =~= v2.skip(c + 1));
        assert(or.drop_last() =~= o2.skip(c + 1));
        assert(vr.last() == vs.last());
        assert(or.last() == ops.last());
        let tail = worded(op_text(ops.last()));
        let end = expr_pieces(vs.last());
        let mid = woven(v2.skip(c + 1), o2.skip(c + 1));
        assert((head + mid) + tail + end =~= head + (mid + tail + end));
    }
}

proof fn lemma_tree_pieces(vs: Seq<ExprV>, ops: Seq<BinOp>)
    requires
        vs.len() == ops.len() + 1,
    ensures
        expr_pieces(prec_tree(vs, ops)) == woven(vs, ops),
    decreases ops.len(),
{
    if ops.len() > 0 {
        let c = loosest(ops);
        lemma_loosest(ops);
        lemma_tree_pieces(vs.take(c + 1), ops.take(c));
        lemma_tree_pieces(vs.skip(c + 1), ops.skip(c + 1));
        assert(vs.subrange(0, c + 1) =~= vs.take(c + 1));
        assert(ops.subrange(0, c) =~= ops.take(c));
        assert(vs.subrange(c + 1, vs.len() as int) =~= vs.skip(c + 1));
        assert(ops.subrange(c + 1, ops.len() as int) =~= ops.skip(c + 1));
        lemma_woven_split(vs, ops, c);
    }
}

pub proof fn lemma_path(n: SyntaxNodeV)
    requires
        n.rule == Rule::Path,
        regular(n),
    ensures
        spelled(n) == marked(Rule::Path) + words(path_of(n)),
{
    lemma_idents(n.inner, 0);
    assert(words(path_of(n)) =~= Seq::new(
        (n.inner.len() - 0) as nat,
        |j: int| Piece::Word(n.inner[0 + j].text),
    ));
}

proof fn lemma_idents(kids: Seq<SyntaxNodeV>, i: int)
    requires
        0 <= i <= kids.len(),
        forall|j: int| 0 <= j < kids.len() ==> (#[trigger] kids[j]).rule == Rule::Ident,
    ensures
        spelled_from(kids, i) == Seq::new(
            (kids.len() - i) as nat,
            |j: int| Piece::Word(kids[i + j].text),
        ),
    decreases kids.len() - i,
{
    let all = Seq::new((kids.len() - i) as nat, |j: int| Piece::Word(kids[i + j].text));
    if i < kids.len() {
        lemma_idents(kids, i + 1);
        let rest = Seq::new(
            (kids.len() - (i + 1)) as nat,
            |j: int| Piece::Word(kids[(i + 1) + j].text),
        );
        assert(kids[i].rule == Rule::Ident);
        assert(spelled_from(kids, i + 1) =~= rest);
        assert(spelled_from(kids, i) == spelled(kids[i]) + spelled_from(kids, i + 1));
        assert(spelled(kids[i]) == worded(kids[i].text));
        assert(all =~= worded(kids[i].text) + rest);
    } else {
        assert(all =~= seq![]);
    }
}

/// An expression spells what its syntax tree spells, in the same order.
pub proof fn expressions_are_read_as_written(n: SyntaxNodeV)
    requires
        regular(n),
        expr_at(n) is Ok,
    ensures
        expr_pieces(expr_at(n)->Ok_0) == spelled(n),
    decreases n, 1int,
{
    match n.rule {
        Rule::Expr => {
            lemma_regular_at(n.inner, 0, 0);
            lemma_postfix(n.inner[0]);
            let v = postfix_at(n.inner[0])->Ok_0;
            lemma_operands(n.inner, 1, seq![v], seq![]);
            assert(woven(seq![v], Seq::<BinOp>::empty()) == expr_pieces(v));
            assert(spelled_from(n.inner, 0) == spelled(n.inner[0]) + spelled_from(n.inner, 1));
        },
        Rule::Postfix => lemma_postfix(n),
        Rule::Primary => lemma_primary(n),
        _ => {},
    }
}

proof fn lemma_operands(kids: Seq<SyntaxNodeV>, i: int, vs: Seq<ExprV>, ops: Seq<BinOp>)
    requires
        0 <= i <= kids.len(),
        all_regular(kids, 0),
        vs.len() == ops.len() + 1,
        operands_from(kids, i, vs, ops) is Ok,
    ensures
        expr_pieces(operands_from(kids, i, vs, ops)->Ok_0) == woven(vs, ops) + spelled_from(kids, i),
    decreases kids, kids.len() - i,
{
    if i >= kids.len() {
        lemma_tree_pieces(vs, ops);
        assert(woven(vs, ops) + spelled_from(kids, i) =~= woven(vs, ops));
    } else {
        let op = op_of(kids[i].text)->0;
        lemma_op_text(kids[i].text);
        lemma_regular_at(kids, 0, i + 1);
        lemma_postfix(kids[i + 1]);
        let v = postfix_at(kids[i + 1])->Ok_0;
        lemma_operands(kids, i + 2, vs.push(v), ops.push(op));
        assert(vs.push(v).drop_last() =~= vs);
        assert(ops.push(op).drop_last() =~= ops);
        let a = woven(vs, ops);
        let b = worded(op_text(op));
        let c = expr_pieces(v);
        let d = spelled_from(kids, i + 2);
        assert(spelled_from(kids, i + 1) == spelled(kids[i + 1]) + d);
        assert(spelled_from(kids, i) == spelled(kids[i]) + spelled_from(kids, i + 1));
        assert(a + b + c + d =~= a + (b + (c + d)));
    }
}

proof fn lemma_primary(n: SyntaxNodeV)
    requires
        regular(n),
        n.rule == Rule::Primary,
        primary_at(n) is Ok,
    ensures
        expr_pieces(primary_at(n)->Ok_0) == spelled(n),
    decreases n, 0int,
{
    let c = n.inner[0];
    lemma_regular_at(n.inner, 0, 0);
    assert(spelled_from(n.inner, 1) =~= seq![]);
    assert(spelled_from(n.inner, 0) =~= spelled(c));
    match c.rule {
        Rule::Path => lemma_path(c),
        Rule::Expr => expressions_are_read_as_written(c),
        _ => {},
    }
}

proof fn lemma_postfix(n: SyntaxNodeV)
    requires
        regular(n),
        n.rule == Rule::Postfix,
        postfix_at(n) is Ok,
        n.inner.len() > 0,
    ensures
        expr_pieces(postfix_at(n)->Ok_0) == spelled(n),
    decreases n, 0int,
{
    lemma_regular_at(n.inner, 0, 0);
    lemma_primary(n.inner[0]);
    let e = primary_at(n.inner[0])->Ok_0;
    lemma_tails(n.inner, 1, e);
    assert(spelled_from(n.inner, 0) == spelled(n.inner[0]) + spelled_from(n.inner, 1));
}

proof fn lemma_tails(kids: Seq<SyntaxNodeV>, i: int, e: ExprV)
    requires
        0 <= i <= kids.len(),
        all_regular(kids, 0),
        postfix_from(kids, i, e) is Ok,
    ensures
        expr_pieces(postfix_from(kids, i, e)->Ok_0) == expr_pieces(e) + spelled_from(kids, i),
    decreases kids, kids.len() - i,
{
    if i >= kids.len() {
        assert(expr_pieces(e) + spelled_from(kids, i) =~= expr_pieces(e));
    } else {
        let k = kids[i];
        lemma_regular_at(kids, 0, i);
        let a = expr_pieces(e);
        let d = spelled_from(kids, i + 1);
        assert(spelled_from(kids, i) == spelled(k) + d);
        match k.rule {
            Rule::CallTail => {
                lemma_args(k);
                let args = call_args(k)->Ok_0;
                lemma_tails(kids, i + 1, ExprV::Call(Box::new(e), args));
                let m = marked(Rule::CallTail);
                let x = exprs_pieces(args);
                assert(a + m + x + ended() + d =~= a + (m + x + ended() + d));
            },
            Rule::MapIndexTail => {
                lemma_two(k);
                let (x, y) = two_exprs(k)->Ok_0;
                let keys = seq![x, y];
                lemma_tails(kids, i + 1, ExprV::MapIndex { base: Box::new(e), keys });
                let m = marked(Rule::MapIndexTail);
                lemma_pair(x, y);
                let z = exprs_pieces(keys);
                assert(a + m + z + ended() + d =~= a + (m + z + ended() + d));
            },
            Rule::IndexTail => {
                lemma_regular_at(k.inner, 0, 0);
                expressions_are_read_as_written(k.inner[0]);
                lemma_only_child(k.inner);
                let idx = index_expr(k)->Ok_0;
                lemma_tails(kids, i + 1, ExprV::Index(Box::new(e), Box::new(idx)));
                let m = marked(Rule::IndexTail);
                let x = expr_pieces(idx);
                assert(a + m + x + ended() + d =~= a + (m + x + ended() + d));
            },
            Rule::FieldTail => {
                let name = k.inner[0].text;
                lemma_tails(
                    kids,
                    i + 1,
                    ExprV::Field { base: Box::new(e), name, ref_id: None },
                );
                let m = marked(Rule::FieldTail);
                let x = worded(name);
                assert(a + m + x + d =~= a + (m + x + d));
            },
            _ => {},
        }
    }
}

proof fn lemma_only_child(kids: Seq<SyntaxNodeV>)
    requires
        kids.len() == 1,
    ensures
        spelled_from(kids, 0) == spelled(kids[0]),
{
    assert(spelled_from(kids, 1) =~= seq![]);
    assert(spelled(kids[0]) + spelled_from(kids, 1) =~= spelled(kids[0]));
}

proof fn lemma_two_children(kids: Seq<SyntaxNodeV>)
    requires
        kids.len() == 2,
    ensures
        spelled_from(kids, 0) == spelled(kids[0]) + spelled(kids[1]),
        spelled_from(kids, 1) == spelled(kids[1]),
{
    assert(spelled_from(kids, 2) =~= seq![]);
    assert(spelled(kids[1]) + spelled_from(kids, 2) =~= spelled(kids[1]));
    assert(spelled_from(kids, 1) == spelled(kids[1]) + spelled_from(kids, 2));
    assert(spelled_from(kids, 0) == spelled(kids[0]) + spelled_from(kids, 1));
}

proof fn lemma_three_children(kids: Seq<SyntaxNodeV>)
    requires
        kids.len() == 3,
    ensures
        spelled_from(kids, 0) == spelled(kids[0]) + spelled(kids[1]) + spelled(kids[2]),
{
    assert(spelled_from(kids, 3) =~= seq![]);
    assert(spelled(kids[2]) + spelled_from(kids, 3) =~= spelled(kids[2]));
    assert(spelled_from(kids, 1) == spelled(kids[1]) + spelled_from(kids, 2));
    assert(spelled(kids[0]) + (spelled(kids[1]) + spelled(kids[2])) =~= spelled(kids[0]) + spelled(
        kids[1],
    ) + spelled(kids[2]));
}

proof fn lemma_pair(x: ExprV, y: ExprV)
    ensures
        exprs_pieces(seq![x, y]) == expr_pieces(x) + expr_pieces(y),
{
    let two = seq![x, y];
    assert(two.drop_last() =~= seq![x]);
    assert(seq![x].drop_last() =~= seq![]);
    reveal_with_fuel(exprs_pieces, 3);
    assert(exprs_pieces(seq![x]) =~= expr_pieces(x));
}

proof fn lemma_args(n: SyntaxNodeV)
    requires
        regular(n),
        n.rule == Rule::CallTail,
        call_args(n) is Ok,
    ensures
        spelled(n) == marked(Rule::CallTail) + exprs_pieces(call_args(n)->Ok_0) + ended(),
    decreases n, 0int,
{
    if n.inner.len() == 0 {
        assert(spelled_from(n.inner, 0) =~= seq![]);
        assert(exprs_pieces(call_args(n)->Ok_0) =~= seq![]);
    } else {
        lemma_regular_at(n.inner, 0, 0);
        lemma_exprs(n.inner[0].inner, 0, seq![]);
        lemma_only_child(n.inner);
        let out = exprs_pieces(call_args(n)->Ok_0);
        assert(exprs_pieces(Seq::<ExprV>::empty()) + spelled_from(n.inner[0].inner, 0)
            =~= spelled_from(n.inner[0].inner, 0));
        assert(spelled(n.inner[0]) == spelled_from(n.inner[0].inner, 0));
    }
}

proof fn lemma_two(n: SyntaxNodeV)
    requires
        regular(n),
        n.rule == Rule::MapIndexTail,
        two_exprs(n) is Ok,
    ensures
        spelled(n) == marked(Rule::MapIndexTail) + (expr_pieces(two_exprs(n)->Ok_0.0) + expr_pieces(
            two_exprs(n)->Ok_0.1,
        )) + ended(),
    decreases n, 0int,
{
    lemma_regular_at(n.inner, 0, 0);
    lemma_regular_at(n.inner, 0, 1);
    expressions_are_read_as_written(n.inner[0]);
    expressions_are_read_as_written(n.inner[1]);
    lemma_two_children(n.inner);
}

proof fn lemma_exprs(kids: Seq<SyntaxNodeV>, i: int, acc: Seq<ExprV>)
    requires
        0 <= i <= kids.len(),
        all_regular(kids, 0),
        exprs_from(kids, i, acc) is Ok,
    ensures
        exprs_pieces(exprs_from(kids, i, acc)->Ok_0) == exprs_pieces(acc) + spelled_from(kids, i),
    decreases kids, kids.len() - i,
{
    if i >= kids.len() {
        assert(exprs_pieces(acc) + spelled_from(kids, i) =~= exprs_pieces(acc));
    } else {
        lemma_regular_at(kids, 0, i);
        expressions_are_read_as_written(kids[i]);
        let e = expr_at(kids[i])->Ok_0;
        lemma_exprs(kids, i + 1, acc.push(e));
        assert(acc.push(e).drop_last() =~= acc);
        let a = exprs_pieces(acc);
        let b = spelled(kids[i]);
        let c = spelled_from(kids, i + 1);
        assert(a + b + c =~= a + (b + c));
    }
}

/// A type spells what its syntax tree spells, in the same order.
pub proof fn types_are_read_as_written(n: SyntaxNodeV)
    requires
        regular(n),
        type_at(n) is Ok,
    ensures
        type_pieces(type_at(n)->Ok_0) == spelled(n),
    decreases n, 0int,
{
    match n.rule {
        Rule::TypeRef => {
            lemma_regular_at(n.inner, 0, 0);
            types_are_read_as_written(n.inner[0]);
            lemma_only_child(n.inner);
        },
        Rule::ArrayTy => {
            lemma_regular_at(n.inner, 0, 0);
            lemma_regular_at(n.inner, 0, 1);
            types_are_read_as_written(n.inner[0]);
            expressions_are_read_as_written(n.inner[1]);
            lemma_two_children(n.inner);
            let m = marked(Rule::ArrayTy);
            let a = spelled(n.inner[0]);
            let b = spelled(n.inner[1]);
            assert(m + (a + b) + ended() =~= m + a + b + ended());
        },
        Rule::MapTy => {
            lemma_types(n.inner, 0, 3, seq![]);
            let ts = types_from(n.inner, 0, 3, seq![])->Ok_0;
            assert(types_pieces(Seq::<TypeV>::empty()) + spelled_until(n.inner, 0, 3)
                =~= spelled_until(n.inner, 0, 3));
            lemma_until(n.inner, 0);
            lemma_types_len(n.inner, 0, 3, seq![]);
            assert(ts =~= seq![ts[0], ts[1], ts[2]]);
            assert(ts.drop_last() =~= seq![ts[0], ts[1]]);
            assert(seq![ts[0], ts[1]].drop_last() =~= seq![ts[0]]);
            assert(seq![ts[0]].drop_last() =~= seq![]);
            reveal_with_fuel(types_pieces, 4);
            let x = type_pieces(ts[0]);
            let y = type_pieces(ts[1]);
            let z = type_pieces(ts[2]);
            let m = marked(Rule::MapTy);
            assert(types_pieces(seq![ts[0]]) =~= x);
            assert(types_pieces(ts) == x + y + z);
            assert(m + (x + y + z) + ended() =~= m + x + y + z + ended());
        },
        Rule::TupleTy => {
            let k = n.inner.len() as int;
            lemma_types(n.inner, 0, k, seq![]);
            assert(types_pieces(Seq::<TypeV>::empty()) + spelled_until(n.inner, 0, k)
                =~= spelled_until(n.inner, 0, k));
            lemma_until(n.inner, 0);
        },
        Rule::Path => lemma_path(n),
        _ => {},
    }
}

/// The pieces of the children from `i` up to `end`.
spec fn spelled_until(kids: Seq<SyntaxNodeV>, i: int, end: int) -> Seq<Piece>
    decreases kids.len() - i,
{
    if i < 0 || i >= kids.len() || i >= end {
        seq![]
    } else {
        spelled(kids[i]) + spelled_until(kids, i + 1, end)
    }
}

proof fn lemma_until(kids: Seq<SyntaxNodeV>, i: int)
    requires
        0 <= i,
    ensures
        forall|end: int|
            end >= kids.len() ==> #[trigger] spelled_until(kids, i, end) == spelled_from(kids, i),
    decreases kids.len() - i,
{
    if i < kids.len() {
        lemma_until(kids, i + 1);
        assert forall|end: int| end >= kids.len() implies #[trigger] spelled_until(kids, i, end)
            == spelled_from(kids, i) by {
            assert(spelled_until(kids, i + 1, end) == spelled_from(kids, i + 1));
            assert(spelled_from(kids, i) == spelled(kids[i]) + spelled_from(kids, i + 1));
        }
    }
}

proof fn lemma_types_len(kids: Seq<SyntaxNodeV>, i: int, end: int, acc: Seq<TypeV>)
    requires
        0 <= i,
        types_from(kids, i, end, acc) is Ok,
    ensures
        types_from(kids, i, end, acc)->Ok_0.len() == acc.len() + if end <= kids.len() && i <= end {
            end - i
        } else if i <= kids.len() && kids.len() < end {
            kids.len() - i
        } else {
            0
        },
    decreases kids.len() - i,
{
    if i < kids.len() && i < end {
        lemma_types_len(kids, i + 1, end, acc.push(type_at(kids[i])->Ok_0));
    }
}

proof fn lemma_types(kids: Seq<SyntaxNodeV>, i: int, end: int, acc: Seq<TypeV>)
    requires
        0 <= i <= kids.len(),
        all_regular(kids, 0),
        types_from(kids, i, end, acc) is Ok,
    ensures
        types_pieces(types_from(kids, i, end, acc)->Ok_0) == types_pieces(acc) + spelled_until(
            kids,
            i,
            end,
        ),
    decreases kids, kids.len() - i,
{
    if i >= kids.len() || i >= end {
        assert(types_pieces(acc) + spelled_until(kids, i, end) =~= types_pieces(acc));
    } else {
        lemma_regular_at(kids, 0, i);
        types_are_read_as_written(kids[i]);
        let t = type_at(kids[i])->Ok_0;
        lemma_types(kids, i + 1, end, acc.push(t));
        assert(acc.push(t).drop_last() =~= acc);
        let a = types_pieces(acc);
        let b = spelled(kids[i]);
        let c = spelled_until(kids, i + 1, end);
        assert(a + b + c =~= a + (b + c));
    }
}

proof fn lemma_lv_tails(kids: Seq<SyntaxNodeV>, i: int, acc: Seq<LvTailV>)
    requires
        0 <= i <= kids.len(),
        all_regular(kids, 0),
        lv_tails_from(kids, i, acc) is Ok,
    ensures
        tails_pieces(lv_tails_from(kids, i, acc)->Ok_0) == tails_pieces(acc) + spelled_from(kids, i),
    decreases kids.len() - i,
{
    if i >= kids.len() {
        assert(tails_pieces(acc) + spelled_from(kids, i) =~= tails_pieces(acc));
    } else {
        let k = kids[i];
        lemma_regular_at(kids, 0, i);
        let t = lv_tail_at(k)->Ok_0;
        assert(tail_pieces(t) == spelled(k)) by {
            match k.rule {
                Rule::MapIndexTail => {
                    lemma_two(k);
                    let (x, y) = two_exprs(k)->Ok_0;
                    let m = marked(Rule::MapIndexTail);
                    let a = expr_pieces(x);
                    let b = expr_pieces(y);
                    assert(m + (a + b) + ended() =~= m + a + b + ended());
                },
                Rule::IndexTail => {
                    lemma_regular_at(k.inner, 0, 0);
                    expressions_are_read_as_written(k.inner[0]);
                    lemma_only_child(k.inner);
                },
                _ => {},
            }
        }
        lemma_lv_tails(kids, i + 1, acc.push(t));
        assert(acc.push(t).drop_last() =~= acc);
        let a = tails_pieces(acc);
        let b = spelled(k);
        let c = spelled_from(kids, i + 1);
        assert(a + b + c =~= a + (b + c));
    }
}

/// A place spells what its syntax tree spells, in the same order.
pub proof fn places_are_read_as_written(n: SyntaxNodeV)
    requires
        regular(n),
        n.rule == Rule::LValue,
        lvalue_at(n) is Ok,
    ensures
        place_pieces(lvalue_at(n)->Ok_0) == spelled(n),
{
    lemma_regular_at(n.inner, 0, 0);
    lemma_path(n.inner[0]);
    lemma_lv_tails(n.inner, 1, seq![]);
    assert(tails_pieces(Seq::<LvTailV>::empty()) + spelled_from(n.inner, 1) =~= spelled_from(
        n.inner,
        1,
    ));
    assert(spelled_from(n.inner, 0) == spelled(n.inner[0]) + spelled_from(n.inner, 1));
}

proof fn lemma_call(n: SyntaxNodeV)
    requires
        regular(n),
        n.rule == Rule::Call,
        call_at(n) is Ok,
    ensures
        stmt_pieces(call_at(n)->Ok_0) == spelled(n),
{
    lemma_regular_at(n.inner, 0, 0);
    lemma_regular_at(n.inner, 0, 1);
    let head = n.inner[0];
    let tail = n.inner[1];
    let lv = lvalue_at(head)->Ok_0;
    let args = call_stmt_args(n)->Ok_0;
    assert(call_args(tail) == call_stmt_args(n));
    lemma_args(tail);
    lemma_two_children(n.inner);
    places_are_read_as_written(head);
    let m = marked(Rule::Call);
    let t = marked(Rule::CallTail);
    let x = exprs_pieces(args);
    lemma_lv_tails_len(head.inner, 1, seq![]);
    assert(lv.head == path_of(head.inner[0]));
    assert(lv.head.len() == head.inner[0].inner.len());
    if lv.head.len() == 1 && lower(lv.head[0]) == "lookup"@ && lv.tails.len() == 0 {
        assert(names_lookup(head));
        let chip = args[0]->Path_segments;
        assert(args =~= seq![args[0], args[1]] + args.skip(2));
        lemma_exprs_join(seq![args[0], args[1]], args.skip(2));
        lemma_pair(args[0], args[1]);
        let p = marked(Rule::Path);
        let w = worded("lookup"@);
        let c = words(chip);
        let o = expr_pieces(args[1]);
        let r = exprs_pieces(args.skip(2));
        assert(x == (p + c) + o + r);
        assert(m + (p + w + (t + ((p + c) + o + r) + ended())) =~= m + p + w + t + p + c + o + r
            + ended());
    } else {
        assert(!names_lookup(head));
        let l = place_pieces(lv);
        assert(m + (l + (t + x + ended())) =~= m + l + t + x + ended());
    }
}

proof fn lemma_lv_tails_len(kids: Seq<SyntaxNodeV>, i: int, acc: Seq<LvTailV>)
    requires
        0 <= i <= kids.len(),
        lv_tails_from(kids, i, acc) is Ok,
    ensures
        lv_tails_from(kids, i, acc)->Ok_0.len() == acc.len() + kids.len() - i,
    decreases kids.len() - i,
{
    if i < kids.len() {
        lemma_lv_tails_len(kids, i + 1, acc.push(lv_tail_at(kids[i])->Ok_0));
    }
}

proof fn lemma_exprs_join(a: Seq<ExprV>, b: Seq<ExprV>)
    ensures
        exprs_pieces(a + b) == exprs_pieces(a) + exprs_pieces(b),
    decreases b.len(),
{
    if b.len() == 0 {
        assert(a + b =~= a);
        assert(exprs_pieces(a) + exprs_pieces(b) =~= exprs_pieces(a));
    } else {
        lemma_exprs_join(a, b.drop_last());
        assert((a + b).drop_last() =~= a + b.drop_last());
        assert((a + b).last() == b.last());
        let x = exprs_pieces(a);
        let y = exprs_pieces(b.drop_last());
        let z = expr_pieces(b.last());
        assert(x + y + z =~= x + (y + z));
    }
}

proof fn lemma_assert(n: SyntaxNodeV)
    requires
        regular(n),
        n.rule == Rule::AssertStmt,
        assert_at(n) is Ok,
    ensures
        stmt_pieces(assert_at(n)->Ok_0) == spelled(n),
{
    lemma_regular_at(n.inner, 0, 0);
    lemma_assert_words();
    reveal_with_fuel(assert_parts_from, 4);
    let w = worded(assertion_word(n.text));
    if assertion_word(n.text) == "assert_range"@ {
        lemma_regular_at(n.inner, 0, 1);
        expressions_are_read_as_written(n.inner[0]);
        types_are_read_as_written(n.inner[1]);
        lemma_two_children(n.inner);
        let a = spelled(n.inner[0]);
        let b = spelled(n.inner[1]);
        assert(w + (a + b) =~= w + a + b);
        let e = expr_at(n.inner[0])->Ok_0;
        assert(Seq::<ExprV>::empty().push(e)[0] == e);
    } else {
        let list = n.inner[0];
        lemma_exprs(list.inner, 0, seq![]);
        let es = exprs_from(list.inner, 0, seq![])->Ok_0;
        lemma_only_child(n.inner);
        assert(exprs_pieces(Seq::<ExprV>::empty()) + spelled_from(list.inner, 0) =~= spelled_from(
            list.inner,
            0,
        ));
        assert(spelled(list) == spelled_from(list.inner, 0));
        if es.len() == 1 {
            assert(es.drop_last() =~= seq![]);
            reveal_with_fuel(exprs_pieces, 2);
            assert(exprs_pieces(es) =~= expr_pieces(es[0]));
        } else if es.len() == 2 {
            assert(es =~= seq![es[0], es[1]]);
            lemma_pair(es[0], es[1]);
            let a = expr_pieces(es[0]);
            let b = expr_pieces(es[1]);
            assert(w + (a + b) =~= w + a + b);
        }
    }
}

proof fn lemma_assert_words()
    ensures
        "assert_range"@ != "assert_zero"@,
        "assert_range"@ != "assert"@,
        "assert_zero"@ != "assert"@,
{
    reveal_strlit("assert_range");
    reveal_strlit("assert_zero");
    reveal_strlit("assert");
    assert("assert_range"@.len() == 12);
    assert("assert_zero"@.len() == 11);
    assert("assert"@.len() == 6);
}

/// A statement spells what its syntax tree spells, in the same order: no branch, bound, operand or
/// statement is lost, added or moved.
pub proof fn statements_are_read_as_written(n: SyntaxNodeV)
    requires
        regular(n),
        stmt_at(n) is Ok,
    ensures
        stmt_pieces(stmt_at(n)->Ok_0) == spelled(n),
    decreases n, 0int,
{
    match n.rule {
        Rule::VarDecl => {
            lemma_regular_at(n.inner, 0, 0);
            lemma_regular_at(n.inner, 0, 2);
            types_are_read_as_written(n.inner[0]);
            expressions_are_read_as_written(n.inner[2]);
            lemma_three_children(n.inner);
            let m = marked(Rule::VarDecl);
            let a = spelled(n.inner[0]);
            let b = worded(n.inner[1].text);
            let c = spelled(n.inner[2]);
            assert(m + (a + b + c) =~= m + a + b + c);
        },
        Rule::Assign | Rule::AndAssign => {
            lemma_regular_at(n.inner, 0, 0);
            lemma_regular_at(n.inner, 0, 1);
            places_are_read_as_written(n.inner[0]);
            expressions_are_read_as_written(n.inner[1]);
            lemma_two_children(n.inner);
            let m = marked(n.rule);
            let a = spelled(n.inner[0]);
            let b = spelled(n.inner[1]);
            assert(m + (a + b) =~= m + a + b);
        },
        Rule::ForLoop => {
            lemma_regular_at(n.inner, 0, 1);
            lemma_regular_at(n.inner, 0, 2);
            let range = n.inner[1];
            lemma_regular_at(range.inner, 0, 0);
            lemma_regular_at(range.inner, 0, 1);
            expressions_are_read_as_written(range.inner[0]);
            expressions_are_read_as_written(range.inner[1]);
            lemma_two_children(range.inner);
            lemma_block(n.inner[2]);
            lemma_three_children(n.inner);
            let body = stmts_from(n.inner[2].inner, 0, seq![])->Ok_0;
            let m = marked(Rule::ForLoop);
            let v = worded(n.inner[0].text);
            let a = spelled(range.inner[0]);
            let b = spelled(range.inner[1]);
            let k = marked(Rule::Block);
            let s = stmts_pieces(body);
            assert(m + (v + (a + b) + (k + s + ended())) =~= m + v + a + b + k + s + ended());
        },
        Rule::IfStmt => {
            lemma_regular_at(n.inner, 0, 0);
            lemma_regular_at(n.inner, 0, 1);
            expressions_are_read_as_written(n.inner[0]);
            lemma_block(n.inner[1]);
            let m = marked(Rule::IfStmt);
            let c = spelled(n.inner[0]);
            let k = marked(Rule::Block);
            let t = stmts_pieces(stmts_from(n.inner[1].inner, 0, seq![])->Ok_0);
            if n.inner.len() == 3 {
                lemma_regular_at(n.inner, 0, 2);
                lemma_block(n.inner[2]);
                lemma_three_children(n.inner);
                let f = stmts_pieces(stmts_from(n.inner[2].inner, 0, seq![])->Ok_0);
                assert(m + (c + (k + t + ended()) + (k + f + ended())) + Seq::<Piece>::empty() =~= m
                    + c + k + t + ended() + k + f + ended());
            } else {
                lemma_two_children(n.inner);
                let f = stmts_pieces(Seq::<StmtV>::empty());
                assert(f =~= seq![]);
                assert(m + (c + (k + t + ended())) + (k + ended()) =~= m + c + k + t + ended() + k
                    + f + ended());
            }
        },
        Rule::AssertStmt => lemma_assert(n),
        Rule::CallStmt => {
            lemma_regular_at(n.inner, 0, 0);
            lemma_call(n.inner[0]);
            lemma_only_child(n.inner);
        },
        Rule::ReturnStmt => {
            lemma_regular_at(n.inner, 0, 0);
            expressions_are_read_as_written(n.inner[0]);
            lemma_only_child(n.inner);
        },
        _ => {},
    }
}

pub proof fn lemma_block(n: SyntaxNodeV)
    requires
        regular(n),
        n.rule == Rule::Block,
        stmts_from(n.inner, 0, seq![]) is Ok,
    ensures
        spelled(n) == marked(Rule::Block) + stmts_pieces(stmts_from(n.inner, 0, seq![])->Ok_0)
            + ended(),
    decreases n, 0int,
{
    lemma_stmts(n.inner, 0, seq![]);
    assert(stmts_pieces(Seq::<StmtV>::empty()) + spelled_from(n.inner, 0) =~= spelled_from(
        n.inner,
        0,
    ));
}

proof fn lemma_stmts(kids: Seq<SyntaxNodeV>, i: int, acc: Seq<StmtV>)
    requires
        0 <= i <= kids.len(),
        all_regular(kids, 0),
        stmts_from(kids, i, acc) is Ok,
    ensures
        stmts_pieces(stmts_from(kids, i, acc)->Ok_0) == stmts_pieces(acc) + spelled_from(kids, i),
    decreases kids, kids.len() - i,
{
    if i >= kids.len() {
        assert(stmts_pieces(acc) + spelled_from(kids, i) =~= stmts_pieces(acc));
    } else {
        lemma_regular_at(kids, 0, i);
        statements_are_read_as_written(kids[i]);
        let x = stmt_at(kids[i])->Ok_0;
        lemma_stmts(kids, i + 1, acc.push(x));
        assert(acc.push(x).drop_last() =~= acc);
        let a = stmts_pieces(acc);
        let b = spelled(kids[i]);
        let c = spelled_from(kids, i + 1);
        assert(a + b + c =~= a + (b + c));
    }
}

} // verus!
