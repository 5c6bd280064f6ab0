//! Expressions, types and assignable places.

use vstd::prelude::*;
use crate::ast::{
    exprs_of, tails_of, types_of, BinOp, Expr, ExprV, LValue, LValueV, LvTail, LvTailV, Type, TypeV,
};
use crate::parser::precedence::{build_bin_expr_with_precedence, prec_tree};
use crate::parser::tree::{nodes_of, ParseError, Rule, SyntaxNode, SyntaxNodeV};
use crate::text::{parse_unsigned, same_text, texts, unsigned_value};
use crate::view::ok_view;

verus! {

broadcast use crate::ast::lists::group_lists;

/// A list of expressions as its models.
pub open spec fn ok_exprs(r: Result<Vec<Expr>, ParseError>) -> Result<Seq<ExprV>, ParseError> {
    match r {
        Ok(v) => Ok(exprs_of(v@)),
        Err(x) => Err(x),
    }
}

/// The operator that a token stands for.
pub open spec fn op_of(text: Seq<char>) -> Option<BinOp> {
    if text == "=="@ {
        Some(BinOp::Eq)
    } else if text == "!="@ {
        Some(BinOp::Ne)
    } else if text == "<"@ {
        Some(BinOp::Lt)
    } else if text == "<="@ {
        Some(BinOp::Le)
    } else if text == ">"@ {
        Some(BinOp::Gt)
    } else if text == ">="@ {
        Some(BinOp::Ge)
    } else if text == "&&"@ {
        Some(BinOp::And)
    } else if text == "||"@ {
        Some(BinOp::Or)
    } else if text == "*"@ {
        Some(BinOp::Mul)
    } else if text == "+"@ {
        Some(BinOp::Add)
    } else if text == "-"@ {
        Some(BinOp::Sub)
    } else if text == "&"@ {
        Some(BinOp::BitAnd)
    } else {
        None
    }
}

/// The segments of a path.
pub open spec fn path_of(n: SyntaxNodeV) -> Seq<Seq<char>> {
    Seq::new(n.inner.len(), |i: int| n.inner[i].text)
}

/// The expression that a node denotes.
pub open spec fn expr_at(n: SyntaxNodeV) -> Result<ExprV, ParseError>
    decreases n, 1int,
{
    match n.rule {
        Rule::Expr => if n.inner.len() == 0 {
            Err(ParseError::ExprMissingLhs)
        } else if n.inner[0].rule != Rule::Postfix {
            Err(ParseError::ExprLhsNotPostfix)
        } else {
            match postfix_at(n.inner[0]) {
                Ok(v) => operands_from(n.inner, 1, seq![v], seq![]),
                Err(x) => Err(x),
            }
        },
        Rule::Postfix => postfix_at(n),
        Rule::Primary => primary_at(n),
        _ => Err(ParseError::ExprUnexpectedRule),
    }
}

/// The rest of an operator expression, from child `i` on, after operands `vs` and operators `ops`.
pub open spec fn operands_from(
    kids: Seq<SyntaxNodeV>,
    i: int,
    vs: Seq<ExprV>,
    ops: Seq<BinOp>,
) -> Result<ExprV, ParseError>
    decreases kids, kids.len() - i,
{
    if i < 0 || i >= kids.len() {
        Ok(prec_tree(vs, ops))
    } else if kids[i].rule != Rule::Op {
        Err(ParseError::ExprExpectedOp)
    } else {
        match op_of(kids[i].text) {
            None => Err(ParseError::ExprUnknownOp),
            Some(op) => if i + 1 >= kids.len() {
                Err(ParseError::ExprMissingRhs)
            } else if kids[i + 1].rule != Rule::Postfix {
                Err(ParseError::ExprRhsNotPostfix)
            } else {
                match postfix_at(kids[i + 1]) {
                    Ok(v) => operands_from(kids, i + 2, vs.push(v), ops.push(op)),
                    Err(x) => Err(x),
                }
            },
        }
    }
}

/// An integer, a truth value, a path or a parenthesized expression.
pub open spec fn primary_at(n: SyntaxNodeV) -> Result<ExprV, ParseError>
    decreases n, 0int,
{
    if n.inner.len() == 0 {
        Err(ParseError::MalformedTree)
    } else {
        let c = n.inner[0];
        match c.rule {
            Rule::Int => match unsigned_value(c.text, u64::MAX as nat) {
                Some(k) => Ok(ExprV::Int(k as u64)),
                None => Err(ParseError::IntLiteral),
            },
            Rule::Bool => Ok(ExprV::Bool(c.text == "true"@)),
            Rule::Path => Ok(ExprV::Path { segments: path_of(c), ref_id: None }),
            Rule::Expr => match expr_at(c) {
                Ok(e) => Ok(ExprV::Paren(Box::new(e))),
                Err(x) => Err(x),
            },
            _ => Err(ParseError::MalformedTree),
        }
    }
}

/// A primary expression with calls, indexing and field accesses behind it.
pub open spec fn postfix_at(n: SyntaxNodeV) -> Result<ExprV, ParseError>
    decreases n, 0int,
{
    if n.inner.len() == 0 {
        Err(ParseError::PostfixMissingPrimary)
    } else {
        match primary_at(n.inner[0]) {
            Ok(e) => postfix_from(n.inner, 1, e),
            Err(x) => Err(x),
        }
    }
}

/// The tails from child `i` on, applied to `e`.
pub open spec fn postfix_from(kids: Seq<SyntaxNodeV>, i: int, e: ExprV) -> Result<ExprV, ParseError>
    decreases kids, kids.len() - i,
{
    if i < 0 || i >= kids.len() {
        Ok(e)
    } else {
        match kids[i].rule {
            Rule::CallTail => match call_args(kids[i]) {
                Ok(args) => postfix_from(kids, i + 1, ExprV::Call(Box::new(e), args)),
                Err(x) => Err(x),
            },
            Rule::MapIndexTail => match two_exprs(kids[i]) {
                Ok((a, b)) => postfix_from(
                    kids,
                    i + 1,
                    ExprV::MapIndex { base: Box::new(e), keys: seq![a, b] },
                ),
                Err(x) => Err(x),
            },
            Rule::IndexTail => match index_expr(kids[i]) {
                Ok(idx) => postfix_from(kids, i + 1, ExprV::Index(Box::new(e), Box::new(idx))),
                Err(x) => Err(x),
            },
            Rule::FieldTail => if kids[i].inner.len() == 0 {
                Err(ParseError::FieldTailMissing)
            } else {
                postfix_from(
                    kids,
                    i + 1,
                    ExprV::Field {
                        base: Box::new(e),
                        name: kids[i].inner[0].text,
                        ref_id: None,
                    },
                )
            },
            _ => Err(ParseError::PostfixUnexpectedTail),
        }
    }
}

/// The arguments of a call.
pub open spec fn call_args(n: SyntaxNodeV) -> Result<Seq<ExprV>, ParseError>
    decreases n, 0int,
{
    if n.inner.len() == 0 {
        Ok(seq![])
    } else if n.inner[0].rule != Rule::ArgList {
        Err(ParseError::CallTailMalformed)
    } else {
        exprs_from(n.inner[0].inner, 0, seq![])
    }
}

/// The two keys of a map access.
pub open spec fn two_exprs(n: SyntaxNodeV) -> Result<(ExprV, ExprV), ParseError>
    decreases n, 0int,
{
    if n.inner.len() == 0 {
        Err(ParseError::MalformedTree)
    } else {
        match expr_at(n.inner[0]) {
            Err(x) => Err(x),
            Ok(a) => if n.inner.len() < 2 {
                Err(ParseError::MalformedTree)
            } else {
                match expr_at(n.inner[1]) {
                    Err(x) => Err(x),
                    Ok(b) => Ok((a, b)),
                }
            },
        }
    }
}

/// The index of an array access.
pub open spec fn index_expr(n: SyntaxNodeV) -> Result<ExprV, ParseError>
    decreases n, 0int,
{
    if n.inner.len() == 0 {
        Err(ParseError::IndexTailMissing)
    } else {
        expr_at(n.inner[0])
    }
}

/// The expressions from child `i` on, behind `acc`.
pub open spec fn exprs_from(kids: Seq<SyntaxNodeV>, i: int, acc: Seq<ExprV>) -> Result<
    Seq<ExprV>,
    ParseError,
>
    decreases kids, kids.len() - i,
{
    if i < 0 || i >= kids.len() {
        Ok(acc)
    } else {
        match expr_at(kids[i]) {
            Ok(e) => exprs_from(kids, i + 1, acc.push(e)),
            Err(x) => Err(x),
        }
    }
}

/// The type that a node denotes.
pub open spec fn type_at(n: SyntaxNodeV) -> Result<TypeV, ParseError>
    decreases n, 0int,
{
    match n.rule {
        Rule::TypeRef => if n.inner.len() == 0 {
            Err(ParseError::MalformedTree)
        } else {
            type_at(n.inner[0])
        },
        Rule::ArrayTy => if n.inner.len() == 0 {
            Err(ParseError::MalformedTree)
        } else {
            match type_at(n.inner[0]) {
                Err(x) => Err(x),
                Ok(t) => if n.inner.len() < 2 {
                    Err(ParseError::MalformedTree)
                } else {
                    match expr_at(n.inner[1]) {
                        Err(x) => Err(x),
                        Ok(e) => Ok(TypeV::Array(Box::new(t), e)),
                    }
                },
            }
        },
        Rule::MapTy => match types_from(n.inner, 0, 3, seq![]) {
            Err(x) => Err(x),
            Ok(ts) => if ts.len() < 3 {
                Err(ParseError::MalformedTree)
            } else {
                Ok(
                    TypeV::Mapping {
                        timestamp: Box::new(ts[0]),
                        key: Box::new(ts[1]),
                        value: Box::new(ts[2]),
                    },
                )
            },
        },
        Rule::TupleTy => match types_from(n.inner, 0, n.inner.len() as int, seq![]) {
            Ok(ts) => Ok(TypeV::Tuple(ts)),
            Err(x) => Err(x),
        },
        Rule::Path => Ok(TypeV::Path { segments: path_of(n), ref_id: None }),
        _ => Err(ParseError::MalformedTree),
    }
}

/// The types from child `i` up to child `end`, behind `acc`.
pub open spec fn types_from(kids: Seq<SyntaxNodeV>, i: int, end: int, acc: Seq<TypeV>) -> Result<
    Seq<TypeV>,
    ParseError,
>
    decreases kids, kids.len() - i,
{
    if i < 0 || i >= kids.len() || i >= end {
        Ok(acc)
    } else {
        match type_at(kids[i]) {
            Ok(t) => types_from(kids, i + 1, end, acc.push(t)),
            Err(x) => Err(x),
        }
    }
}

/// The assignable place that a node denotes.
pub open spec fn lvalue_at(n: SyntaxNodeV) -> Result<LValueV, ParseError> {
    if n.inner.len() == 0 {
        Err(ParseError::LValueMissingHead)
    } else {
        match lv_tails_from(n.inner, 1, seq![]) {
            Ok(tails) => Ok(LValueV { ref_id: None, head: path_of(n.inner[0]), tails }),
            Err(x) => Err(x),
        }
    }
}

/// The tails of a place from child `i` on, behind `acc`.
pub open spec fn lv_tails_from(kids: Seq<SyntaxNodeV>, i: int, acc: Seq<LvTailV>) -> Result<
    Seq<LvTailV>,
    ParseError,
>
    decreases kids.len() - i,
{
    if i < 0 || i >= kids.len() {
        Ok(acc)
    } else {
        match lv_tail_at(kids[i]) {
            Ok(t) => lv_tails_from(kids, i + 1, acc.push(t)),
            Err(x) => Err(x),
        }
    }
}

/// One tail of a place.
pub open spec fn lv_tail_at(n: SyntaxNodeV) -> Result<LvTailV, ParseError> {
    match n.rule {
        Rule::FieldTail => if n.inner.len() == 0 {
            Err(ParseError::FieldTailMissing)
        } else {
            Ok(LvTailV::Field { name: n.inner[0].text })
        },
        Rule::MapIndexTail => match two_exprs(n) {
            Ok((a, b)) => Ok(LvTailV::MapIndex(a, b)),
            Err(x) => Err(x),
        },
        Rule::IndexTail => match index_expr(n) {
            Ok(e) => Ok(LvTailV::Index(e)),
            Err(x) => Err(x),
        },
        _ => Err(ParseError::LValueUnexpectedTail),
    }
}

/// Convert a `path` into a vector of segments.
pub fn parse_path(n: &SyntaxNode) -> (r: Vec<String>)
    ensures
        texts(r@) == path_of(n@),
{
    let mut out: Vec<String> = Vec::new();
    for i in 0..n.inner.len()
        invariant
            out@.len() == i,
            forall|j: int| 0 <= j < i ==> (#[trigger] out@[j])@ == n.inner@[j].text@,
    {
        out.push(n.inner[i].text.clone());
    }
    proof {
        assert forall|j: int| 0 <= j < out@.len() implies (#[trigger] texts(out@)[j]) == path_of(
            n@,
        )[j] by {
            assert(n.inner@[j]@ == nodes_of(n.inner@)[j]);
        }
        assert(texts(out@) =~= path_of(n@));
    }
    out
}

fn parse_op(text: &str) -> (r: Option<BinOp>)
    ensures
        r == op_of(text@),
{
    if same_text(text, "==") {
        Some(BinOp::Eq)
    } else if same_text(text, "!=") {
        Some(BinOp::Ne)
    } else if same_text(text, "<") {
        Some(BinOp::Lt)
    } else if same_text(text, "<=") {
        Some(BinOp::Le)
    } else if same_text(text, ">") {
        Some(BinOp::Gt)
    } else if same_text(text, ">=") {
        Some(BinOp::Ge)
    } else if same_text(text, "&&") {
        Some(BinOp::And)
    } else if same_text(text, "||") {
        Some(BinOp::Or)
    } else if same_text(text, "*") {
        Some(BinOp::Mul)
    } else if same_text(text, "+") {
        Some(BinOp::Add)
    } else if same_text(text, "-") {
        Some(BinOp::Sub)
    } else if same_text(text, "&") {
        Some(BinOp::BitAnd)
    } else {
        None
    }
}

/// Parse an expression with precedence `*` over `+` and `-` over `&` over comparisons over `&&`
/// over `||`, all left-associative.
pub fn parse_expr(n: &SyntaxNode) -> (r: Result<Expr, ParseError>)
    ensures
        ok_view(r) == expr_at(n@),
    decreases n, 1int,
{
    match n.rule {
        Rule::Expr => {
            let ghost kids = nodes_of(n.inner@);
            if n.inner.len() == 0 {
                return Err(ParseError::ExprMissingLhs);
            }
            proof {
                assert(kids[0] == n.inner@[0]@);
            }
            if n.inner[0].rule != Rule::Postfix {
                return Err(ParseError::ExprLhsNotPostfix);
            }
            let first = match parse_postfix(&n.inner[0]) {
                Ok(v) => v,
                Err(x) => return Err(x),
            };
            let mut values: Vec<Expr> = Vec::new();
            let mut ops: Vec<BinOp> = Vec::new();
            values.push(first);
            let mut i: usize = 1;
            proof {
                assert(exprs_of(values@) =~= seq![first@]);
            }
            #[verifier::loop_isolation(false)]
            while i < n.inner.len()
                invariant
                    values@.len() == ops@.len() + 1,
                    1 <= i <= n.inner@.len(),
                    expr_at(n@) == operands_from(kids, i as int, exprs_of(values@), ops@),
                decreases n.inner@.len() - i,
            {
                proof {
                    assert(kids[i as int] == n.inner@[i as int]@);
                }
                if n.inner[i].rule != Rule::Op {
                    return Err(ParseError::ExprExpectedOp);
                }
                let op = match parse_op(n.inner[i].text.as_str()) {
                    Some(op) => op,
                    None => return Err(ParseError::ExprUnknownOp),
                };
                if i + 1 >= n.inner.len() {
                    return Err(ParseError::ExprMissingRhs);
                }
                proof {
                    assert(kids[i + 1] == n.inner@[i + 1]@);
                }
                if n.inner[i + 1].rule != Rule::Postfix {
                    return Err(ParseError::ExprRhsNotPostfix);
                }
                match parse_postfix(&n.inner[i + 1]) {
                    Ok(v) => {
                        values.push(v);
                        ops.push(op);
                    },
                    Err(x) => return Err(x),
                }
                i = i + 2;
            }
            Ok(build_bin_expr_with_precedence(values, ops))
        },
        Rule::Postfix => parse_postfix(n),
        Rule::Primary => parse_primary(n),
        _ => Err(ParseError::ExprUnexpectedRule),
    }
}

/// Parse a primary expression: integer, boolean, path, or parenthesized expression.
fn parse_primary(n: &SyntaxNode) -> (r: Result<Expr, ParseError>)
    ensures
        ok_view(r) == primary_at(n@),
    decreases n, 0int,
{
    if n.inner.len() == 0 {
        return Err(ParseError::MalformedTree);
    }
    let c = &n.inner[0];
    proof {
        assert(nodes_of(n.inner@)[0] == c@);
    }
    match c.rule {
        Rule::Int => match parse_unsigned(c.text.as_str(), u64::MAX) {
            Some(k) => Ok(Expr::Int(k)),
            None => Err(ParseError::IntLiteral),
        },
        Rule::Bool => Ok(Expr::Bool(same_text(c.text.as_str(), "true"))),
        Rule::Path => Ok(Expr::Path { segments: parse_path(c), ref_id: None }),
        Rule::Expr => match parse_expr(c) {
            Ok(e) => Ok(Expr::Paren(Box::new(e))),
            Err(x) => Err(x),
        },
        _ => Err(ParseError::MalformedTree),
    }
}

fn parse_two_exprs(n: &SyntaxNode) -> (r: Result<(Expr, Expr), ParseError>)
    ensures
        match r {
            Ok((a, b)) => two_exprs(n@) == Ok::<(ExprV, ExprV), ParseError>((a@, b@)),
            Err(x) => two_exprs(n@) == Err::<(ExprV, ExprV), ParseError>(x),
        },
    decreases n, 0int,
{
    if n.inner.len() == 0 {
        return Err(ParseError::MalformedTree);
    }
    proof {
        assert(nodes_of(n.inner@)[0] == n.inner@[0]@);
    }
    let a = match parse_expr(&n.inner[0]) {
        Ok(e) => e,
        Err(x) => return Err(x),
    };
    if n.inner.len() < 2 {
        return Err(ParseError::MalformedTree);
    }
    proof {
        assert(nodes_of(n.inner@)[1] == n.inner@[1]@);
    }
    match parse_expr(&n.inner[1]) {
        Ok(b) => Ok((a, b)),
        Err(x) => Err(x),
    }
}

fn parse_index(n: &SyntaxNode) -> (r: Result<Expr, ParseError>)
    ensures
        ok_view(r) == index_expr(n@),
    decreases n, 0int,
{
    if n.inner.len() == 0 {
        return Err(ParseError::IndexTailMissing);
    }
    proof {
        assert(nodes_of(n.inner@)[0] == n.inner@[0]@);
    }
    parse_expr(&n.inner[0])
}

fn parse_call_args(n: &SyntaxNode) -> (r: Result<Vec<Expr>, ParseError>)
    ensures
        ok_exprs(r) == call_args(n@),
    decreases n, 0int,
{
    if n.inner.len() == 0 {
        let none: Vec<Expr> = Vec::new();
        return Ok(none);
    }
    proof {
        assert(nodes_of(n.inner@)[0] == n.inner@[0]@);
    }
    if n.inner[0].rule != Rule::ArgList {
        return Err(ParseError::CallTailMalformed);
    }
    parse_exprs(&n.inner[0].inner)
}

/// Parse a list of expressions.
pub fn parse_exprs(list: &Vec<SyntaxNode>) -> (r: Result<Vec<Expr>, ParseError>)
    ensures
        ok_exprs(r) == exprs_from(nodes_of(list@), 0, seq![]),
    decreases list, 0int,
{
    let ghost kids = nodes_of(list@);
    let mut out: Vec<Expr> = Vec::new();
    #[verifier::loop_isolation(false)]
    for i in 0..list.len()
        invariant
            exprs_from(kids, 0, seq![]) == exprs_from(kids, i as int, exprs_of(out@)),
    {
        proof {
            assert(kids[i as int] == list@[i as int]@);
        }
        match parse_expr(&list[i]) {
            Ok(e) => out.push(e),
            Err(x) => return Err(x),
        }
    }
    Ok(out)
}

/// Parse a postfix expression: a primary followed by calls, indexing and field accesses.
fn parse_postfix(n: &SyntaxNode) -> (r: Result<Expr, ParseError>)
    ensures
        ok_view(r) == postfix_at(n@),
    decreases n, 0int,
{
    let ghost kids = nodes_of(n.inner@);
    if n.inner.len() == 0 {
        return Err(ParseError::PostfixMissingPrimary);
    }
    proof {
        assert(kids[0] == n.inner@[0]@);
    }
    let mut e = match parse_primary(&n.inner[0]) {
        Ok(e) => e,
        Err(x) => return Err(x),
    };
    #[verifier::loop_isolation(false)]
    for i in 1..n.inner.len()
        invariant
            postfix_at(n@) == postfix_from(kids, i as int, e@),
    {
        let tail = &n.inner[i];
        proof {
            assert(kids[i as int] == tail@);
        }
        match tail.rule {
            Rule::CallTail => match parse_call_args(tail) {
                Ok(args) => {
                    e = Expr::Call(Box::new(e), args);
                },
                Err(x) => return Err(x),
            },
            Rule::MapIndexTail => match parse_two_exprs(tail) {
                Ok((a, b)) => {
                    let mut keys: Vec<Expr> = Vec::new();
                    keys.push(a);
                    keys.push(b);
                    proof {
                        assert(exprs_of(keys@) =~= seq![a@, b@]);
                    }
                    e = Expr::MapIndex { base: Box::new(e), keys };
                },
                Err(x) => return Err(x),
            },
            Rule::IndexTail => match parse_index(tail) {
                Ok(idx) => {
                    e = Expr::Index(Box::new(e), Box::new(idx));
                },
                Err(x) => return Err(x),
            },
            Rule::FieldTail => {
                if tail.inner.len() == 0 {
                    return Err(ParseError::FieldTailMissing);
                }
                proof {
                    assert(nodes_of(tail.inner@)[0] == tail.inner@[0]@);
                }
                e = Expr::Field {
                    base: Box::new(e),
                    name: tail.inner[0].text.clone(),
                    ref_id: None,
                };
            },
            _ => return Err(ParseError::PostfixUnexpectedTail),
        }
    }
    Ok(e)
}

/// A list of types as its models.
pub open spec fn ok_types(r: Result<Vec<Type>, ParseError>) -> Result<Seq<TypeV>, ParseError> {
    match r {
        Ok(v) => Ok(types_of(v@)),
        Err(x) => Err(x),
    }
}

/// Parse at most the first `count` types of a list.
fn parse_types(list: &Vec<SyntaxNode>, count: usize) -> (r: Result<Vec<Type>, ParseError>)
    ensures
        ok_types(r) == types_from(nodes_of(list@), 0, count as int, seq![]),
    decreases list, 0int,
{
    let ghost kids = nodes_of(list@);
    let mut out: Vec<Type> = Vec::new();
    #[verifier::loop_isolation(false)]
    for i in 0..list.len()
        invariant
            types_from(kids, 0, count as int, seq![]) == types_from(
                kids,
                i as int,
                count as int,
                types_of(out@),
            ),
    {
        if i >= count {
            return Ok(out);
        }
        proof {
            assert(kids[i as int] == list@[i as int]@);
        }
        match parse_type(&list[i]) {
            Ok(t) => out.push(t),
            Err(x) => return Err(x),
        }
    }
    Ok(out)
}

/// Parse a type: an array, map or tuple type, or a path.
pub fn parse_type(n: &SyntaxNode) -> (r: Result<Type, ParseError>)
    ensures
        ok_view(r) == type_at(n@),
    decreases n, 0int,
{
    let ghost kids = nodes_of(n.inner@);
    proof {
        assert(kids.len() == n.inner@.len());
        assert(kids.len() > 0 ==> kids[0] == n.inner@[0]@);
        assert(kids.len() > 1 ==> kids[1] == n.inner@[1]@);
    }
    match n.rule {
        Rule::TypeRef => {
            if n.inner.len() == 0 {
                return Err(ParseError::MalformedTree);
            }
            parse_type(&n.inner[0])
        },
        Rule::ArrayTy => {
            if n.inner.len() == 0 {
                return Err(ParseError::MalformedTree);
            }
            let elem = match parse_type(&n.inner[0]) {
                Ok(t) => t,
                Err(x) => return Err(x),
            };
            if n.inner.len() < 2 {
                return Err(ParseError::MalformedTree);
            }
            match parse_expr(&n.inner[1]) {
                Ok(e) => Ok(Type::Array(Box::new(elem), e)),
                Err(x) => Err(x),
            }
        },
        Rule::MapTy => {
            let mut ts = match parse_types(&n.inner, 3) {
                Ok(ts) => ts,
                Err(x) => return Err(x),
            };
            if ts.len() < 3 {
                return Err(ParseError::MalformedTree);
            }
            let ghost all = ts@;
            let value = ts.remove(2);
            let key = ts.remove(1);
            let timestamp = ts.remove(0);
            proof {
                assert(types_of(all)[0] == timestamp@);
                assert(types_of(all)[1] == key@);
                assert(types_of(all)[2] == value@);
            }
            Ok(
                Type::Mapping {
                    timestamp: Box::new(timestamp),
                    key: Box::new(key),
                    value: Box::new(value),
                },
            )
        },
        Rule::TupleTy => {
            match parse_types(&n.inner, n.inner.len()) {
                Ok(ts) => Ok(Type::Tuple(ts)),
                Err(x) => Err(x),
            }
        },
        Rule::Path => Ok(Type::Path { segments: parse_path(n), ref_id: None }),
        _ => Err(ParseError::MalformedTree),
    }
}

/// Parse an lvalue: a path followed by field accesses and indexing.
pub fn parse_lvalue(n: &SyntaxNode) -> (r: Result<LValue, ParseError>)
    ensures
        ok_view(r) == lvalue_at(n@),
{
    let ghost kids = nodes_of(n.inner@);
    if n.inner.len() == 0 {
        return Err(ParseError::LValueMissingHead);
    }
    proof {
        assert(kids[0] == n.inner@[0]@);
    }
    let head = parse_path(&n.inner[0]);
    let mut tails: Vec<LvTail> = Vec::new();
    #[verifier::loop_isolation(false)]
    for i in 1..n.inner.len()
        invariant
            lv_tails_from(kids, 1, seq![]) == lv_tails_from(kids, i as int, tails_of(tails@)),
    {
        let t = &n.inner[i];
        proof {
            assert(kids[i as int] == t@);
            assert(nodes_of(t.inner@).len() == t.inner@.len());
        }
        match t.rule {
            Rule::FieldTail => {
                if t.inner.len() == 0 {
                    return Err(ParseError::FieldTailMissing);
                }
                proof {
                    assert(nodes_of(t.inner@)[0] == t.inner@[0]@);
                }
                tails.push(LvTail::Field { name: t.inner[0].text.clone() });
            },
            Rule::MapIndexTail => match parse_two_exprs(t) {
                Ok((a, b)) => tails.push(LvTail::MapIndex(a, b)),
                Err(x) => return Err(x),
            },
            Rule::IndexTail => match parse_index(t) {
                Ok(e) => tails.push(LvTail::Index(e)),
                Err(x) => return Err(x),
            },
            _ => return Err(ParseError::LValueUnexpectedTail),
        }
    }
    Ok(LValue { ref_id: None, head, tails })
}

} // verus!
