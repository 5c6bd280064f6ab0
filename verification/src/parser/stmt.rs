//! Statements and blocks.

use vstd::prelude::*;
use crate::ast::{exprs_of, stmts_of, Expr, ExprV, LValue, LValueV, Stmt, StmtV, Type, TypeV};
use crate::parser::expr::{
    expr_at, exprs_from, lvalue_at, ok_exprs, parse_expr, parse_exprs, parse_lvalue, parse_type,
    type_at,
};
use crate::parser::tree::{nodes_of, ParseError, Rule, SyntaxNode, SyntaxNodeV};
use crate::text::{begins_with, lower, lower_text, same_text, trim_start};
use crate::view::ok_view;

verus! {

broadcast use crate::ast::lists::group_lists;

/// A list of statements as its models.
pub open spec fn ok_stmts(r: Result<Vec<Stmt>, ParseError>) -> Result<Seq<StmtV>, ParseError> {
    match r {
        Ok(v) => Ok(stmts_of(v@)),
        Err(x) => Err(x),
    }
}

/// The expression at child `i`, which the grammar always provides.
pub open spec fn expr_child(n: SyntaxNodeV, i: int) -> Result<ExprV, ParseError> {
    if i >= n.inner.len() {
        Err(ParseError::MalformedTree)
    } else {
        expr_at(n.inner[i])
    }
}

/// The place at child `i`, which the grammar always provides.
pub open spec fn lvalue_child(n: SyntaxNodeV, i: int) -> Result<LValueV, ParseError> {
    if i >= n.inner.len() {
        Err(ParseError::MalformedTree)
    } else {
        lvalue_at(n.inner[i])
    }
}

/// The type at child `i`, which the grammar always provides.
pub open spec fn type_child(n: SyntaxNodeV, i: int) -> Result<TypeV, ParseError> {
    if i >= n.inner.len() {
        Err(ParseError::MalformedTree)
    } else {
        type_at(n.inner[i])
    }
}

/// A place and an expression, as in an assignment.
pub open spec fn assignment_at(n: SyntaxNodeV) -> Result<(LValueV, ExprV), ParseError> {
    match lvalue_child(n, 0) {
        Err(x) => Err(x),
        Ok(lv) => match expr_child(n, 1) {
            Err(x) => Err(x),
            Ok(e) => Ok((lv, e)),
        },
    }
}

/// The ends of a loop range.
pub open spec fn bounds_at(n: SyntaxNodeV) -> Result<(ExprV, ExprV), ParseError> {
    match expr_child(n, 0) {
        Err(x) => Err(x),
        Ok(a) => match expr_child(n, 1) {
            Err(x) => Err(x),
            Ok(b) => Ok((a, b)),
        },
    }
}

/// A variable declaration.
pub open spec fn var_decl_at(n: SyntaxNodeV) -> Result<StmtV, ParseError> {
    match type_child(n, 0) {
        Err(x) => Err(x),
        Ok(ty) => if n.inner.len() < 2 {
            Err(ParseError::MalformedTree)
        } else {
            match expr_child(n, 2) {
                Err(x) => Err(x),
                Ok(init) => Ok(StmtV::VarDecl { id: None, ty, name: n.inner[1].text, init }),
            }
        },
    }
}

/// The expressions and the type of an assertion, from child `i` on.
pub open spec fn assert_parts_from(
    kids: Seq<SyntaxNodeV>,
    i: int,
    exprs: Seq<ExprV>,
    ty: Option<TypeV>,
) -> Result<(Seq<ExprV>, Option<TypeV>), ParseError>
    decreases kids.len() - i,
{
    if i < 0 || i >= kids.len() {
        Ok((exprs, ty))
    } else {
        match kids[i].rule {
            Rule::Expr => match expr_at(kids[i]) {
                Ok(e) => assert_parts_from(kids, i + 1, exprs.push(e), ty),
                Err(x) => Err(x),
            },
            Rule::TypeRef => match type_at(kids[i]) {
                Ok(t) => assert_parts_from(kids, i + 1, exprs, Some(t)),
                Err(x) => Err(x),
            },
            Rule::ArgList => match exprs_from(kids[i].inner, 0, seq![]) {
                Ok(es) => assert_parts_from(kids, i + 1, es, ty),
                Err(x) => Err(x),
            },
            _ => assert_parts_from(kids, i + 1, exprs, ty),
        }
    }
}

/// An assertion; its keyword decides between the variants.
pub open spec fn assert_at(n: SyntaxNodeV) -> Result<StmtV, ParseError> {
    match assert_parts_from(n.inner, 0, seq![], None) {
        Err(x) => Err(x),
        Ok((exprs, ty)) => {
            let head = trim_start(n.text);
            if "assert_range"@.is_prefix_of(head) {
                if exprs.len() != 1 {
                    Err(ParseError::AssertRangeArity)
                } else {
                    match ty {
                        Some(ty) => Ok(StmtV::AssertRange { value: exprs[0], ty }),
                        None => Err(ParseError::AssertRangeMissingType),
                    }
                }
            } else if "assert_zero"@.is_prefix_of(head) {
                if exprs.len() != 1 {
                    Err(ParseError::AssertZeroArity)
                } else {
                    Ok(StmtV::AssertZero(exprs[0]))
                }
            } else if exprs.len() == 1 {
                Ok(StmtV::AssertBool(exprs[0]))
            } else if exprs.len() == 2 {
                Ok(StmtV::AssertEq(exprs[0], exprs[1]))
            } else {
                Err(ParseError::AssertInvalid)
            }
        },
    }
}

/// The arguments of a call statement.
pub open spec fn call_stmt_args(n: SyntaxNodeV) -> Result<Seq<ExprV>, ParseError> {
    if n.inner.len() < 2 {
        Err(ParseError::CallTailMissing)
    } else {
        let tail = n.inner[1];
        if tail.rule != Rule::CallTail {
            Err(ParseError::CallTailExpected)
        } else if tail.inner.len() > 0 && tail.inner[0].rule == Rule::ArgList {
            exprs_from(tail.inner[0].inner, 0, seq![])
        } else {
            Ok(seq![])
        }
    }
}

/// A call of `lookup` becomes a lookup statement; any other call stays a call.
pub open spec fn call_or_lookup(lv: LValueV, args: Seq<ExprV>) -> Result<StmtV, ParseError> {
    if lv.head.len() == 1 && lower(lv.head[0]) == "lookup"@ && lv.tails.len() == 0 {
        if args.len() < 2 {
            Err(ParseError::LookupArity)
        } else {
            match args[0] {
                ExprV::Path { segments, .. } => Ok(
                    StmtV::Lookup { chip: segments, opcode: args[1], args: args.skip(2) },
                ),
                _ => Err(ParseError::LookupChipNotPath),
            }
        }
    } else {
        Ok(StmtV::Call { callee: lv, args })
    }
}

/// A call statement.
pub open spec fn call_at(n: SyntaxNodeV) -> Result<StmtV, ParseError> {
    match lvalue_child(n, 0) {
        Err(x) => Err(x),
        Ok(lv) => match call_stmt_args(n) {
            Err(x) => Err(x),
            Ok(args) => call_or_lookup(lv, args),
        },
    }
}

/// The statement that a node denotes.
pub open spec fn stmt_at(n: SyntaxNodeV) -> Result<StmtV, ParseError>
    decreases n, 0int,
{
    match n.rule {
        Rule::VarDecl => var_decl_at(n),
        Rule::Assign => match assignment_at(n) {
            Ok((target, value)) => Ok(StmtV::Assign { target, value }),
            Err(x) => Err(x),
        },
        Rule::AndAssign => match assignment_at(n) {
            Ok((target, value)) => Ok(StmtV::AndAssign { target, value }),
            Err(x) => Err(x),
        },
        Rule::ForLoop => if n.inner.len() < 2 {
            Err(ParseError::MalformedTree)
        } else {
            match bounds_at(n.inner[1]) {
                Err(x) => Err(x),
                Ok((start, end)) => if n.inner.len() < 3 {
                    Err(ParseError::MalformedTree)
                } else {
                    match stmts_from(n.inner[2].inner, 0, seq![]) {
                        Err(x) => Err(x),
                        Ok(body) => Ok(
                            StmtV::For { id: None, var: n.inner[0].text, start, end, body },
                        ),
                    }
                },
            }
        },
        Rule::IfStmt => if n.inner.len() == 0 {
            Err(ParseError::IfMissingCond)
        } else {
            match expr_at(n.inner[0]) {
                Err(x) => Err(x),
                Ok(cond) => if n.inner.len() < 2 {
                    Err(ParseError::IfMissingThen)
                } else {
                    match stmts_from(n.inner[1].inner, 0, seq![]) {
                        Err(x) => Err(x),
                        Ok(then_branch) => if n.inner.len() < 3 {
                            Ok(StmtV::If { cond, then_branch, else_branch: seq![] })
                        } else {
                            match stmts_from(n.inner[2].inner, 0, seq![]) {
                                Err(x) => Err(x),
                                Ok(else_branch) => Ok(
                                    StmtV::If { cond, then_branch, else_branch },
                                ),
                            }
                        },
                    }
                },
            }
        },
        Rule::AssertStmt => assert_at(n),
        Rule::CallStmt => if n.inner.len() == 0 {
            Err(ParseError::MalformedTree)
        } else {
            call_at(n.inner[0])
        },
        Rule::ReturnStmt => match expr_child(n, 0) {
            Ok(e) => Ok(StmtV::Return(e)),
            Err(x) => Err(x),
        },
        _ => Err(ParseError::MalformedTree),
    }
}

/// The statements from child `i` on, behind `acc`.
pub open spec fn stmts_from(kids: Seq<SyntaxNodeV>, i: int, acc: Seq<StmtV>) -> Result<
    Seq<StmtV>,
    ParseError,
>
    decreases kids, kids.len() - i,
{
    if i < 0 || i >= kids.len() {
        Ok(acc)
    } else {
        match stmt_at(kids[i]) {
            Ok(s) => stmts_from(kids, i + 1, acc.push(s)),
            Err(x) => Err(x),
        }
    }
}

fn parse_expr_child(n: &SyntaxNode, i: usize) -> (r: Result<Expr, ParseError>)
    ensures
        ok_view(r) == expr_child(n@, i as int),
{
    proof {
        assert(nodes_of(n.inner@).len() == n.inner@.len());
        assert(i < n.inner@.len() ==> nodes_of(n.inner@)[i as int] == n.inner@[i as int]@);
    }
    if i >= n.inner.len() {
        Err(ParseError::MalformedTree)
    } else {
        parse_expr(&n.inner[i])
    }
}

fn parse_lvalue_child(n: &SyntaxNode, i: usize) -> (r: Result<LValue, ParseError>)
    ensures
        ok_view(r) == lvalue_child(n@, i as int),
{
    proof {
        assert(nodes_of(n.inner@).len() == n.inner@.len());
        assert(i < n.inner@.len() ==> nodes_of(n.inner@)[i as int] == n.inner@[i as int]@);
    }
    if i >= n.inner.len() {
        Err(ParseError::MalformedTree)
    } else {
        parse_lvalue(&n.inner[i])
    }
}

fn parse_assignment(n: &SyntaxNode) -> (r: Result<(LValue, Expr), ParseError>)
    ensures
        match r {
            Ok((lv, e)) => assignment_at(n@) == Ok::<(LValueV, ExprV), ParseError>((lv@, e@)),
            Err(x) => assignment_at(n@) == Err::<(LValueV, ExprV), ParseError>(x),
        },
{
    let lv = match parse_lvalue_child(n, 0) {
        Ok(lv) => lv,
        Err(x) => return Err(x),
    };
    match parse_expr_child(n, 1) {
        Ok(e) => Ok((lv, e)),
        Err(x) => Err(x),
    }
}

fn parse_bounds(n: &SyntaxNode) -> (r: Result<(Expr, Expr), ParseError>)
    ensures
        match r {
            Ok((a, b)) => bounds_at(n@) == Ok::<(ExprV, ExprV), ParseError>((a@, b@)),
            Err(x) => bounds_at(n@) == Err::<(ExprV, ExprV), ParseError>(x),
        },
{
    let a = match parse_expr_child(n, 0) {
        Ok(a) => a,
        Err(x) => return Err(x),
    };
    match parse_expr_child(n, 1) {
        Ok(b) => Ok((a, b)),
        Err(x) => Err(x),
    }
}

fn parse_var_decl(n: &SyntaxNode) -> (r: Result<Stmt, ParseError>)
    ensures
        ok_view(r) == var_decl_at(n@),
{
    proof {
        assert(nodes_of(n.inner@).len() == n.inner@.len());
        assert(n.inner@.len() > 0 ==> nodes_of(n.inner@)[0] == n.inner@[0]@);
        assert(n.inner@.len() > 1 ==> nodes_of(n.inner@)[1] == n.inner@[1]@);
    }
    if n.inner.len() == 0 {
        return Err(ParseError::MalformedTree);
    }
    let ty = match parse_type(&n.inner[0]) {
        Ok(ty) => ty,
        Err(x) => return Err(x),
    };
    if n.inner.len() < 2 {
        return Err(ParseError::MalformedTree);
    }
    let name = n.inner[1].text.clone();
    match parse_expr_child(n, 2) {
        Ok(init) => Ok(Stmt::VarDecl { id: None, ty, name, init }),
        Err(x) => Err(x),
    }
}

/// Parse an assertion statement with multiple builtin variants.
fn parse_assert_stmt(n: &SyntaxNode) -> (r: Result<Stmt, ParseError>)
    ensures
        ok_view(r) == assert_at(n@),
{
    let ghost kids = nodes_of(n.inner@);
    let mut exprs: Vec<Expr> = Vec::new();
    let mut ty: Option<Type> = None;
    #[verifier::loop_isolation(false)]
    for i in 0..n.inner.len()
        invariant
            assert_parts_from(kids, 0, seq![], None) == assert_parts_from(
                kids,
                i as int,
                exprs_of(exprs@),
                crate::view::some_view(ty),
            ),
    {
        let c = &n.inner[i];
        proof {
            assert(kids[i as int] == c@);
        }
        match c.rule {
            Rule::Expr => match parse_expr(c) {
                Ok(e) => exprs.push(e),
                Err(x) => return Err(x),
            },
            Rule::TypeRef => match parse_type(c) {
                Ok(t) => {
                    ty = Some(t);
                },
                Err(x) => return Err(x),
            },
            Rule::ArgList => match parse_exprs(&c.inner) {
                Ok(es) => {
                    exprs = es;
                },
                Err(x) => return Err(x),
            },
            _ => {},
        }
    }
    let ghost all = exprs@;
    proof {
        assert(exprs_of(all).len() == all.len());
        assert(all.len() > 0 ==> exprs_of(all)[0] == all[0]@);
        assert(all.len() > 1 ==> exprs_of(all)[1] == all[1]@);
    }
    if begins_with(n.text.as_str(), "assert_range") {
        if exprs.len() != 1 {
            return Err(ParseError::AssertRangeArity);
        }
        return match ty {
            Some(ty) => Ok(Stmt::AssertRange { value: exprs.remove(0), ty }),
            None => Err(ParseError::AssertRangeMissingType),
        };
    }
    if begins_with(n.text.as_str(), "assert_zero") {
        if exprs.len() != 1 {
            return Err(ParseError::AssertZeroArity);
        }
        return Ok(Stmt::AssertZero(exprs.remove(0)));
    }
    if exprs.len() == 1 {
        Ok(Stmt::AssertBool(exprs.remove(0)))
    } else if exprs.len() == 2 {
        let rhs = exprs.remove(1);
        let lhs = exprs.remove(0);
        Ok(Stmt::AssertEq(lhs, rhs))
    } else {
        Err(ParseError::AssertInvalid)
    }
}

fn parse_call_stmt_args(n: &SyntaxNode) -> (r: Result<Vec<Expr>, ParseError>)
    ensures
        ok_exprs(r) == call_stmt_args(n@),
{
    proof {
        assert(nodes_of(n.inner@).len() == n.inner@.len());
    }
    if n.inner.len() < 2 {
        return Err(ParseError::CallTailMissing);
    }
    let tail = &n.inner[1];
    proof {
        assert(nodes_of(n.inner@)[1] == tail@);
        assert(nodes_of(tail.inner@).len() == tail.inner@.len());
        assert(tail.inner@.len() > 0 ==> nodes_of(tail.inner@)[0] == tail.inner@[0]@);
    }
    if tail.rule != Rule::CallTail {
        return Err(ParseError::CallTailExpected);
    }
    if tail.inner.len() > 0 && tail.inner[0].rule == Rule::ArgList {
        parse_exprs(&tail.inner[0].inner)
    } else {
        let none: Vec<Expr> = Vec::new();
        Ok(none)
    }
}

/// Parse a call statement; a call of `lookup` is dispatched to the builtin.
fn parse_call_stmt(n: &SyntaxNode) -> (r: Result<Stmt, ParseError>)
    ensures
        ok_view(r) == call_at(n@),
{
    let lv = match parse_lvalue_child(n, 0) {
        Ok(lv) => lv,
        Err(x) => return Err(x),
    };
    let mut args = match parse_call_stmt_args(n) {
        Ok(args) => args,
        Err(x) => return Err(x),
    };
    proof {
        assert(lv@.head.len() == lv.head@.len());
        assert(lv@.head.len() > 0 ==> lv@.head[0] == lv.head@[0]@);
        assert(crate::ast::tails_of(lv.tails@).len() == lv.tails@.len());
        assert(exprs_of(args@).len() == args@.len());
    }
    if lv.head.len() == 1 && same_text(lower_text(lv.head[0].as_str()).as_str(), "lookup")
        && lv.tails.len() == 0 {
        if args.len() < 2 {
            return Err(ParseError::LookupArity);
        }
        let ghost all = args@;
        let chip_expr = args.remove(0);
        let opcode = args.remove(0);
        proof {
            assert(exprs_of(all)[0] == chip_expr@);
            assert(exprs_of(all)[1] == opcode@);
            assert(exprs_of(args@) =~= exprs_of(all).skip(2));
        }
        match chip_expr {
            Expr::Path { segments, .. } => Ok(Stmt::Lookup { chip: segments, opcode, args }),
            _ => Err(ParseError::LookupChipNotPath),
        }
    } else {
        Ok(Stmt::Call { callee: lv, args })
    }
}

/// Parse a block into a vector of statements.
pub fn parse_block(n: &SyntaxNode) -> (r: Result<Vec<Stmt>, ParseError>)
    ensures
        ok_stmts(r) == stmts_from(n@.inner, 0, seq![]),
    decreases n, 1int,
{
    let ghost kids = nodes_of(n.inner@);
    let mut out: Vec<Stmt> = Vec::new();
    #[verifier::loop_isolation(false)]
    for i in 0..n.inner.len()
        invariant
            stmts_from(kids, 0, seq![]) == stmts_from(kids, i as int, stmts_of(out@)),
    {
        proof {
            assert(kids[i as int] == n.inner@[i as int]@);
        }
        match parse_stmt(&n.inner[i]) {
            Ok(s) => out.push(s),
            Err(x) => return Err(x),
        }
    }
    Ok(out)
}

/// Parse an if-then-else statement.
fn parse_if_stmt(n: &SyntaxNode) -> (r: Result<Stmt, ParseError>)
    requires
        n.rule == Rule::IfStmt,
    ensures
        ok_view(r) == stmt_at(n@),
    decreases n, 0int,
{
    let ghost kids = nodes_of(n.inner@);
    proof {
        assert(kids.len() == n.inner@.len());
        assert(kids.len() > 0 ==> kids[0] == n.inner@[0]@);
        assert(kids.len() > 1 ==> kids[1] == n.inner@[1]@);
        assert(kids.len() > 2 ==> kids[2] == n.inner@[2]@);
    }
    if n.inner.len() == 0 {
        return Err(ParseError::IfMissingCond);
    }
    let cond = match parse_expr(&n.inner[0]) {
        Ok(e) => e,
        Err(x) => return Err(x),
    };
    if n.inner.len() < 2 {
        return Err(ParseError::IfMissingThen);
    }
    let then_branch = match parse_block(&n.inner[1]) {
        Ok(b) => b,
        Err(x) => return Err(x),
    };
    if n.inner.len() < 3 {
        let none: Vec<Stmt> = Vec::new();
        return Ok(Stmt::If { cond, then_branch, else_branch: none });
    }
    match parse_block(&n.inner[2]) {
        Ok(else_branch) => Ok(Stmt::If { cond, then_branch, else_branch }),
        Err(x) => Err(x),
    }
}

fn parse_for(n: &SyntaxNode) -> (r: Result<Stmt, ParseError>)
    requires
        n.rule == Rule::ForLoop,
    ensures
        ok_view(r) == stmt_at(n@),
    decreases n, 0int,
{
    let ghost kids = nodes_of(n.inner@);
    proof {
        assert(kids.len() == n.inner@.len());
        assert(kids.len() > 0 ==> kids[0] == n.inner@[0]@);
        assert(kids.len() > 1 ==> kids[1] == n.inner@[1]@);
        assert(kids.len() > 2 ==> kids[2] == n.inner@[2]@);
    }
    if n.inner.len() < 2 {
        return Err(ParseError::MalformedTree);
    }
    let (start, end) = match parse_bounds(&n.inner[1]) {
        Ok(b) => b,
        Err(x) => return Err(x),
    };
    if n.inner.len() < 3 {
        return Err(ParseError::MalformedTree);
    }
    match parse_block(&n.inner[2]) {
        Ok(body) => Ok(
            Stmt::For { id: None, var: n.inner[0].text.clone(), start, end, body },
        ),
        Err(x) => Err(x),
    }
}

/// Parse a statement.
pub fn parse_stmt(n: &SyntaxNode) -> (r: Result<Stmt, ParseError>)
    ensures
        ok_view(r) == stmt_at(n@),
    decreases n, 1int,
{
    match n.rule {
        Rule::VarDecl => parse_var_decl(n),
        Rule::Assign => match parse_assignment(n) {
            Ok((target, value)) => Ok(Stmt::Assign { target, value }),
            Err(x) => Err(x),
        },
        Rule::AndAssign => match parse_assignment(n) {
            Ok((target, value)) => Ok(Stmt::AndAssign { target, value }),
            Err(x) => Err(x),
        },
        Rule::ForLoop => parse_for(n),
        Rule::IfStmt => parse_if_stmt(n),
        Rule::AssertStmt => parse_assert_stmt(n),
        Rule::CallStmt => {
            proof {
                assert(nodes_of(n.inner@).len() == n.inner@.len());
                assert(n.inner@.len() > 0 ==> nodes_of(n.inner@)[0] == n.inner@[0]@);
            }
            if n.inner.len() == 0 {
                return Err(ParseError::MalformedTree);
            }
            parse_call_stmt(&n.inner[0])
        },
        Rule::ReturnStmt => match parse_expr_child(n, 0) {
            Ok(e) => Ok(Stmt::Return(e)),
            Err(x) => Err(x),
        },
        _ => Err(ParseError::MalformedTree),
    }
}

} // verus!
