//! From text to abstract syntax.

use ziver::ast::{BinOp, Expr, File, IOType, Item, LvTail, Member, Param, Stmt, Type};
use ziver::parser::expr::{parse_expr, parse_lvalue, parse_path, parse_type};
use ziver::parser::item::file_of_tree;
use ziver::parser::parse_file;
use ziver::parser::precedence::{binop_precedence, build_bin_expr_with_precedence};
use ziver::parser::source::SourceError;
use ziver::parser::stmt::{parse_block, parse_stmt};
use ziver::parser::tree::{ParseError, Rule, SyntaxNode};

fn node(rule: Rule, text: &str, inner: Vec<SyntaxNode>) -> SyntaxNode {
    SyntaxNode { rule, text: text.to_string(), inner }
}

fn leaf(rule: Rule, text: &str) -> SyntaxNode {
    node(rule, text, vec![])
}

fn path(name: &str) -> SyntaxNode {
    node(Rule::Path, name, vec![leaf(Rule::Ident, name)])
}

fn primary(name: &str) -> SyntaxNode {
    node(Rule::Primary, name, vec![path(name)])
}

fn postfix(name: &str) -> SyntaxNode {
    node(Rule::Postfix, name, vec![primary(name)])
}

fn expr(name: &str) -> SyntaxNode {
    node(Rule::Expr, name, vec![postfix(name)])
}

fn ty(name: &str) -> SyntaxNode {
    node(Rule::TypeRef, name, vec![path(name)])
}

fn bare(rule: Rule) -> SyntaxNode {
    leaf(rule, "")
}

fn show(e: &Expr) -> String {
    match e {
        Expr::Int(k) => k.to_string(),
        Expr::Bool(b) => b.to_string(),
        Expr::Path { segments, .. } => segments.join("::"),
        Expr::Call(f, args) => {
            format!("{}({})", show(f), args.iter().map(show).collect::<Vec<_>>().join(","))
        }
        Expr::Index(b, i) => format!("{}[{}]", show(b), show(i)),
        Expr::MapIndex { base, keys } => {
            format!("{}[{}]", show(base), keys.iter().map(show).collect::<Vec<_>>().join(","))
        }
        Expr::Field { base, name, .. } => format!("{}.{}", show(base), name),
        Expr::Binary { op, lhs, rhs } => format!("<{} {:?} {}>", show(lhs), op, show(rhs)),
        Expr::Paren(e) => format!("({})", show(e)),
    }
}

fn value(text: &str) -> String {
    let file = parse_file(&format!("const field K = {};", text)).unwrap();
    match &file.items[0] {
        Item::Const { value, .. } => show(value),
        _ => panic!("not a constant"),
    }
}

fn body(text: &str) -> Vec<Stmt> {
    let src = format!("Component C {{ Computation f() {{ {} }} }}", text);
    match parse_file(&src).unwrap().items.remove(0) {
        Item::Component { mut members, .. } => match members.remove(0) {
            Member::Computation(f) => f.body,
            Member::Constraint(f) => f.body,
        },
        _ => panic!("not a component"),
    }
}

#[test]
fn operators_bind_by_precedence_and_to_the_left() {
    assert_eq!(value("a + b * c"), "<a Add <b Mul c>>");
    assert_eq!(value("a - b - c"), "<<a Sub b> Sub c>");
    assert_eq!(value("a == b & c + d"), "<a Eq <b BitAnd <c Add d>>>");
    assert_eq!(value("a || b && c < d"), "<a Or <b And <c Lt d>>>");
    assert_eq!(value("a * b == c || d"), "<<<a Mul b> Eq c> Or d>");
    assert_eq!(value("a != b >= c <= d > e"), "<<<<a Ne b> Ge c> Le d> Gt e>");
    assert_eq!(value("(a + b) * c"), "<(<a Add b>) Mul c>");
    assert_eq!(binop_precedence(&BinOp::Mul), 5);
    assert_eq!(binop_precedence(&BinOp::Add), binop_precedence(&BinOp::Sub));
    assert_eq!(binop_precedence(&BinOp::BitAnd), 3);
    assert_eq!(binop_precedence(&BinOp::Eq), binop_precedence(&BinOp::Ge));
    assert_eq!(binop_precedence(&BinOp::And), 1);
    assert_eq!(binop_precedence(&BinOp::Or), 0);
    let e = build_bin_expr_with_precedence(
        vec![Expr::Int(1), Expr::Int(2), Expr::Int(3)],
        vec![BinOp::Add, BinOp::Mul],
    );
    assert_eq!(show(&e), "<1 Add <2 Mul 3>>");
}

#[test]
fn postfix_tails_apply_from_left_to_right() {
    assert_eq!(value("a::b.c[1](x, 2)[k, l].0"), "a::b.c[1](x,2)[k,l].0");
    assert_eq!(value("f()"), "f()");
    assert_eq!(value("true && falsehood"), "<true And falsehood>");
    assert_eq!(value("18446744073709551615"), "18446744073709551615");
}

#[test]
fn white_space_and_comments_are_skipped() {
    let src = "// a file\nimport a :: b ; // imports\n\tconst\nfield K=1;// end";
    let file = parse_file(src).unwrap();
    assert_eq!(file.items.len(), 2);
    assert!(matches!(&file.items[0], Item::Import { path, .. } if path.join("/") == "a/b"));
    assert!(parse_file("").unwrap().items.is_empty());
    assert!(parse_file("  // nothing").unwrap().items.is_empty());
}

#[test]
fn declarations_are_parsed() {
    let src = "
        Struct S { input a: field, output b: [u8; 4], c: map<timestamp, u32, u32>, d: (u8, bool), }
        component S {
            Computation f(self, input x: field, y: a::T) -> field { return x; }
            constraint g() { assert(x == y); }
            Query(f, self, x; g, self, y)
        }";
    let file = parse_file(src).unwrap();
    match &file.items[0] {
        Item::Struct { name, fields, .. } => {
            assert_eq!(name, "S");
            assert_eq!(fields.len(), 4);
            assert_eq!(fields[0].io, IOType::Input);
            assert_eq!(fields[1].io, IOType::Output);
            assert_eq!(fields[2].io, IOType::Input);
            assert!(matches!(&fields[1].ty, Type::Array(_, Expr::Int(4))));
            assert!(matches!(&fields[2].ty, Type::Mapping { .. }));
            assert!(matches!(&fields[3].ty, Type::Tuple(ts) if ts.len() == 2));
        }
        _ => panic!("not a struct"),
    }
    match &file.items[1] {
        Item::Component { members, query, .. } => {
            assert_eq!(members.len(), 2);
            let f = members[0].as_func();
            assert_eq!(members[0].name(), "f");
            assert_eq!(f.params.len(), 3);
            assert!(matches!(&f.params[0], Param::SelfParam { .. }));
            assert!(matches!(&f.params[1], Param::Typed { io: IOType::Input, .. }));
            assert!(f.ret.is_some());
            assert!(members[1].as_func().ret.is_none());
            let q = query.as_ref().unwrap();
            assert_eq!(q.lhs.len(), 3);
            assert_eq!(q.rhs[0], vec!["g".to_string()]);
        }
        _ => panic!("not a component"),
    }
    assert_eq!(file.components().len(), 1);
}

#[test]
fn statements_are_parsed() {
    let b = body(
        "u32 x = 1; x = 2; self.a[1].b = 3; s &= t; for i in 0..4 { x = i; } \
         if x == 1 { x = 2; } else { x = 3; } if x == 1 { } \
         assert(x == 1); assert_eq(x, y); assert_zero(x); assert_range(x, u8); \
         lookup(ByteChip, 1, x, y); self.f(x); g(); return x;",
    );
    assert_eq!(b.len(), 15);
    assert!(matches!(&b[0], Stmt::VarDecl { name, .. } if name == "x"));
    assert!(matches!(&b[1], Stmt::Assign { .. }));
    match &b[2] {
        Stmt::Assign { target, .. } => {
            assert_eq!(target.head, vec!["self".to_string()]);
            assert_eq!(target.tails.len(), 3);
            assert!(matches!(&target.tails[1], LvTail::Index(Expr::Int(1))));
        }
        _ => panic!("not an assignment"),
    }
    assert!(matches!(&b[3], Stmt::AndAssign { .. }));
    assert!(matches!(&b[4], Stmt::For { var, body, .. } if var == "i" && body.len() == 1));
    assert!(matches!(&b[5], Stmt::If { else_branch, .. } if else_branch.len() == 1));
    assert!(matches!(&b[6], Stmt::If { then_branch, else_branch, .. }
        if then_branch.is_empty() && else_branch.is_empty()));
    assert!(matches!(&b[7], Stmt::AssertBool(_)));
    assert!(matches!(&b[8], Stmt::AssertEq(_, _)));
    assert!(matches!(&b[9], Stmt::AssertZero(_)));
    assert!(matches!(&b[10], Stmt::AssertRange { .. }));
    assert!(matches!(&b[11], Stmt::Lookup { args, .. } if args.len() == 2));
    assert!(matches!(&b[12], Stmt::Call { args, .. } if args.len() == 1));
    assert!(matches!(&b[13], Stmt::Call { args, .. } if args.is_empty()));
    assert!(matches!(&b[14], Stmt::Return(_)));
}

#[test]
fn keywords_are_whole_words() {
    assert!(matches!(&body("formula = 1;")[0], Stmt::Assign { .. }));
    assert!(matches!(&body("iffy(x);")[0], Stmt::Call { .. }));
    assert!(matches!(&body("returned = 1;")[0], Stmt::Assign { .. }));
    assert!(matches!(&body("assertion(x);")[0], Stmt::Call { .. }));
    let file = parse_file("Struct S { input: field, inputs: field, }").unwrap();
    assert!(matches!(&file.items[0], Item::Struct { fields, .. }
        if fields[0].name == "input" && fields[1].name == "inputs"));
}

fn source_fault(src: &str) -> SourceError {
    match parse_file(src) {
        Ok(_) => panic!("parsed {}", src),
        Err(x) => x,
    }
}

#[test]
fn texts_outside_the_grammar_are_refused() {
    assert_eq!(source_fault("import a"), SourceError::Syntax);
    assert_eq!(source_fault("const field K = ;"), SourceError::Syntax);
    assert_eq!(source_fault("Struct S { a field, }"), SourceError::Syntax);
    assert_eq!(source_fault("import a; }"), SourceError::Syntax);
}

#[test]
fn texts_without_a_meaning_are_refused() {
    let member = |s: &str| format!("Component C {{ Computation f() {{ {} }} }}", s);
    assert_eq!(
        source_fault("const field K = 18446744073709551616;"),
        SourceError::Meaning(ParseError::IntLiteral)
    );
    assert_eq!(
        source_fault(&member("assert(a, b, c);")),
        SourceError::Meaning(ParseError::AssertInvalid)
    );
    assert_eq!(
        source_fault(&member("assert_zero(a, b);")),
        SourceError::Meaning(ParseError::AssertZeroArity)
    );
    assert_eq!(
        source_fault(&member("lookup(ByteChip);")),
        SourceError::Meaning(ParseError::LookupArity)
    );
    assert_eq!(
        source_fault(&member("lookup(1, 2);")),
        SourceError::Meaning(ParseError::LookupChipNotPath)
    );
    assert_eq!(
        source_fault("Component C { Query(f; g) Query(f; g) }"),
        SourceError::Meaning(ParseError::DuplicateQuery)
    );
}

#[test]
fn broken_expression_trees_are_reported() {
    let fault = |n: SyntaxNode| parse_expr(&n).err();
    assert_eq!(fault(bare(Rule::Expr)), Some(ParseError::ExprMissingLhs));
    assert_eq!(
        fault(node(Rule::Expr, "", vec![bare(Rule::Op)])),
        Some(ParseError::ExprLhsNotPostfix)
    );
    let with = |rest: Vec<SyntaxNode>| {
        let mut kids = vec![postfix("a")];
        kids.extend(rest);
        node(Rule::Expr, "", kids)
    };
    assert_eq!(fault(with(vec![postfix("b")])), Some(ParseError::ExprExpectedOp));
    assert_eq!(fault(with(vec![leaf(Rule::Op, "**")])), Some(ParseError::ExprUnknownOp));
    assert_eq!(fault(with(vec![leaf(Rule::Op, "*")])), Some(ParseError::ExprMissingRhs));
    assert_eq!(
        fault(with(vec![leaf(Rule::Op, "*"), bare(Rule::Op)])),
        Some(ParseError::ExprRhsNotPostfix)
    );
    assert_eq!(fault(bare(Rule::Path)), Some(ParseError::ExprUnexpectedRule));
    assert_eq!(fault(bare(Rule::Primary)), Some(ParseError::MalformedTree));
    assert_eq!(fault(bare(Rule::Postfix)), Some(ParseError::PostfixMissingPrimary));
    let tailed = |tail: SyntaxNode| node(Rule::Postfix, "", vec![primary("a"), tail]);
    assert_eq!(fault(tailed(bare(Rule::Op))), Some(ParseError::PostfixUnexpectedTail));
    assert_eq!(fault(tailed(bare(Rule::FieldTail))), Some(ParseError::FieldTailMissing));
    assert_eq!(fault(tailed(bare(Rule::IndexTail))), Some(ParseError::IndexTailMissing));
    assert_eq!(
        fault(tailed(node(Rule::CallTail, "", vec![expr("a")]))),
        Some(ParseError::CallTailMalformed)
    );
    assert_eq!(fault(tailed(bare(Rule::MapIndexTail))), Some(ParseError::MalformedTree));
    assert_eq!(show(&parse_expr(&tailed(bare(Rule::CallTail))).unwrap()), "a()");
}

#[test]
fn broken_place_and_type_trees_are_reported() {
    assert_eq!(
        parse_lvalue(&bare(Rule::LValue)).err(),
        Some(ParseError::LValueMissingHead)
    );
    assert_eq!(
        parse_lvalue(&node(Rule::LValue, "", vec![path("a"), bare(Rule::CallTail)])).err(),
        Some(ParseError::LValueUnexpectedTail)
    );
    assert_eq!(
        parse_lvalue(&node(Rule::LValue, "", vec![path("a"), bare(Rule::FieldTail)])).err(),
        Some(ParseError::FieldTailMissing)
    );
    assert_eq!(parse_type(&bare(Rule::TypeRef)).err(), Some(ParseError::MalformedTree));
    assert_eq!(parse_type(&bare(Rule::MapTy)).err(), Some(ParseError::MalformedTree));
    assert!(matches!(parse_type(&ty("field")), Ok(Type::Path { .. })));
    assert_eq!(parse_path(&path("a")), vec!["a".to_string()]);
}

#[test]
fn broken_statement_trees_are_reported() {
    let fault = |n: SyntaxNode| parse_stmt(&n).err();
    assert_eq!(fault(bare(Rule::IfStmt)), Some(ParseError::IfMissingCond));
    assert_eq!(
        fault(node(Rule::IfStmt, "", vec![expr("a")])),
        Some(ParseError::IfMissingThen)
    );
    assert_eq!(
        fault(leaf(Rule::AssertStmt, " assert_range()")),
        Some(ParseError::AssertRangeArity)
    );
    assert_eq!(
        fault(node(Rule::AssertStmt, "assert_range(a)", vec![expr("a")])),
        Some(ParseError::AssertRangeMissingType)
    );
    assert_eq!(
        fault(leaf(Rule::AssertStmt, "assert_zero()")),
        Some(ParseError::AssertZeroArity)
    );
    assert_eq!(fault(leaf(Rule::AssertStmt, "assert()")), Some(ParseError::AssertInvalid));
    let call = |kids: Vec<SyntaxNode>| {
        let mut all = vec![node(Rule::LValue, "f", vec![path("f")])];
        all.extend(kids);
        node(Rule::CallStmt, "", vec![node(Rule::Call, "", all)])
    };
    assert_eq!(fault(call(vec![])), Some(ParseError::CallTailMissing));
    assert_eq!(fault(call(vec![bare(Rule::Op)])), Some(ParseError::CallTailExpected));
    assert_eq!(fault(bare(Rule::ForLoop)), Some(ParseError::MalformedTree));
    assert_eq!(
        parse_block(&node(Rule::Block, "", vec![bare(Rule::Op)])).err(),
        Some(ParseError::MalformedTree)
    );
    assert!(parse_block(&bare(Rule::Block)).unwrap().is_empty());
}

fn item_fault(decl: SyntaxNode) -> Option<ParseError> {
    file_of_tree(&node(Rule::File, "", vec![node(Rule::Item, "", vec![decl])])).err()
}

#[test]
fn broken_declaration_trees_are_reported() {
    let field = |kids: Vec<SyntaxNode>| {
        item_fault(node(
            Rule::StructDecl,
            "",
            vec![leaf(Rule::Ident, "S"), node(Rule::Field, "", kids)],
        ))
    };
    assert_eq!(field(vec![]), Some(ParseError::EmptyField));
    assert_eq!(field(vec![leaf(Rule::IoPrefix, "input")]), Some(ParseError::FieldMissingIdent));
    assert_eq!(field(vec![leaf(Rule::IoPrefix, "inout")]), Some(ParseError::UnknownIoPrefix));
    assert_eq!(
        field(vec![leaf(Rule::IoPrefix, "input"), ty("u8")]),
        Some(ParseError::FieldNameNotIdent)
    );
    assert_eq!(field(vec![ty("u8")]), Some(ParseError::FieldUnexpectedToken));
    assert_eq!(field(vec![leaf(Rule::Ident, "a")]), Some(ParseError::FieldMissingType));
    assert_eq!(
        field(vec![leaf(Rule::Ident, "a"), path("u8")]),
        Some(ParseError::FieldExpectedType)
    );
    let component = |m: SyntaxNode| {
        item_fault(node(Rule::Component, "", vec![leaf(Rule::Ident, "C"), m]))
    };
    let param = |p: SyntaxNode| {
        let list = node(Rule::ParamList, "", vec![p]);
        let sig = node(Rule::FuncSig, "", vec![leaf(Rule::Ident, "f"), list]);
        component(node(Rule::Computation, "", vec![sig, bare(Rule::Block)]))
    };
    assert_eq!(param(leaf(Rule::Param, "other")), Some(ParseError::ParamInvalid));
    assert_eq!(param(leaf(Rule::Param, "self")), None);
    assert_eq!(
        param(node(Rule::Param, "", vec![leaf(Rule::Ident, "x")])),
        Some(ParseError::ParamMissingType)
    );
    assert_eq!(
        param(node(Rule::Param, "", vec![leaf(Rule::IoPrefix, "output")])),
        Some(ParseError::ParamMissingIdent)
    );
    assert_eq!(
        param(node(Rule::Param, "", vec![leaf(Rule::IoPrefix, "output"), ty("u8")])),
        Some(ParseError::ParamNameNotIdent)
    );
    assert_eq!(
        param(node(Rule::Param, "", vec![ty("u8")])),
        Some(ParseError::ParamUnexpectedToken)
    );
    assert_eq!(component(bare(Rule::QueryStmt)), Some(ParseError::QueryMissingLhs));
    assert_eq!(
        component(node(Rule::QueryStmt, "", vec![bare(Rule::QuerySide)])),
        Some(ParseError::QueryMissingRhs)
    );
    let side = node(Rule::QuerySide, "", vec![expr("a")]);
    assert_eq!(
        component(node(Rule::QueryStmt, "", vec![side, bare(Rule::QuerySide)])),
        Some(ParseError::QuerySideUnexpected)
    );
    assert_eq!(component(bare(Rule::Computation)), Some(ParseError::MalformedTree));
    assert_eq!(item_fault(bare(Rule::Import)), Some(ParseError::MalformedTree));
    let skipped: File = file_of_tree(&node(Rule::File, "", vec![bare(Rule::Other)])).unwrap();
    assert!(skipped.items.is_empty());
}
