//! The grammar of the circuit language.

use vstd::prelude::*;
use crate::parser::tree::Rule;

verus! {

/// A parsing expression. White space and comments may stand before every word, name and number.
#[derive(Debug)]
pub enum Peg {
    /// A word as it stands or, if the flag is set, in any mix of upper and lower case; the word
    /// itself is given in lower case.
    Word(String, bool),
    /// A name: a letter or an underscore, and letters, digits and underscores behind it.
    Name,
    /// Decimal digits.
    Digits,
    /// The end of the text.
    End,
    /// Nothing at all.
    Empty,
    /// No text.
    Never,
    /// What a rule matches, as a node of the syntax tree.
    Node(Rule),
    /// One after the other.
    Then(Box<Peg>, Box<Peg>),
    /// The first or, where it does not match, the second.
    Or(Box<Peg>, Box<Peg>),
    /// As often as it matches.
    Many(Box<Peg>),
}

/// Mathematical model of [`Peg`].
pub enum PegV {
    Word(Seq<char>, bool),
    Name,
    Digits,
    End,
    Empty,
    Never,
    Node(Rule),
    Then(Box<PegV>, Box<PegV>),
    Or(Box<PegV>, Box<PegV>),
    Many(Box<PegV>),
}

/// The model of a parsing expression.
pub open spec fn peg_of(p: Peg) -> PegV
    decreases p,
{
    match p {
        Peg::Word(w, any_case) => PegV::Word(w@, any_case),
        Peg::Name => PegV::Name,
        Peg::Digits => PegV::Digits,
        Peg::End => PegV::End,
        Peg::Empty => PegV::Empty,
        Peg::Never => PegV::Never,
        Peg::Node(r) => PegV::Node(r),
        Peg::Then(a, b) => PegV::Then(Box::new(peg_of(*a)), Box::new(peg_of(*b))),
        Peg::Or(a, b) => PegV::Or(Box::new(peg_of(*a)), Box::new(peg_of(*b))),
        Peg::Many(a) => PegV::Many(Box::new(peg_of(*a))),
    }
}

impl View for Peg {
    type V = PegV;

    open spec fn view(&self) -> PegV {
        peg_of(*self)
    }
}

impl PegV {
    /// A word as it stands.
    pub open spec fn word(w: Seq<char>) -> PegV {
        PegV::Word(w, false)
    }

    /// A word in any mix of upper and lower case.
    pub open spec fn key(w: Seq<char>) -> PegV {
        PegV::Word(w, true)
    }

    /// A node of the syntax tree.
    pub open spec fn node(r: Rule) -> PegV {
        PegV::Node(r)
    }

    /// A name.
    pub open spec fn name() -> PegV {
        PegV::Name
    }

    /// Decimal digits.
    pub open spec fn digits() -> PegV {
        PegV::Digits
    }

    /// The end of the text.
    pub open spec fn end() -> PegV {
        PegV::End
    }

    /// As often as it matches.
    pub open spec fn many(a: PegV) -> PegV {
        PegV::Many(Box::new(a))
    }

    /// Once or not at all.
    pub open spec fn maybe(a: PegV) -> PegV {
        PegV::Or(Box::new(a), Box::new(PegV::Empty))
    }

    /// One after the other.
    pub open spec fn all2(a: PegV, b: PegV) -> PegV {
        PegV::Then(Box::new(a), Box::new(b))
    }

    /// One after the other.
    pub open spec fn all3(a: PegV, b: PegV, c: PegV) -> PegV {
        PegV::Then(Box::new(a), Box::new(PegV::all2(b, c)))
    }

    /// One after the other.
    pub open spec fn all4(a: PegV, b: PegV, c: PegV, d: PegV) -> PegV {
        PegV::Then(Box::new(a), Box::new(PegV::all3(b, c, d)))
    }

    /// One after the other.
    pub open spec fn all5(a: PegV, b: PegV, c: PegV, d: PegV, e: PegV) -> PegV {
        PegV::Then(Box::new(a), Box::new(PegV::all4(b, c, d, e)))
    }

    /// One after the other.
    pub open spec fn all6(a: PegV, b: PegV, c: PegV, d: PegV, e: PegV, f: PegV) -> PegV {
        PegV::Then(Box::new(a), Box::new(PegV::all5(b, c, d, e, f)))
    }

    /// One after the other.
    pub open spec fn all7(a: PegV, b: PegV, c: PegV, d: PegV, e: PegV, f: PegV, g: PegV) -> PegV {
        PegV::Then(Box::new(a), Box::new(PegV::all6(b, c, d, e, f, g)))
    }

    /// One after the other.
    pub open spec fn all8(a: PegV, b: PegV, c: PegV, d: PegV, e: PegV, f: PegV, g: PegV, h: PegV) -> PegV {
        PegV::Then(Box::new(a), Box::new(PegV::all7(b, c, d, e, f, g, h)))
    }

    /// The first that matches.
    pub open spec fn any2(a: PegV, b: PegV) -> PegV {
        PegV::Or(Box::new(a), Box::new(b))
    }

    /// The first that matches.
    pub open spec fn any3(a: PegV, b: PegV, c: PegV) -> PegV {
        PegV::Or(Box::new(a), Box::new(PegV::any2(b, c)))
    }

    /// The first that matches.
    pub open spec fn any4(a: PegV, b: PegV, c: PegV, d: PegV) -> PegV {
        PegV::Or(Box::new(a), Box::new(PegV::any3(b, c, d)))
    }

    /// The first that matches.
    pub open spec fn any5(a: PegV, b: PegV, c: PegV, d: PegV, e: PegV) -> PegV {
        PegV::Or(Box::new(a), Box::new(PegV::any4(b, c, d, e)))
    }

    /// The first that matches.
    pub open spec fn any6(a: PegV, b: PegV, c: PegV, d: PegV, e: PegV, f: PegV) -> PegV {
        PegV::Or(Box::new(a), Box::new(PegV::any5(b, c, d, e, f)))
    }

    /// The first that matches.
    pub open spec fn any7(a: PegV, b: PegV, c: PegV, d: PegV, e: PegV, f: PegV, g: PegV) -> PegV {
        PegV::Or(Box::new(a), Box::new(PegV::any6(b, c, d, e, f, g)))
    }

    /// The first that matches.
    pub open spec fn any8(a: PegV, b: PegV, c: PegV, d: PegV, e: PegV, f: PegV, g: PegV, h: PegV) -> PegV {
        PegV::Or(Box::new(a), Box::new(PegV::any7(b, c, d, e, f, g, h)))
    }

    /// The first that matches.
    pub open spec fn any9(a: PegV, b: PegV, c: PegV, d: PegV, e: PegV, f: PegV, g: PegV, h: PegV, i: PegV) -> PegV {
        PegV::Or(Box::new(a), Box::new(PegV::any8(b, c, d, e, f, g, h, i)))
    }

    /// The first that matches.
    pub open spec fn any10(a: PegV, b: PegV, c: PegV, d: PegV, e: PegV, f: PegV, g: PegV, h: PegV, i: PegV, j: PegV) -> PegV {
        PegV::Or(Box::new(a), Box::new(PegV::any9(b, c, d, e, f, g, h, i, j)))
    }

    /// The first that matches.
    pub open spec fn any11(a: PegV, b: PegV, c: PegV, d: PegV, e: PegV, f: PegV, g: PegV, h: PegV, i: PegV, j: PegV, k: PegV) -> PegV {
        PegV::Or(Box::new(a), Box::new(PegV::any10(b, c, d, e, f, g, h, i, j, k)))
    }

    /// The first that matches.
    pub open spec fn any12(a: PegV, b: PegV, c: PegV, d: PegV, e: PegV, f: PegV, g: PegV, h: PegV, i: PegV, j: PegV, k: PegV, l: PegV) -> PegV {
        PegV::Or(Box::new(a), Box::new(PegV::any11(b, c, d, e, f, g, h, i, j, k, l)))
    }
}

/// Declarations.
pub open spec fn declarations(rule: Rule) -> PegV {
    match rule {
        // `item*` up to the end of the text
        Rule::File => PegV::all2(PegV::many(PegV::node(Rule::Item)), PegV::end()),
        Rule::Item => PegV::any4(
            PegV::node(Rule::Import),
            PegV::node(Rule::ConstDecl),
            PegV::node(Rule::StructDecl),
            PegV::node(Rule::Component),
        ),
        // `import path;`
        Rule::Import => PegV::all3(PegV::key("import"@), PegV::node(Rule::Path), PegV::word(";"@)),
        // `const type name = expr;`
        Rule::ConstDecl => PegV::all6(
            PegV::key("const"@),
            PegV::node(Rule::TypeRef),
            PegV::node(Rule::Ident),
            PegV::word("="@),
            PegV::node(Rule::Expr),
            PegV::word(";"@),
        ),
        // `Struct Name { field* }`
        Rule::StructDecl => PegV::all5(
            PegV::key("struct"@),
            PegV::node(Rule::Ident),
            PegV::word("{"@),
            PegV::many(PegV::node(Rule::Field)),
            PegV::word("}"@),
        ),
        // `Component Name { member* }`
        Rule::Component => PegV::all5(
            PegV::key("component"@),
            PegV::node(Rule::Ident),
            PegV::word("{"@),
            PegV::many(
                PegV::any3(
                    PegV::node(Rule::Computation),
                    PegV::node(Rule::Constraint),
                    PegV::node(Rule::QueryStmt),
                ),
            ),
            PegV::word("}"@),
        ),
        // `io? name : type,`
        Rule::Field => PegV::any2(
            PegV::all5(
                PegV::node(Rule::IoPrefix),
                PegV::node(Rule::Ident),
                PegV::word(":"@),
                PegV::node(Rule::TypeRef),
                PegV::word(","@),
            ),
            PegV::all4(
                PegV::node(Rule::Ident),
                PegV::word(":"@),
                PegV::node(Rule::TypeRef),
                PegV::word(","@),
            ),
        ),
        Rule::IoPrefix => PegV::any4(
            PegV::word("input"@),
            PegV::word("Input"@),
            PegV::word("output"@),
            PegV::word("Output"@),
        ),
        Rule::Ident => PegV::name(),
        Rule::TypeRef => PegV::any4(
            PegV::node(Rule::ArrayTy),
            PegV::node(Rule::MapTy),
            PegV::node(Rule::TupleTy),
            PegV::node(Rule::Path),
        ),
        // `[type; expr]`
        Rule::ArrayTy => PegV::all5(
            PegV::word("["@),
            PegV::node(Rule::TypeRef),
            PegV::word(";"@),
            PegV::node(Rule::Expr),
            PegV::word("]"@),
        ),
        // `map<type, type, type>`
        Rule::MapTy => PegV::all8(
            PegV::word("map"@),
            PegV::word("<"@),
            PegV::node(Rule::TypeRef),
            PegV::word(","@),
            PegV::node(Rule::TypeRef),
            PegV::word(","@),
            PegV::node(Rule::TypeRef),
            PegV::word(">"@),
        ),
        // `(type, type, ..)`
        Rule::TupleTy => PegV::all6(
            PegV::word("("@),
            PegV::node(Rule::TypeRef),
            PegV::word(","@),
            PegV::node(Rule::TypeRef),
            PegV::many(PegV::all2(PegV::word(","@), PegV::node(Rule::TypeRef))),
            PegV::word(")"@),
        ),
        // `name::name`
        Rule::Path => PegV::all2(
            PegV::node(Rule::Ident),
            PegV::many(PegV::all2(PegV::word("::"@), PegV::node(Rule::Ident))),
        ),
        // `Computation sig block`
        Rule::Computation => PegV::all3(
            PegV::key("computation"@),
            PegV::node(Rule::FuncSig),
            PegV::node(Rule::Block),
        ),
        // `Constraint sig block`
        Rule::Constraint => PegV::all3(
            PegV::key("constraint"@),
            PegV::node(Rule::FuncSig),
            PegV::node(Rule::Block),
        ),
        _ => PegV::Never,
    }
}

/// Signatures and statements.
pub open spec fn bodies(rule: Rule) -> PegV {
    match rule {
        // `Query(side; side)`
        Rule::QueryStmt => PegV::all7(
            PegV::key("query"@),
            PegV::word("("@),
            PegV::node(Rule::QuerySide),
            PegV::word(";"@),
            PegV::node(Rule::QuerySide),
            PegV::word(")"@),
            PegV::maybe(PegV::word(";"@)),
        ),
        Rule::QuerySide => PegV::all3(
            PegV::node(Rule::Path),
            PegV::many(PegV::all2(PegV::word(","@), PegV::node(Rule::Path))),
            PegV::maybe(PegV::word(","@)),
        ),
        // `name(params) -> type`
        Rule::FuncSig => PegV::all5(
            PegV::node(Rule::Ident),
            PegV::word("("@),
            PegV::maybe(PegV::node(Rule::ParamList)),
            PegV::word(")"@),
            PegV::maybe(PegV::all2(PegV::word("->"@), PegV::node(Rule::TypeRef))),
        ),
        Rule::ParamList => PegV::all3(
            PegV::node(Rule::Param),
            PegV::many(PegV::all2(PegV::word(","@), PegV::node(Rule::Param))),
            PegV::maybe(PegV::word(","@)),
        ),
        // `self` or `io? name : type`
        Rule::Param => PegV::any3(
            PegV::all4(
                PegV::node(Rule::IoPrefix),
                PegV::node(Rule::Ident),
                PegV::word(":"@),
                PegV::node(Rule::TypeRef),
            ),
            PegV::all3(PegV::node(Rule::Ident), PegV::word(":"@), PegV::node(Rule::TypeRef)),
            PegV::word("self"@),
        ),
        // `{ statement* }`
        Rule::Block => PegV::all3(
            PegV::word("{"@),
            PegV::many(
                PegV::any8(
                    PegV::node(Rule::ForLoop),
                    PegV::node(Rule::IfStmt),
                    PegV::node(Rule::AssertStmt),
                    PegV::node(Rule::ReturnStmt),
                    PegV::node(Rule::VarDecl),
                    PegV::node(Rule::Assign),
                    PegV::node(Rule::AndAssign),
                    PegV::node(Rule::CallStmt),
                ),
            ),
            PegV::word("}"@),
        ),
        // `type name = expr;`
        Rule::VarDecl => PegV::all5(
            PegV::node(Rule::TypeRef),
            PegV::node(Rule::Ident),
            PegV::word("="@),
            PegV::node(Rule::Expr),
            PegV::word(";"@),
        ),
        // `place = expr;`
        Rule::Assign => PegV::all4(
            PegV::node(Rule::LValue),
            PegV::word("="@),
            PegV::node(Rule::Expr),
            PegV::word(";"@),
        ),
        // `place &= expr;`
        Rule::AndAssign => PegV::all4(
            PegV::node(Rule::LValue),
            PegV::word("&="@),
            PegV::node(Rule::Expr),
            PegV::word(";"@),
        ),
        // `for name in range block`
        Rule::ForLoop => PegV::all5(
            PegV::word("for"@),
            PegV::node(Rule::Ident),
            PegV::word("in"@),
            PegV::node(Rule::RangeExpr),
            PegV::node(Rule::Block),
        ),
        // `expr..expr`
        Rule::RangeExpr => PegV::all3(PegV::node(Rule::Expr), PegV::word(".."@), PegV::node(Rule::Expr)),
        // `if expr block else block`
        Rule::IfStmt => PegV::all4(
            PegV::word("if"@),
            PegV::node(Rule::Expr),
            PegV::node(Rule::Block),
            PegV::maybe(PegV::all2(PegV::word("else"@), PegV::node(Rule::Block))),
        ),
        Rule::AssertStmt => PegV::any2(
            PegV::all7(
                PegV::word("assert_range"@),
                PegV::word("("@),
                PegV::node(Rule::Expr),
                PegV::word(","@),
                PegV::node(Rule::TypeRef),
                PegV::word(")"@),
                PegV::word(";"@),
            ),
            PegV::all5(
                PegV::any4(
                    PegV::word("assert_zero"@),
                    PegV::word("assert_eq"@),
                    PegV::word("assert_bool"@),
                    PegV::word("assert"@),
                ),
                PegV::word("("@),
                PegV::node(Rule::ArgList),
                PegV::word(")"@),
                PegV::word(";"@),
            ),
        ),
        // `call;`
        Rule::CallStmt => PegV::all2(PegV::node(Rule::Call), PegV::word(";"@)),
        // `place(args)`
        Rule::Call => PegV::all2(PegV::node(Rule::LValue), PegV::node(Rule::CallTail)),
        Rule::CallTail => PegV::all3(
            PegV::word("("@),
            PegV::maybe(PegV::node(Rule::ArgList)),
            PegV::word(")"@),
        ),
        // `return expr;`
        Rule::ReturnStmt => PegV::all3(PegV::word("return"@), PegV::node(Rule::Expr), PegV::word(";"@)),
        Rule::ArgList => PegV::all3(
            PegV::node(Rule::Expr),
            PegV::many(PegV::all2(PegV::word(","@), PegV::node(Rule::Expr))),
            PegV::maybe(PegV::word(","@)),
        ),
        _ => PegV::Never,
    }
}

/// Places and expressions.
pub open spec fn places(rule: Rule) -> PegV {
    match rule {
        Rule::LValue => PegV::all2(
            PegV::node(Rule::Path),
            PegV::many(
                PegV::any3(
                    PegV::node(Rule::FieldTail),
                    PegV::node(Rule::MapIndexTail),
                    PegV::node(Rule::IndexTail),
                ),
            ),
        ),
        // `.name` or `.number`
        Rule::FieldTail => PegV::all2(
            PegV::word("."@),
            PegV::any2(PegV::node(Rule::Ident), PegV::node(Rule::Int)),
        ),
        // `[expr]`
        Rule::IndexTail => PegV::all3(PegV::word("["@), PegV::node(Rule::Expr), PegV::word("]"@)),
        // `[expr, expr]`
        Rule::MapIndexTail => PegV::all5(
            PegV::word("["@),
            PegV::node(Rule::Expr),
            PegV::word(","@),
            PegV::node(Rule::Expr),
            PegV::word("]"@),
        ),
        // `operand (operator operand)*`
        Rule::Expr => PegV::all2(
            PegV::node(Rule::Postfix),
            PegV::many(PegV::all2(PegV::node(Rule::Op), PegV::node(Rule::Postfix))),
        ),
        Rule::Postfix => PegV::all2(
            PegV::node(Rule::Primary),
            PegV::many(
                PegV::any4(
                    PegV::node(Rule::CallTail),
                    PegV::node(Rule::MapIndexTail),
                    PegV::node(Rule::IndexTail),
                    PegV::node(Rule::FieldTail),
                ),
            ),
        ),
        Rule::Primary => PegV::any4(
            PegV::node(Rule::Int),
            PegV::node(Rule::Bool),
            PegV::node(Rule::Path),
            PegV::all3(PegV::word("("@), PegV::node(Rule::Expr), PegV::word(")"@)),
        ),
        Rule::Op => PegV::any12(
            PegV::word("=="@),
            PegV::word("!="@),
            PegV::word("<="@),
            PegV::word(">="@),
            PegV::word("<"@),
            PegV::word(">"@),
            PegV::word("&&"@),
            PegV::word("||"@),
            PegV::word("*"@),
            PegV::word("+"@),
            PegV::word("-"@),
            PegV::word("&"@),
        ),
        Rule::Int => PegV::digits(),
        Rule::Bool => PegV::any2(PegV::word("true"@), PegV::word("false"@)),
        _ => PegV::Never,
    }
}

/// What a rule matches.
pub open spec fn grammar(rule: Rule) -> PegV {
    if declarations(rule) != PegV::Never {
        declarations(rule)
    } else if bodies(rule) != PegV::Never {
        bodies(rule)
    } else {
        places(rule)
    }
}

impl Peg {
    fn word(w: &str) -> (r: Peg)
        ensures
            r@ == PegV::word(w@),
    {
        Peg::Word(w.to_string(), false)
    }

    fn key(w: &str) -> (r: Peg)
        ensures
            r@ == PegV::key(w@),
    {
        Peg::Word(w.to_string(), true)
    }

    fn node(rule: Rule) -> (r: Peg)
        ensures
            r@ == PegV::node(rule),
    {
        Peg::Node(rule)
    }

    fn name() -> (r: Peg)
        ensures
            r@ == PegV::name(),
    {
        Peg::Name
    }

    fn digits() -> (r: Peg)
        ensures
            r@ == PegV::digits(),
    {
        Peg::Digits
    }

    fn end() -> (r: Peg)
        ensures
            r@ == PegV::end(),
    {
        Peg::End
    }

    fn many(a: Peg) -> (r: Peg)
        ensures
            r@ == PegV::many(a@),
    {
        let r = Peg::Many(Box::new(a));
        proof {
            reveal_with_fuel(peg_of, 2);
        }
        r
    }

    fn maybe(a: Peg) -> (r: Peg)
        ensures
            r@ == PegV::maybe(a@),
    {
        Peg::pair_or(a, Peg::Empty)
    }

    fn pair_then(a: Peg, b: Peg) -> (r: Peg)
        ensures
            r@ == PegV::Then(Box::new(a@), Box::new(b@)),
    {
        proof {
            reveal_with_fuel(peg_of, 2);
        }
        Peg::Then(Box::new(a), Box::new(b))
    }

    fn pair_or(a: Peg, b: Peg) -> (r: Peg)
        ensures
            r@ == PegV::Or(Box::new(a@), Box::new(b@)),
    {
        proof {
            reveal_with_fuel(peg_of, 2);
        }
        Peg::Or(Box::new(a), Box::new(b))
    }

    fn never(&self) -> (r: bool)
        ensures
            r == (self@ == PegV::Never),
    {
        match self {
            Peg::Never => true,
            _ => false,
        }
    }

    fn all2(a: Peg, b: Peg) -> (r: Peg)
        ensures
            r@ == PegV::all2(a@, b@),
    {
        Peg::pair_then(a, b)
    }

    fn all3(a: Peg, b: Peg, c: Peg) -> (r: Peg)
        ensures
            r@ == PegV::all3(a@, b@, c@),
    {
        Peg::pair_then(a, Peg::all2(b, c))
    }

    fn all4(a: Peg, b: Peg, c: Peg, d: Peg) -> (r: Peg)
        ensures
            r@ == PegV::all4(a@, b@, c@, d@),
    {
        Peg::pair_then(a, Peg::all3(b, c, d))
    }

    fn all5(a: Peg, b: Peg, c: Peg, d: Peg, e: Peg) -> (r: Peg)
        ensures
            r@ == PegV::all5(a@, b@, c@, d@, e@),
    {
        Peg::pair_then(a, Peg::all4(b, c, d, e))
    }

    fn all6(a: Peg, b: Peg, c: Peg, d: Peg, e: Peg, f: Peg) -> (r: Peg)
        ensures
            r@ == PegV::all6(a@, b@, c@, d@, e@, f@),
    {
        Peg::pair_then(a, Peg::all5(b, c, d, e, f))
    }

    fn all7(a: Peg, b: Peg, c: Peg, d: Peg, e: Peg, f: Peg, g: Peg) -> (r: Peg)
        ensures
            r@ == PegV::all7(a@, b@, c@, d@, e@, f@, g@),
    {
        Peg::pair_then(a, Peg::all6(b, c, d, e, f, g))
    }

    fn all8(a: Peg, b: Peg, c: Peg, d: Peg, e: Peg, f: Peg, g: Peg, h: Peg) -> (r: Peg)
        ensures
            r@ == PegV::all8(a@, b@, c@, d@, e@, f@, g@, h@),
    {
        Peg::pair_then(a, Peg::all7(b, c, d, e, f, g, h))
    }

    fn any2(a: Peg, b: Peg) -> (r: Peg)
        ensures
            r@ == PegV::any2(a@, b@),
    {
        Peg::pair_or(a, b)
    }

    fn any3(a: Peg, b: Peg, c: Peg) -> (r: Peg)
        ensures
            r@ == PegV::any3(a@, b@, c@),
    {
        Peg::pair_or(a, Peg::any2(b, c))
    }

    fn any4(a: Peg, b: Peg, c: Peg, d: Peg) -> (r: Peg)
        ensures
            r@ == PegV::any4(a@, b@, c@, d@),
    {
        Peg::pair_or(a, Peg::any3(b, c, d))
    }

    fn any5(a: Peg, b: Peg, c: Peg, d: Peg, e: Peg) -> (r: Peg)
        ensures
            r@ == PegV::any5(a@, b@, c@, d@, e@),
    {
        Peg::pair_or(a, Peg::any4(b, c, d, e))
    }

    fn any6(a: Peg, b: Peg, c: Peg, d: Peg, e: Peg, f: Peg) -> (r: Peg)
        ensures
            r@ == PegV::any6(a@, b@, c@, d@, e@, f@),
    {
        Peg::pair_or(a, Peg::any5(b, c, d, e, f))
    }

    fn any7(a: Peg, b: Peg, c: Peg, d: Peg, e: Peg, f: Peg, g: Peg) -> (r: Peg)
        ensures
            r@ == PegV::any7(a@, b@, c@, d@, e@, f@, g@),
    {
        Peg::pair_or(a, Peg::any6(b, c, d, e, f, g))
    }

    fn any8(a: Peg, b: Peg, c: Peg, d: Peg, e: Peg, f: Peg, g: Peg, h: Peg) -> (r: Peg)
        ensures
            r@ == PegV::any8(a@, b@, c@, d@, e@, f@, g@, h@),
    {
        Peg::pair_or(a, Peg::any7(b, c, d, e, f, g, h))
    }

    fn any9(a: Peg, b: Peg, c: Peg, d: Peg, e: Peg, f: Peg, g: Peg, h: Peg, i: Peg) -> (r: Peg)
        ensures
            r@ == PegV::any9(a@, b@, c@, d@, e@, f@, g@, h@, i@),
    {
        Peg::pair_or(a, Peg::any8(b, c, d, e, f, g, h, i))
    }

    fn any10(a: Peg, b: Peg, c: Peg, d: Peg, e: Peg, f: Peg, g: Peg, h: Peg, i: Peg, j: Peg) -> (r: Peg)
        ensures
            r@ == PegV::any10(a@, b@, c@, d@, e@, f@, g@, h@, i@, j@),
    {
        Peg::pair_or(a, Peg::any9(b, c, d, e, f, g, h, i, j))
    }

    fn any11(a: Peg, b: Peg, c: Peg, d: Peg, e: Peg, f: Peg, g: Peg, h: Peg, i: Peg, j: Peg, k: Peg) -> (r: Peg)
        ensures
            r@ == PegV::any11(a@, b@, c@, d@, e@, f@, g@, h@, i@, j@, k@),
    {
        Peg::pair_or(a, Peg::any10(b, c, d, e, f, g, h, i, j, k))
    }

    fn any12(a: Peg, b: Peg, c: Peg, d: Peg, e: Peg, f: Peg, g: Peg, h: Peg, i: Peg, j: Peg, k: Peg, l: Peg) -> (r: Peg)
        ensures
            r@ == PegV::any12(a@, b@, c@, d@, e@, f@, g@, h@, i@, j@, k@, l@),
    {
        Peg::pair_or(a, Peg::any11(b, c, d, e, f, g, h, i, j, k, l))
    }
}

fn declarations_peg(rule: Rule) -> (r: Peg)
    ensures
        r@ == declarations(rule),
{
    match rule {
        Rule::File => Peg::all2(Peg::many(Peg::node(Rule::Item)), Peg::end()),
        Rule::Item => Peg::any4(
            Peg::node(Rule::Import),
            Peg::node(Rule::ConstDecl),
            Peg::node(Rule::StructDecl),
            Peg::node(Rule::Component),
        ),
        Rule::Import => Peg::all3(Peg::key("import"), Peg::node(Rule::Path), Peg::word(";")),
        Rule::ConstDecl => Peg::all6(
            Peg::key("const"),
            Peg::node(Rule::TypeRef),
            Peg::node(Rule::Ident),
            Peg::word("="),
            Peg::node(Rule::Expr),
            Peg::word(";"),
        ),
        Rule::StructDecl => Peg::all5(
            Peg::key("struct"),
            Peg::node(Rule::Ident),
            Peg::word("{"),
            Peg::many(Peg::node(Rule::Field)),
            Peg::word("}"),
        ),
        Rule::Component => Peg::all5(
            Peg::key("component"),
            Peg::node(Rule::Ident),
            Peg::word("{"),
            Peg::many(
                Peg::any3(
                    Peg::node(Rule::Computation),
                    Peg::node(Rule::Constraint),
                    Peg::node(Rule::QueryStmt),
                ),
            ),
            Peg::word("}"),
        ),
        Rule::Field => Peg::any2(
            Peg::all5(
                Peg::node(Rule::IoPrefix),
                Peg::node(Rule::Ident),
                Peg::word(":"),
                Peg::node(Rule::TypeRef),
                Peg::word(","),
            ),
            Peg::all4(
                Peg::node(Rule::Ident),
                Peg::word(":"),
                Peg::node(Rule::TypeRef),
                Peg::word(","),
            ),
        ),
        Rule::IoPrefix => Peg::any4(
            Peg::word("input"),
            Peg::word("Input"),
            Peg::word("output"),
            Peg::word("Output"),
        ),
        Rule::Ident => Peg::name(),
        Rule::TypeRef => Peg::any4(
            Peg::node(Rule::ArrayTy),
            Peg::node(Rule::MapTy),
            Peg::node(Rule::TupleTy),
            Peg::node(Rule::Path),
        ),
        Rule::ArrayTy => Peg::all5(
            Peg::word("["),
            Peg::node(Rule::TypeRef),
            Peg::word(";"),
            Peg::node(Rule::Expr),
            Peg::word("]"),
        ),
        Rule::MapTy => Peg::all8(
            Peg::word("map"),
            Peg::word("<"),
            Peg::node(Rule::TypeRef),
            Peg::word(","),
            Peg::node(Rule::TypeRef),
            Peg::word(","),
            Peg::node(Rule::TypeRef),
            Peg::word(">"),
        ),
        Rule::TupleTy => Peg::all6(
            Peg::word("("),
            Peg::node(Rule::TypeRef),
            Peg::word(","),
            Peg::node(Rule::TypeRef),
            Peg::many(Peg::all2(Peg::word(","), Peg::node(Rule::TypeRef))),
            Peg::word(")"),
        ),
        Rule::Path => Peg::all2(
            Peg::node(Rule::Ident),
            Peg::many(Peg::all2(Peg::word("::"), Peg::node(Rule::Ident))),
        ),
        Rule::Computation => Peg::all3(Peg::key("computation"), Peg::node(Rule::FuncSig), Peg::node(Rule::Block)),
        Rule::Constraint => Peg::all3(Peg::key("constraint"), Peg::node(Rule::FuncSig), Peg::node(Rule::Block)),
        _ => Peg::Never,
    }
}

fn bodies_peg(rule: Rule) -> (r: Peg)
    ensures
        r@ == bodies(rule),
{
    match rule {
        Rule::QueryStmt => Peg::all7(
            Peg::key("query"),
            Peg::word("("),
            Peg::node(Rule::QuerySide),
            Peg::word(";"),
            Peg::node(Rule::QuerySide),
            Peg::word(")"),
            Peg::maybe(Peg::word(";")),
        ),
        Rule::QuerySide => Peg::all3(
            Peg::node(Rule::Path),
            Peg::many(Peg::all2(Peg::word(","), Peg::node(Rule::Path))),
            Peg::maybe(Peg::word(",")),
        ),
        Rule::FuncSig => Peg::all5(
            Peg::node(Rule::Ident),
            Peg::word("("),
            Peg::maybe(Peg::node(Rule::ParamList)),
            Peg::word(")"),
            Peg::maybe(Peg::all2(Peg::word("->"), Peg::node(Rule::TypeRef))),
        ),
        Rule::ParamList => Peg::all3(
            Peg::node(Rule::Param),
            Peg::many(Peg::all2(Peg::word(","), Peg::node(Rule::Param))),
            Peg::maybe(Peg::word(",")),
        ),
        Rule::Param => Peg::any3(
            Peg::all4(
                Peg::node(Rule::IoPrefix),
                Peg::node(Rule::Ident),
                Peg::word(":"),
                Peg::node(Rule::TypeRef),
            ),
            Peg::all3(Peg::node(Rule::Ident), Peg::word(":"), Peg::node(Rule::TypeRef)),
            Peg::word("self"),
        ),
        Rule::Block => Peg::all3(
            Peg::word("{"),
            Peg::many(
                Peg::any8(
                    Peg::node(Rule::ForLoop),
                    Peg::node(Rule::IfStmt),
                    Peg::node(Rule::AssertStmt),
                    Peg::node(Rule::ReturnStmt),
                    Peg::node(Rule::VarDecl),
                    Peg::node(Rule::Assign),
                    Peg::node(Rule::AndAssign),
                    Peg::node(Rule::CallStmt),
                ),
            ),
            Peg::word("}"),
        ),
        Rule::VarDecl => Peg::all5(
            Peg::node(Rule::TypeRef),
            Peg::node(Rule::Ident),
            Peg::word("="),
            Peg::node(Rule::Expr),
            Peg::word(";"),
        ),
        Rule::Assign => Peg::all4(
            Peg::node(Rule::LValue),
            Peg::word("="),
            Peg::node(Rule::Expr),
            Peg::word(";"),
        ),
        Rule::AndAssign => Peg::all4(
            Peg::node(Rule::LValue),
            Peg::word("&="),
            Peg::node(Rule::Expr),
            Peg::word(";"),
        ),
        Rule::ForLoop => Peg::all5(
            Peg::word("for"),
            Peg::node(Rule::Ident),
            Peg::word("in"),
            Peg::node(Rule::RangeExpr),
            Peg::node(Rule::Block),
        ),
        Rule::RangeExpr => Peg::all3(Peg::node(Rule::Expr), Peg::word(".."), Peg::node(Rule::Expr)),
        Rule::IfStmt => Peg::all4(
            Peg::word("if"),
            Peg::node(Rule::Expr),
            Peg::node(Rule::Block),
            Peg::maybe(Peg::all2(Peg::word("else"), Peg::node(Rule::Block))),
        ),
        Rule::AssertStmt => Peg::any2(
            Peg::all7(
                Peg::word("assert_range"),
                Peg::word("("),
                Peg::node(Rule::Expr),
                Peg::word(","),
                Peg::node(Rule::TypeRef),
                Peg::word(")"),
                Peg::word(";"),
            ),
            Peg::all5(
                Peg::any4(
                    Peg::word("assert_zero"),
                    Peg::word("assert_eq"),
                    Peg::word("assert_bool"),
                    Peg::word("assert"),
                ),
                Peg::word("("),
                Peg::node(Rule::ArgList),
                Peg::word(")"),
                Peg::word(";"),
            ),
        ),
        Rule::CallStmt => Peg::all2(Peg::node(Rule::Call), Peg::word(";")),
        Rule::Call => Peg::all2(Peg::node(Rule::LValue), Peg::node(Rule::CallTail)),
        Rule::CallTail => Peg::all3(Peg::word("("), Peg::maybe(Peg::node(Rule::ArgList)), Peg::word(")")),
        Rule::ReturnStmt => Peg::all3(Peg::word("return"), Peg::node(Rule::Expr), Peg::word(";")),
        Rule::ArgList => Peg::all3(
            Peg::node(Rule::Expr),
            Peg::many(Peg::all2(Peg::word(","), Peg::node(Rule::Expr))),
            Peg::maybe(Peg::word(",")),
        ),
        _ => Peg::Never,
    }
}

fn places_peg(rule: Rule) -> (r: Peg)
    ensures
        r@ == places(rule),
{
    match rule {
        Rule::LValue => Peg::all2(
            Peg::node(Rule::Path),
            Peg::many(
                Peg::any3(
                    Peg::node(Rule::FieldTail),
                    Peg::node(Rule::MapIndexTail),
                    Peg::node(Rule::IndexTail),
                ),
            ),
        ),
        Rule::FieldTail => Peg::all2(Peg::word("."), Peg::any2(Peg::node(Rule::Ident), Peg::node(Rule::Int))),
        Rule::IndexTail => Peg::all3(Peg::word("["), Peg::node(Rule::Expr), Peg::word("]")),
        Rule::MapIndexTail => Peg::all5(
            Peg::word("["),
            Peg::node(Rule::Expr),
            Peg::word(","),
            Peg::node(Rule::Expr),
            Peg::word("]"),
        ),
        Rule::Expr => Peg::all2(
            Peg::node(Rule::Postfix),
            Peg::many(Peg::all2(Peg::node(Rule::Op), Peg::node(Rule::Postfix))),
        ),
        Rule::Postfix => Peg::all2(
            Peg::node(Rule::Primary),
            Peg::many(
                Peg::any4(
                    Peg::node(Rule::CallTail),
                    Peg::node(Rule::MapIndexTail),
                    Peg::node(Rule::IndexTail),
                    Peg::node(Rule::FieldTail),
                ),
            ),
        ),
        Rule::Primary => Peg::any4(
            Peg::node(Rule::Int),
            Peg::node(Rule::Bool),
            Peg::node(Rule::Path),
            Peg::all3(Peg::word("("), Peg::node(Rule::Expr), Peg::word(")")),
        ),
        Rule::Op => Peg::any12(
            Peg::word("=="),
            Peg::word("!="),
            Peg::word("<="),
            Peg::word(">="),
            Peg::word("<"),
            Peg::word(">"),
            Peg::word("&&"),
            Peg::word("||"),
            Peg::word("*"),
            Peg::word("+"),
            Peg::word("-"),
            Peg::word("&"),
        ),
        Rule::Int => Peg::digits(),
        Rule::Bool => Peg::any2(Peg::word("true"), Peg::word("false")),
        _ => Peg::Never,
    }
}

/// What a rule matches.
pub fn rule_peg(rule: Rule) -> (r: Peg)
    ensures
        r@ == grammar(rule),
{
    let d = declarations_peg(rule);
    if !d.never() {
        return d;
    }
    let b = bodies_peg(rule);
    if !b.never() {
        return b;
    }
    places_peg(rule)
}

} // verus!
