//! Concrete syntax trees.

use vstd::prelude::*;

verus! {

/// What a node of a concrete syntax tree was matched as.
#[derive(Clone, Copy, Debug, PartialEq, Eq, Structural)]
pub enum Rule {
    File,
    Item,
    Import,
    ConstDecl,
    StructDecl,
    Component,
    Field,
    IoPrefix,
    Ident,
    TypeRef,
    ArrayTy,
    MapTy,
    TupleTy,
    Path,
    Computation,
    Constraint,
    QueryStmt,
    QuerySide,
    FuncSig,
    ParamList,
    Param,
    Block,
    VarDecl,
    Assign,
    AndAssign,
    ForLoop,
    RangeExpr,
    IfStmt,
    AssertStmt,
    CallStmt,
    Call,
    CallTail,
    ReturnStmt,
    ArgList,
    LValue,
    FieldTail,
    IndexTail,
    MapIndexTail,
    Expr,
    Postfix,
    Primary,
    Op,
    Int,
    Bool,
    Other,
}

/// A node of a concrete syntax tree.
#[derive(Debug)]
pub struct SyntaxNode {
    pub rule: Rule,
    /// The source text that the node covers.
    pub text: String,
    pub inner: Vec<SyntaxNode>,
}

/// Mathematical model of [`SyntaxNode`].
pub struct SyntaxNodeV {
    pub rule: Rule,
    pub text: Seq<char>,
    pub inner: Seq<SyntaxNodeV>,
}

/// The model of a node.
pub open spec fn node_of(n: SyntaxNode) -> SyntaxNodeV
    decreases n,
{
    SyntaxNodeV { rule: n.rule, text: n.text@, inner: nodes_of(n.inner@) }
}

/// The models of a list of nodes.
pub open spec fn nodes_of(s: Seq<SyntaxNode>) -> Seq<SyntaxNodeV>
    decreases s,
{
    Seq::new(
        s.len(),
        |i: int|
            if 0 <= i < s.len() {
                node_of(s[i])
            } else {
                arbitrary()
            },
    )
}

impl View for SyntaxNode {
    type V = SyntaxNodeV;

    open spec fn view(&self) -> SyntaxNodeV {
        node_of(*self)
    }
}

/// Why a syntax tree has no meaning.
#[derive(Clone, Copy, Debug, PartialEq, Eq, Structural)]
pub enum ParseError {
    /// A node lacks a child, or has one of an unexpected kind, that the grammar always gives it.
    MalformedTree,
    EmptyField,
    FieldMissingIdent,
    FieldUnexpectedToken,
    FieldNameNotIdent,
    FieldMissingType,
    FieldExpectedType,
    UnknownIoPrefix,
    DuplicateQuery,
    QueryMissingLhs,
    QueryMissingRhs,
    QuerySideUnexpected,
    ParamMissingType,
    ParamMissingIdent,
    ParamNameNotIdent,
    ParamUnexpectedToken,
    ParamInvalid,
    IfMissingCond,
    IfMissingThen,
    AssertRangeArity,
    AssertRangeMissingType,
    AssertZeroArity,
    AssertInvalid,
    CallTailExpected,
    CallTailMissing,
    CallTailMalformed,
    LookupArity,
    LookupChipNotPath,
    LValueMissingHead,
    LValueUnexpectedTail,
    FieldTailMissing,
    IndexTailMissing,
    ExprMissingLhs,
    ExprLhsNotPostfix,
    ExprExpectedOp,
    ExprUnknownOp,
    ExprMissingRhs,
    ExprRhsNotPostfix,
    ExprUnexpectedRule,
    IntLiteral,
    PostfixMissingPrimary,
    PostfixUnexpectedTail,
}

} // verus!
