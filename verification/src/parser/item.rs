//! Top-level items and files.

use vstd::prelude::*;
use crate::ast::{
    fields_of, items_of, members_of, params_of, paths_of, Field, FieldV, File, FileV, Func, FuncV,
    IOType, Item, ItemV, Member, MemberV, Param, ParamV, Query, QueryV, Type, TypeV,
};
use crate::parser::expr::{parse_expr, parse_path, parse_type, path_of, type_at};
use crate::parser::stmt::{expr_child, parse_block, stmts_from, type_child};
use crate::parser::tree::{nodes_of, ParseError, Rule, SyntaxNode, SyntaxNodeV};
use crate::text::{same_text, texts};
use crate::view::{ok_view, some_view};

verus! {

broadcast use crate::ast::lists::group_lists;

/// The role that a prefix names.
pub open spec fn io_of(text: Seq<char>) -> Result<IOType, ParseError> {
    if text == "input"@ || text == "Input"@ {
        Ok(IOType::Input)
    } else if text == "output"@ || text == "Output"@ {
        Ok(IOType::Output)
    } else {
        Err(ParseError::UnknownIoPrefix)
    }
}

/// The name and type of a field, whose name is child `i`.
pub open spec fn field_rest(n: SyntaxNodeV, i: int, io: IOType) -> Result<FieldV, ParseError> {
    if n.inner[i].rule != Rule::Ident {
        Err(ParseError::FieldNameNotIdent)
    } else if i + 1 >= n.inner.len() {
        Err(ParseError::FieldMissingType)
    } else if n.inner[i + 1].rule != Rule::TypeRef {
        Err(ParseError::FieldExpectedType)
    } else {
        match type_at(n.inner[i + 1]) {
            Ok(ty) => Ok(FieldV { id: None, io, name: n.inner[i].text, ty }),
            Err(x) => Err(x),
        }
    }
}

/// A field: an optional role, a name and a type. Fields are inputs by default.
pub open spec fn field_at(n: SyntaxNodeV) -> Result<FieldV, ParseError> {
    if n.inner.len() == 0 {
        Err(ParseError::EmptyField)
    } else {
        match n.inner[0].rule {
            Rule::IoPrefix => match io_of(n.inner[0].text) {
                Err(x) => Err(x),
                Ok(io) => if n.inner.len() < 2 {
                    Err(ParseError::FieldMissingIdent)
                } else {
                    field_rest(n, 1, io)
                },
            },
            Rule::Ident => field_rest(n, 0, IOType::Input),
            _ => Err(ParseError::FieldUnexpectedToken),
        }
    }
}

/// The fields among the children from `i` on, behind `acc`.
pub open spec fn fields_from(kids: Seq<SyntaxNodeV>, i: int, acc: Seq<FieldV>) -> Result<
    Seq<FieldV>,
    ParseError,
>
    decreases kids.len() - i,
{
    if i < 0 || i >= kids.len() {
        Ok(acc)
    } else if kids[i].rule != Rule::Field {
        fields_from(kids, i + 1, acc)
    } else {
        match field_at(kids[i]) {
            Ok(f) => fields_from(kids, i + 1, acc.push(f)),
            Err(x) => Err(x),
        }
    }
}

/// A parameter: `self`, or an optional role, a name and a type.
pub open spec fn param_at(n: SyntaxNodeV) -> Result<ParamV, ParseError> {
    if n.inner.len() == 0 {
        if n.text == "self"@ {
            Ok(ParamV::SelfParam { id: None })
        } else {
            Err(ParseError::ParamInvalid)
        }
    } else {
        match n.inner[0].rule {
            Rule::Ident => if n.inner[0].text == "self"@ {
                Ok(ParamV::SelfParam { id: None })
            } else if n.inner.len() < 2 {
                Err(ParseError::ParamMissingType)
            } else {
                match type_at(n.inner[1]) {
                    Ok(ty) => Ok(
                        ParamV::Typed { id: None, name: n.inner[0].text, ty, io: IOType::Input },
                    ),
                    Err(x) => Err(x),
                }
            },
            Rule::IoPrefix => match io_of(n.inner[0].text) {
                Err(x) => Err(x),
                Ok(io) => if n.inner.len() < 2 {
                    Err(ParseError::ParamMissingIdent)
                } else if n.inner[1].rule != Rule::Ident {
                    Err(ParseError::ParamNameNotIdent)
                } else if n.inner.len() < 3 {
                    Err(ParseError::ParamMissingType)
                } else {
                    match type_at(n.inner[2]) {
                        Ok(ty) => Ok(ParamV::Typed { id: None, name: n.inner[1].text, ty, io }),
                        Err(x) => Err(x),
                    }
                },
            },
            _ => Err(ParseError::ParamUnexpectedToken),
        }
    }
}

/// The parameters from child `i` on, behind `acc`.
pub open spec fn params_from(kids: Seq<SyntaxNodeV>, i: int, acc: Seq<ParamV>) -> Result<
    Seq<ParamV>,
    ParseError,
>
    decreases kids.len() - i,
{
    if i < 0 || i >= kids.len() {
        Ok(acc)
    } else {
        match param_at(kids[i]) {
            Ok(p) => params_from(kids, i + 1, acc.push(p)),
            Err(x) => Err(x),
        }
    }
}

/// The parameters and the return type of a signature.
pub open spec fn sig_at(n: SyntaxNodeV) -> Result<(Seq<ParamV>, Option<TypeV>), ParseError> {
    if n.inner.len() < 2 {
        Ok((seq![], None))
    } else {
        match n.inner[1].rule {
            Rule::ParamList => match params_from(n.inner[1].inner, 0, seq![]) {
                Err(x) => Err(x),
                Ok(params) => if n.inner.len() < 3 {
                    Ok((params, None))
                } else {
                    match type_at(n.inner[2]) {
                        Ok(t) => Ok((params, Some(t))),
                        Err(x) => Err(x),
                    }
                },
            },
            Rule::TypeRef => match type_at(n.inner[1]) {
                Ok(t) => Ok((seq![], Some(t))),
                Err(x) => Err(x),
            },
            _ => Err(ParseError::MalformedTree),
        }
    }
}

/// A function-like member: a signature and a block.
pub open spec fn func_at(n: SyntaxNodeV) -> Result<FuncV, ParseError> {
    if n.inner.len() == 0 || n.inner[0].rule != Rule::FuncSig || n.inner[0].inner.len() == 0 {
        Err(ParseError::MalformedTree)
    } else {
        match sig_at(n.inner[0]) {
            Err(x) => Err(x),
            Ok((params, ret)) => if n.inner.len() < 2 {
                Err(ParseError::MalformedTree)
            } else {
                match stmts_from(n.inner[1].inner, 0, seq![]) {
                    Err(x) => Err(x),
                    Ok(body) => Ok(
                        FuncV { id: None, name: n.inner[0].inner[0].text, params, ret, body },
                    ),
                }
            },
        }
    }
}

/// The paths of one side of a query, from child `i` on.
pub open spec fn query_side_from(
    kids: Seq<SyntaxNodeV>,
    i: int,
    acc: Seq<Seq<Seq<char>>>,
) -> Result<Seq<Seq<Seq<char>>>, ParseError>
    decreases kids.len() - i,
{
    if i < 0 || i >= kids.len() {
        Ok(acc)
    } else if kids[i].rule != Rule::Path {
        Err(ParseError::QuerySideUnexpected)
    } else {
        query_side_from(kids, i + 1, acc.push(path_of(kids[i])))
    }
}

/// A query clause.
pub open spec fn query_at(n: SyntaxNodeV) -> Result<QueryV, ParseError> {
    if n.inner.len() == 0 {
        Err(ParseError::QueryMissingLhs)
    } else {
        match query_side_from(n.inner[0].inner, 0, seq![]) {
            Err(x) => Err(x),
            Ok(lhs) => if n.inner.len() < 2 {
                Err(ParseError::QueryMissingRhs)
            } else {
                match query_side_from(n.inner[1].inner, 0, seq![]) {
                    Err(x) => Err(x),
                    Ok(rhs) => Ok(QueryV { lhs, rhs }),
                }
            },
        }
    }
}

/// The members and the query of a component, from child `i` on.
pub open spec fn members_from(
    kids: Seq<SyntaxNodeV>,
    i: int,
    acc: Seq<MemberV>,
    query: Option<QueryV>,
) -> Result<(Seq<MemberV>, Option<QueryV>), ParseError>
    decreases kids.len() - i,
{
    if i < 0 || i >= kids.len() {
        Ok((acc, query))
    } else {
        match kids[i].rule {
            Rule::Computation => match func_at(kids[i]) {
                Ok(f) => members_from(kids, i + 1, acc.push(MemberV::Computation(f)), query),
                Err(x) => Err(x),
            },
            Rule::Constraint => match func_at(kids[i]) {
                Ok(f) => members_from(kids, i + 1, acc.push(MemberV::Constraint(f)), query),
                Err(x) => Err(x),
            },
            Rule::QueryStmt => if query is Some {
                Err(ParseError::DuplicateQuery)
            } else {
                match query_at(kids[i]) {
                    Ok(q) => members_from(kids, i + 1, acc, Some(q)),
                    Err(x) => Err(x),
                }
            },
            _ => Err(ParseError::MalformedTree),
        }
    }
}

/// The declaration that a node denotes.
pub open spec fn decl_at(n: SyntaxNodeV) -> Result<ItemV, ParseError> {
    match n.rule {
        Rule::Import => if n.inner.len() == 0 {
            Err(ParseError::MalformedTree)
        } else {
            Ok(ItemV::Import { id: None, path: path_of(n.inner[0]) })
        },
        Rule::ConstDecl => match type_child(n, 0) {
            Err(x) => Err(x),
            Ok(ty) => if n.inner.len() < 2 {
                Err(ParseError::MalformedTree)
            } else {
                match expr_child(n, 2) {
                    Err(x) => Err(x),
                    Ok(value) => Ok(
                        ItemV::Const { id: None, ty, name: n.inner[1].text, value },
                    ),
                }
            },
        },
        Rule::StructDecl => if n.inner.len() == 0 {
            Err(ParseError::MalformedTree)
        } else {
            match fields_from(n.inner, 1, seq![]) {
                Ok(fields) => Ok(ItemV::Struct { id: None, name: n.inner[0].text, fields }),
                Err(x) => Err(x),
            }
        },
        Rule::Component => if n.inner.len() == 0 {
            Err(ParseError::MalformedTree)
        } else {
            match members_from(n.inner, 1, seq![], None) {
                Ok((members, query)) => Ok(
                    ItemV::Component { id: None, name: n.inner[0].text, members, query },
                ),
                Err(x) => Err(x),
            }
        },
        _ => Err(ParseError::MalformedTree),
    }
}

/// The items of a file, from child `i` on; children of other kinds are skipped.
pub open spec fn items_from(kids: Seq<SyntaxNodeV>, i: int, acc: Seq<ItemV>) -> Result<
    Seq<ItemV>,
    ParseError,
>
    decreases kids.len() - i,
{
    if i < 0 || i >= kids.len() {
        Ok(acc)
    } else if kids[i].rule != Rule::Item {
        items_from(kids, i + 1, acc)
    } else if kids[i].inner.len() == 0 {
        Err(ParseError::MalformedTree)
    } else {
        match decl_at(kids[i].inner[0]) {
            Ok(it) => items_from(kids, i + 1, acc.push(it)),
            Err(x) => Err(x),
        }
    }
}

/// The file that a syntax tree denotes.
pub open spec fn file_at(n: SyntaxNodeV) -> Result<FileV, ParseError> {
    match items_from(n.inner, 0, seq![]) {
        Ok(items) => Ok(FileV { items }),
        Err(x) => Err(x),
    }
}

/// The children of a node and their models.
proof fn lemma_kids(n: SyntaxNode)
    ensures
        n@.inner.len() == n.inner@.len(),
        forall|i: int| 0 <= i < n.inner@.len() ==> #[trigger] n@.inner[i] == n.inner@[i]@,
{
    assert(n@.inner == nodes_of(n.inner@));
    assert forall|i: int| 0 <= i < n.inner@.len() implies #[trigger] n@.inner[i]
        == n.inner@[i]@ by {
        assert(nodes_of(n.inner@)[i] == n.inner@[i]@);
    }
}

/// The role that a prefix names.
fn parse_io_prefix(n: &SyntaxNode) -> (r: Result<IOType, ParseError>)
    ensures
        r == io_of(n@.text),
{
    if same_text(n.text.as_str(), "input") || same_text(n.text.as_str(), "Input") {
        Ok(IOType::Input)
    } else if same_text(n.text.as_str(), "output") || same_text(n.text.as_str(), "Output") {
        Ok(IOType::Output)
    } else {
        Err(ParseError::UnknownIoPrefix)
    }
}

fn parse_field_rest(n: &SyntaxNode, i: usize, io: IOType) -> (r: Result<Field, ParseError>)
    requires
        i < n.inner@.len(),
    ensures
        ok_view(r) == field_rest(n@, i as int, io),
{
    proof {
        lemma_kids(*n);
    }
    if n.inner[i].rule != Rule::Ident {
        return Err(ParseError::FieldNameNotIdent);
    }
    if n.inner.len() - i < 2 {
        return Err(ParseError::FieldMissingType);
    }
    if n.inner[i + 1].rule != Rule::TypeRef {
        return Err(ParseError::FieldExpectedType);
    }
    match parse_type(&n.inner[i + 1]) {
        Ok(ty) => Ok(Field { id: None, io, name: n.inner[i].text.clone(), ty }),
        Err(x) => Err(x),
    }
}

/// Parse a field.
fn parse_field(n: &SyntaxNode) -> (r: Result<Field, ParseError>)
    ensures
        ok_view(r) == field_at(n@),
{
    proof {
        lemma_kids(*n);
    }
    if n.inner.len() == 0 {
        return Err(ParseError::EmptyField);
    }
    match n.inner[0].rule {
        Rule::IoPrefix => match parse_io_prefix(&n.inner[0]) {
            Err(x) => Err(x),
            Ok(io) => {
                if n.inner.len() < 2 {
                    return Err(ParseError::FieldMissingIdent);
                }
                parse_field_rest(n, 1, io)
            },
        },
        Rule::Ident => parse_field_rest(n, 0, IOType::Input),
        _ => Err(ParseError::FieldUnexpectedToken),
    }
}

/// Parse a struct declaration.
fn parse_struct(n: &SyntaxNode) -> (r: Result<Item, ParseError>)
    requires
        n.rule == Rule::StructDecl,
    ensures
        ok_view(r) == decl_at(n@),
{
    let ghost kids = nodes_of(n.inner@);
    proof {
        assert(kids.len() == n.inner@.len());
        assert(kids.len() > 0 ==> kids[0] == n.inner@[0]@);
    }
    if n.inner.len() == 0 {
        return Err(ParseError::MalformedTree);
    }
    let mut fields: Vec<Field> = Vec::new();
    #[verifier::loop_isolation(false)]
    for i in 1..n.inner.len()
        invariant
            fields_from(kids, 1, seq![]) == fields_from(
                kids,
                i as int,
                fields_of(fields@),
            ),
    {
        proof {
            assert(kids[i as int] == n.inner@[i as int]@);
        }
        if n.inner[i].rule == Rule::Field {
            match parse_field(&n.inner[i]) {
                Ok(f) => fields.push(f),
                Err(x) => return Err(x),
            }
        }
    }
    Ok(Item::Struct { id: None, name: n.inner[0].text.clone(), fields })
}

/// Parse a single parameter.
fn parse_param(n: &SyntaxNode) -> (r: Result<Param, ParseError>)
    ensures
        ok_view(r) == param_at(n@),
{
    proof {
        lemma_kids(*n);
    }
    if n.inner.len() == 0 {
        if same_text(n.text.as_str(), "self") {
            return Ok(Param::SelfParam { id: None });
        } else {
            return Err(ParseError::ParamInvalid);
        }
    }
    let first = &n.inner[0];
    match first.rule {
        Rule::Ident => {
            if same_text(first.text.as_str(), "self") {
                return Ok(Param::SelfParam { id: None });
            }
            if n.inner.len() < 2 {
                return Err(ParseError::ParamMissingType);
            }
            match parse_type(&n.inner[1]) {
                Ok(ty) => Ok(
                    Param::Typed { id: None, name: first.text.clone(), ty, io: IOType::Input },
                ),
                Err(x) => Err(x),
            }
        },
        Rule::IoPrefix => {
            let io = match parse_io_prefix(first) {
                Ok(io) => io,
                Err(x) => return Err(x),
            };
            if n.inner.len() < 2 {
                return Err(ParseError::ParamMissingIdent);
            }
            if n.inner[1].rule != Rule::Ident {
                return Err(ParseError::ParamNameNotIdent);
            }
            if n.inner.len() < 3 {
                return Err(ParseError::ParamMissingType);
            }
            match parse_type(&n.inner[2]) {
                Ok(ty) => Ok(Param::Typed { id: None, name: n.inner[1].text.clone(), ty, io }),
                Err(x) => Err(x),
            }
        },
        _ => Err(ParseError::ParamUnexpectedToken),
    }
}

fn parse_params(n: &SyntaxNode) -> (r: Result<Vec<Param>, ParseError>)
    ensures
        match r {
            Ok(v) => params_from(n@.inner, 0, seq![]) == Ok::<Seq<ParamV>, ParseError>(
                params_of(v@),
            ),
            Err(x) => params_from(n@.inner, 0, seq![]) == Err::<Seq<ParamV>, ParseError>(x),
        },
{
    proof {
        lemma_kids(*n);
    }
    let mut out: Vec<Param> = Vec::new();
    #[verifier::loop_isolation(false)]
    for i in 0..n.inner.len()
        invariant
            params_from(n@.inner, 0, seq![]) == params_from(n@.inner, i as int, params_of(out@)),
    {
        match parse_param(&n.inner[i]) {
            Ok(p) => out.push(p),
            Err(x) => return Err(x),
        }
    }
    Ok(out)
}

fn parse_sig(n: &SyntaxNode) -> (r: Result<(Vec<Param>, Option<Type>), ParseError>)
    ensures
        match r {
            Ok((ps, t)) => sig_at(n@) == Ok::<(Seq<ParamV>, Option<TypeV>), ParseError>(
                (params_of(ps@), some_view(t)),
            ),
            Err(x) => sig_at(n@) == Err::<(Seq<ParamV>, Option<TypeV>), ParseError>(x),
        },
{
    proof {
        lemma_kids(*n);
    }
    let none: Vec<Param> = Vec::new();
    if n.inner.len() < 2 {
        return Ok((none, None));
    }
    match n.inner[1].rule {
        Rule::ParamList => {
            let params = match parse_params(&n.inner[1]) {
                Ok(ps) => ps,
                Err(x) => return Err(x),
            };
            if n.inner.len() < 3 {
                return Ok((params, None));
            }
            match parse_type(&n.inner[2]) {
                Ok(t) => Ok((params, Some(t))),
                Err(x) => Err(x),
            }
        },
        Rule::TypeRef => match parse_type(&n.inner[1]) {
            Ok(t) => Ok((none, Some(t))),
            Err(x) => Err(x),
        },
        _ => Err(ParseError::MalformedTree),
    }
}

/// Parse a function-like member: signature + block.
fn parse_func(n: &SyntaxNode) -> (r: Result<Func, ParseError>)
    ensures
        ok_view(r) == func_at(n@),
{
    proof {
        lemma_kids(*n);
    }
    if n.inner.len() == 0 {
        return Err(ParseError::MalformedTree);
    }
    let sig = &n.inner[0];
    proof {
        lemma_kids(*sig);
    }
    if sig.rule != Rule::FuncSig || sig.inner.len() == 0 {
        return Err(ParseError::MalformedTree);
    }
    let (params, ret) = match parse_sig(sig) {
        Ok(x) => x,
        Err(x) => return Err(x),
    };
    if n.inner.len() < 2 {
        return Err(ParseError::MalformedTree);
    }
    match parse_block(&n.inner[1]) {
        Ok(body) => Ok(Func { id: None, name: sig.inner[0].text.clone(), params, ret, body }),
        Err(x) => Err(x),
    }
}

fn parse_query_side(n: &SyntaxNode) -> (r: Result<Vec<Vec<String>>, ParseError>)
    ensures
        match r {
            Ok(v) => query_side_from(n@.inner, 0, seq![]) == Ok::<Seq<Seq<Seq<char>>>, ParseError>(
                paths_of(v@),
            ),
            Err(x) => query_side_from(n@.inner, 0, seq![]) == Err::<
                Seq<Seq<Seq<char>>>,
                ParseError,
            >(x),
        },
{
    proof {
        lemma_kids(*n);
    }
    let mut out: Vec<Vec<String>> = Vec::new();
    proof {
        assert(paths_of(out@) =~= seq![]);
    }
    #[verifier::loop_isolation(false)]
    for i in 0..n.inner.len()
        invariant
            query_side_from(n@.inner, 0, seq![]) == query_side_from(
                n@.inner,
                i as int,
                paths_of(out@),
            ),
    {
        if n.inner[i].rule != Rule::Path {
            return Err(ParseError::QuerySideUnexpected);
        }
        let ghost before = out@;
        let path = parse_path(&n.inner[i]);
        out.push(path);
        proof {
            assert(paths_of(out@) =~= paths_of(before).push(texts(path@)));
        }
    }
    Ok(out)
}

/// Parse a query clause.
fn parse_query_stmt(n: &SyntaxNode) -> (r: Result<Query, ParseError>)
    ensures
        ok_view(r) == query_at(n@),
{
    proof {
        lemma_kids(*n);
    }
    if n.inner.len() == 0 {
        return Err(ParseError::QueryMissingLhs);
    }
    let lhs = match parse_query_side(&n.inner[0]) {
        Ok(v) => v,
        Err(x) => return Err(x),
    };
    if n.inner.len() < 2 {
        return Err(ParseError::QueryMissingRhs);
    }
    match parse_query_side(&n.inner[1]) {
        Ok(rhs) => Ok(Query { lhs, rhs }),
        Err(x) => Err(x),
    }
}

/// Parse a component declaration.
fn parse_component(n: &SyntaxNode) -> (r: Result<Item, ParseError>)
    requires
        n.rule == Rule::Component,
    ensures
        ok_view(r) == decl_at(n@),
{
    let ghost kids = nodes_of(n.inner@);
    proof {
        assert(kids.len() == n.inner@.len());
        assert(kids.len() > 0 ==> kids[0] == n.inner@[0]@);
    }
    if n.inner.len() == 0 {
        return Err(ParseError::MalformedTree);
    }
    let mut members: Vec<Member> = Vec::new();
    let mut query: Option<Query> = None;
    #[verifier::loop_isolation(false)]
    for i in 1..n.inner.len()
        invariant
            members_from(kids, 1, seq![], None) == members_from(
                kids,
                i as int,
                members_of(members@),
                some_view(query),
            ),
    {
        proof {
            assert(kids[i as int] == n.inner@[i as int]@);
        }
        let m = &n.inner[i];
        match m.rule {
            Rule::Computation => match parse_func(m) {
                Ok(f) => members.push(Member::Computation(f)),
                Err(x) => return Err(x),
            },
            Rule::Constraint => match parse_func(m) {
                Ok(f) => members.push(Member::Constraint(f)),
                Err(x) => return Err(x),
            },
            Rule::QueryStmt => {
                if query.is_some() {
                    return Err(ParseError::DuplicateQuery);
                }
                match parse_query_stmt(m) {
                    Ok(q) => {
                        query = Some(q);
                    },
                    Err(x) => return Err(x),
                }
            },
            _ => return Err(ParseError::MalformedTree),
        }
    }
    Ok(Item::Component { id: None, name: n.inner[0].text.clone(), members, query })
}

/// Parse a constant declaration.
fn parse_const(n: &SyntaxNode) -> (r: Result<Item, ParseError>)
    requires
        n.rule == Rule::ConstDecl,
    ensures
        ok_view(r) == decl_at(n@),
{
    proof {
        lemma_kids(*n);
    }
    if n.inner.len() == 0 {
        return Err(ParseError::MalformedTree);
    }
    let ty = match parse_type(&n.inner[0]) {
        Ok(ty) => ty,
        Err(x) => return Err(x),
    };
    if n.inner.len() < 3 {
        return Err(ParseError::MalformedTree);
    }
    match parse_expr(&n.inner[2]) {
        Ok(value) => Ok(Item::Const { id: None, ty, name: n.inner[1].text.clone(), value }),
        Err(x) => Err(x),
    }
}

/// Parse an import.
fn parse_import(n: &SyntaxNode) -> (r: Result<Item, ParseError>)
    requires
        n.rule == Rule::Import,
    ensures
        ok_view(r) == decl_at(n@),
{
    proof {
        lemma_kids(*n);
    }
    if n.inner.len() == 0 {
        return Err(ParseError::MalformedTree);
    }
    Ok(Item::Import { id: None, path: parse_path(&n.inner[0]) })
}

/// Dispatch a top-level item by its concrete rule.
fn parse_item(n: &SyntaxNode) -> (r: Result<Item, ParseError>)
    ensures
        ok_view(r) == decl_at(n@),
{
    match n.rule {
        Rule::Import => parse_import(n),
        Rule::ConstDecl => parse_const(n),
        Rule::StructDecl => parse_struct(n),
        Rule::Component => parse_component(n),
        _ => Err(ParseError::MalformedTree),
    }
}

/// Turn the syntax tree of an entire source file into an AST.
pub fn file_of_tree(root: &SyntaxNode) -> (r: Result<File, ParseError>)
    ensures
        ok_view(r) == file_at(root@),
{
    let ghost kids = nodes_of(root.inner@);
    proof {
        assert(kids.len() == root.inner@.len());
        assert(kids.len() > 0 ==> kids[0] == root.inner@[0]@);
    }
    let mut items: Vec<Item> = Vec::new();
    #[verifier::loop_isolation(false)]
    for i in 0..root.inner.len()
        invariant
            items_from(kids, 0, seq![]) == items_from(
                kids,
                i as int,
                items_of(items@),
            ),
    {
        proof {
            assert(kids[i as int] == root.inner@[i as int]@);
        }
        let p = &root.inner[i];
        proof {
            assert(nodes_of(p.inner@).len() == p.inner@.len());
            assert(p.inner@.len() > 0 ==> nodes_of(p.inner@)[0] == p.inner@[0]@);
        }
        if p.rule == Rule::Item {
            if p.inner.len() == 0 {
                return Err(ParseError::MalformedTree);
            }
            match parse_item(&p.inner[0]) {
                Ok(it) => items.push(it),
                Err(x) => return Err(x),
            }
        }
    }
    Ok(File { items })
}

} // verus!
