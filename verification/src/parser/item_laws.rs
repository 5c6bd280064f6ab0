//! What is declared stands in the syntax tree, in the same order.

use vstd::prelude::*;
use crate::ast::{FieldV, FuncV, IOType, ItemV, MemberV, ParamV, QueryV};
use crate::parser::expr::path_of;
use crate::parser::item::{
    decl_at, field_at, fields_from, file_at, func_at, io_of, items_from, members_from, param_at,
    params_from, query_at, query_side_from,
};
use crate::parser::reading_laws::{
    all_regular, ended, expr_pieces, expressions_are_read_as_written, lemma_block, lemma_regular_at,
    marked, spelled, stmts_pieces, type_pieces, types_are_read_as_written,
};
use crate::parser::tree::{ParseError, Rule, SyntaxNodeV};

verus! {

/// The role that the first child of a node gives, in lower case; inputs need none.
pub open spec fn role_at(n: SyntaxNodeV) -> Seq<char> {
    if n.inner[0].rule == Rule::IoPrefix {
        crate::text::lower(n.inner[0].text)
    } else {
        "input"@
    }
}

/// The word of a role.
pub open spec fn role_word(io: IOType) -> Seq<char> {
    match io {
        IOType::Input => "input"@,
        IOType::Output => "output"@,
    }
}

/// The child that names a field or a parameter.
pub open spec fn name_at(n: SyntaxNodeV) -> int {
    if n.inner[0].rule == Rule::IoPrefix {
        1
    } else {
        0
    }
}

proof fn lemma_role(text: Seq<char>)
    requires
        io_of(text) is Ok,
    ensures
        role_word(io_of(text)->Ok_0) == crate::text::lower(text),
{
    reveal_strlit("input");
    reveal_strlit("Input");
    reveal_strlit("output");
    reveal_strlit("Output");
    assert(crate::text::lower("input"@) =~= "input"@);
    assert(crate::text::lower("Input"@) =~= "input"@);
    assert(crate::text::lower("output"@) =~= "output"@);
    assert(crate::text::lower("Output"@) =~= "output"@);
}

/// A field has the role, the name and the type that stand in its syntax tree.
pub proof fn fields_are_read_as_written(n: SyntaxNodeV)
    requires
        field_at(n) is Ok,
        all_regular(n.inner, 0),
    ensures
        ({
            let f = field_at(n)->Ok_0;
            let i = name_at(n);
            &&& n.inner.len() > i + 1
            &&& role_word(f.io) == role_at(n)
            &&& f.name == n.inner[i].text
            &&& type_pieces(f.ty) == spelled(n.inner[i + 1])
        }),
{
    let i = name_at(n);
    lemma_regular_at(n.inner, 0, i + 1);
    types_are_read_as_written(n.inner[i + 1]);
    if n.inner[0].rule == Rule::IoPrefix {
        lemma_role(n.inner[0].text);
    }
}

/// A parameter is `self`, or has the role, the name and the type that stand in its syntax tree.
pub proof fn parameters_are_read_as_written(n: SyntaxNodeV)
    requires
        param_at(n) is Ok,
        all_regular(n.inner, 0),
    ensures
        match param_at(n)->Ok_0 {
            ParamV::SelfParam { .. } => if n.inner.len() == 0 {
                n.text == "self"@
            } else {
                n.inner[0].rule == Rule::Ident && n.inner[0].text == "self"@
            },
            ParamV::Typed { name, ty, io, .. } => {
                let i = name_at(n);
                &&& n.inner.len() > i + 1
                &&& role_word(io) == role_at(n)
                &&& name == n.inner[i].text
                &&& type_pieces(ty) == spelled(n.inner[i + 1])
            },
        },
{
    if let ParamV::Typed { .. } = param_at(n)->Ok_0 {
        let i = name_at(n);
        lemma_regular_at(n.inner, 0, i + 1);
        types_are_read_as_written(n.inner[i + 1]);
        if n.inner[0].rule == Rule::IoPrefix {
            lemma_role(n.inner[0].text);
        }
    }
}

proof fn lemma_params(kids: Seq<SyntaxNodeV>, i: int, acc: Seq<ParamV>)
    requires
        0 <= i <= kids.len(),
        acc.len() == i,
        params_from(kids, i, acc) is Ok,
        forall|k: int| 0 <= k < i ==> param_at(kids[k]) == Ok::<ParamV, ParseError>(#[trigger] acc[k]),
    ensures
        ({
            let out = params_from(kids, i, acc)->Ok_0;
            &&& out.len() == kids.len()
            &&& forall|k: int|
                0 <= k < kids.len() ==> param_at(kids[k]) == Ok::<ParamV, ParseError>(
                    #[trigger] out[k],
                )
        }),
    decreases kids.len() - i,
{
    if i < kids.len() {
        lemma_params(kids, i + 1, acc.push(param_at(kids[i])->Ok_0));
    }
}

/// The child of a signature that lists its parameters, if it has one.
pub open spec fn param_list(sig: SyntaxNodeV) -> Seq<SyntaxNodeV> {
    if sig.inner.len() > 1 && sig.inner[1].rule == Rule::ParamList {
        sig.inner[1].inner
    } else {
        seq![]
    }
}

/// The child of a signature that gives its return type, if it has one.
pub open spec fn return_type(sig: SyntaxNodeV) -> Option<SyntaxNodeV> {
    if sig.inner.len() > 1 && sig.inner[1].rule == Rule::TypeRef {
        Some(sig.inner[1])
    } else if sig.inner.len() > 2 {
        Some(sig.inner[2])
    } else {
        None
    }
}

/// A function has the name, the parameters in order, the return type and the body that stand in
/// its syntax tree.
pub proof fn functions_are_read_as_written(n: SyntaxNodeV, k: int)
    requires
        func_at(n) is Ok,
        all_regular(n.inner, 0),
        n.inner.len() == 2,
        n.inner[1].rule == Rule::Block,
    ensures
        ({
            let f = func_at(n)->Ok_0;
            let sig = n.inner[0];
            let ps = param_list(sig);
            &&& f.name == sig.inner[0].text
            &&& f.params.len() == ps.len()
            &&& 0 <= k < ps.len() ==> param_at(ps[k]) == Ok::<ParamV, ParseError>(f.params[k])
            &&& f.ret is Some <==> return_type(sig) is Some
            &&& f.ret is Some ==> type_pieces(f.ret->0) == spelled(return_type(sig)->0)
            &&& marked(Rule::Block) + stmts_pieces(f.body) + ended() == spelled(n.inner[1])
        }),
{
    let sig = n.inner[0];
    lemma_regular_at(n.inner, 0, 0);
    lemma_regular_at(n.inner, 0, 1);
    if sig.inner.len() > 1 {
        lemma_regular_at(sig.inner, 0, 1);
        match sig.inner[1].rule {
            Rule::ParamList => {
                lemma_params(sig.inner[1].inner, 0, seq![]);
                if sig.inner.len() > 2 {
                    lemma_regular_at(sig.inner, 0, 2);
                    types_are_read_as_written(sig.inner[2]);
                }
            },
            Rule::TypeRef => types_are_read_as_written(sig.inner[1]),
            _ => {},
        }
    }
    lemma_block(n.inner[1]);
}

proof fn lemma_side(kids: Seq<SyntaxNodeV>, i: int, acc: Seq<Seq<Seq<char>>>)
    requires
        0 <= i <= kids.len(),
        acc.len() == i,
        query_side_from(kids, i, acc) is Ok,
        forall|k: int| 0 <= k < i ==> #[trigger] acc[k] == path_of(kids[k]),
    ensures
        ({
            let out = query_side_from(kids, i, acc)->Ok_0;
            &&& out.len() == kids.len()
            &&& forall|k: int| 0 <= k < kids.len() ==> #[trigger] out[k] == path_of(kids[k])
        }),
    decreases kids.len() - i,
{
    if i < kids.len() {
        lemma_side(kids, i + 1, acc.push(path_of(kids[i])));
    }
}

/// The sides of a query are the two lists of paths, in order, the left one first.
pub proof fn queries_are_read_as_written(n: SyntaxNodeV, k: int)
    requires
        query_at(n) is Ok,
    ensures
        n.inner.len() >= 2,
        ({
            let q = query_at(n)->Ok_0;
            &&& q.lhs.len() == n.inner[0].inner.len()
            &&& q.rhs.len() == n.inner[1].inner.len()
            &&& 0 <= k < q.lhs.len() ==> q.lhs[k] == path_of(n.inner[0].inner[k])
            &&& 0 <= k < q.rhs.len() ==> q.rhs[k] == path_of(n.inner[1].inner[k])
        }),
{
    lemma_side(n.inner[0].inner, 0, seq![]);
    lemma_side(n.inner[1].inner, 0, seq![]);
}

proof fn lemma_prefix<A>(acc: Seq<A>, a: A, out: Seq<A>)
    requires
        acc.push(a).is_prefix_of(out),
    ensures
        acc.is_prefix_of(out),
        acc.len() < out.len(),
        out[acc.len() as int] == a,
{
    let more = acc.push(a);
    assert(more =~= out.subrange(0, more.len() as int));
    assert(out[acc.len() as int] == more[acc.len() as int]);
    assert forall|i: int| 0 <= i < acc.len() implies acc[i] == out[i] by {
        assert(acc[i] == more[i]);
        assert(more[i] == out.subrange(0, more.len() as int)[i]);
    }
    assert(acc =~= out.subrange(0, acc.len() as int));
}

/// How many of the children from `from` up to `end` have the rule `r`.
pub open spec fn count_of(kids: Seq<SyntaxNodeV>, r: Rule, from: int, end: int) -> nat
    decreases end - from,
{
    if end <= from {
        0
    } else {
        count_of(kids, r, from, end - 1) + if kids[end - 1].rule == r {
            1nat
        } else {
            0
        }
    }
}

/// How many of the children from `from` up to `end` are members.
pub open spec fn members_before(kids: Seq<SyntaxNodeV>, from: int, end: int) -> nat {
    count_of(kids, Rule::Computation, from, end) + count_of(kids, Rule::Constraint, from, end)
}

/// A member is the function that a child declares, of the kind that it declares.
pub open spec fn is_member_at(n: SyntaxNodeV, m: MemberV) -> bool {
    match m {
        MemberV::Computation(f) => n.rule == Rule::Computation && func_at(n) == Ok::<
            FuncV,
            ParseError,
        >(f),
        MemberV::Constraint(f) => n.rule == Rule::Constraint && func_at(n) == Ok::<
            FuncV,
            ParseError,
        >(f),
    }
}

proof fn lemma_members(
    kids: Seq<SyntaxNodeV>,
    from: int,
    i: int,
    acc: Seq<MemberV>,
    query: Option<QueryV>,
    j: int,
)
    requires
        0 <= from <= i <= kids.len(),
        acc.len() == members_before(kids, from, i),
        members_from(kids, i, acc, query) is Ok,
    ensures
        ({
            let (out, q) = members_from(kids, i, acc, query)->Ok_0;
            &&& acc.is_prefix_of(out)
            &&& out.len() == members_before(kids, from, kids.len() as int)
            &&& i <= j < kids.len() && kids[j].rule != Rule::QueryStmt ==> members_before(
                kids,
                from,
                j,
            ) < out.len() && is_member_at(kids[j], out[members_before(kids, from, j) as int])
            &&& i <= j < kids.len() && kids[j].rule == Rule::QueryStmt ==> query_at(kids[j]) == Ok::<
                QueryV,
                ParseError,
            >(q->0) && q is Some
            &&& query is Some ==> q == query
            &&& q is Some && query is None ==> exists|k: int|
                i <= k < kids.len() && (#[trigger] kids[k]).rule == Rule::QueryStmt
        }),
    decreases kids.len() - i,
{
    let (out, q) = members_from(kids, i, acc, query)->Ok_0;
    if i < kids.len() {
        let k = kids[i];
        assert(members_before(kids, from, i + 1) == members_before(kids, from, i) + if k.rule
            == Rule::QueryStmt {
            0nat
        } else {
            1nat
        });
        if k.rule == Rule::QueryStmt {
            lemma_members(kids, from, i + 1, acc, Some(query_at(k)->Ok_0), j);
            assert(kids[i].rule == Rule::QueryStmt);
        } else {
            let m = if k.rule == Rule::Computation {
                MemberV::Computation(func_at(k)->Ok_0)
            } else {
                MemberV::Constraint(func_at(k)->Ok_0)
            };
            lemma_members(kids, from, i + 1, acc.push(m), query, j);
            lemma_prefix(acc, m, out);
        }
    } else {
        assert(acc.is_prefix_of(out));
    }
}

/// A component has the name that stands in its syntax tree, its members in order and of their
/// kinds, and its query.
pub proof fn components_are_read_as_written(n: SyntaxNodeV, j: int)
    requires
        n.rule == Rule::Component,
        decl_at(n) is Ok,
        1 <= j < n.inner.len(),
    ensures
        decl_at(n)->Ok_0 is Component,
        ({
            let item = decl_at(n)->Ok_0;
            let kids = n.inner;
            &&& item->Component_name == kids[0].text
            &&& item->members.len() == members_before(kids, 1, kids.len() as int)
            &&& kids[j].rule != Rule::QueryStmt ==> is_member_at(
                kids[j],
                item->members[members_before(kids, 1, j) as int],
            )
            &&& kids[j].rule == Rule::QueryStmt ==> item->query is Some && query_at(kids[j]) == Ok::<
                QueryV,
                ParseError,
            >(item->query->0)
        }),
{
    lemma_members(n.inner, 1, 1, seq![], None, j);
}

proof fn lemma_fields(kids: Seq<SyntaxNodeV>, from: int, i: int, acc: Seq<FieldV>, k: int)
    requires
        0 <= from <= i <= kids.len(),
        acc.len() == count_of(kids, Rule::Field, from, i),
        fields_from(kids, i, acc) is Ok,
    ensures
        ({
            let out = fields_from(kids, i, acc)->Ok_0;
            let at = count_of(kids, Rule::Field, from, k);
            &&& acc.is_prefix_of(out)
            &&& out.len() == count_of(kids, Rule::Field, from, kids.len() as int)
            &&& i <= k < kids.len() && kids[k].rule == Rule::Field ==> at < out.len() && field_at(
                kids[k],
            ) == Ok::<FieldV, ParseError>(out[at as int])
        }),
    decreases kids.len() - i,
{
    let out = fields_from(kids, i, acc)->Ok_0;
    if i < kids.len() {
        assert(count_of(kids, Rule::Field, from, i + 1) == acc.len() + if kids[i].rule
            == Rule::Field {
            1nat
        } else {
            0nat
        });
        if kids[i].rule == Rule::Field {
            let f = field_at(kids[i])->Ok_0;
            lemma_fields(kids, from, i + 1, acc.push(f), k);
            lemma_prefix(acc, f, out);
        } else {
            lemma_fields(kids, from, i + 1, acc, k);
        }
    } else {
        assert(acc.is_prefix_of(out));
    }
}

/// A struct has the name and the fields, in order, that stand in its syntax tree.
pub proof fn structs_are_read_as_written(n: SyntaxNodeV, k: int)
    requires
        n.rule == Rule::StructDecl,
        decl_at(n) is Ok,
    ensures
        decl_at(n)->Ok_0 is Struct,
        ({
            let item = decl_at(n)->Ok_0;
            let at = count_of(n.inner, Rule::Field, 1, k);
            &&& item->Struct_name == n.inner[0].text
            &&& item->fields.len() == count_of(n.inner, Rule::Field, 1, n.inner.len() as int)
            &&& 1 <= k < n.inner.len() && n.inner[k].rule == Rule::Field ==> at < item->fields.len()
                && field_at(n.inner[k]) == Ok::<FieldV, ParseError>(item->fields[at as int])
        }),
{
    lemma_fields(n.inner, 1, 1, seq![], k);
}

/// A constant has the type, the name and the value that stand in its syntax tree.
pub proof fn constants_are_read_as_written(n: SyntaxNodeV)
    requires
        n.rule == Rule::ConstDecl,
        decl_at(n) is Ok,
        all_regular(n.inner, 0),
    ensures
        decl_at(n)->Ok_0 is Const,
        n.inner.len() >= 3,
        ({
            let item = decl_at(n)->Ok_0;
            &&& type_pieces(item->ty) == spelled(n.inner[0])
            &&& item->Const_name == n.inner[1].text
            &&& expr_pieces(item->value) == spelled(n.inner[2])
        }),
{
    lemma_regular_at(n.inner, 0, 0);
    lemma_regular_at(n.inner, 0, 2);
    types_are_read_as_written(n.inner[0]);
    expressions_are_read_as_written(n.inner[2]);
}

proof fn lemma_items(kids: Seq<SyntaxNodeV>, i: int, acc: Seq<ItemV>, k: int)
    requires
        0 <= i <= kids.len(),
        acc.len() == count_of(kids, Rule::Item, 0, i),
        items_from(kids, i, acc) is Ok,
    ensures
        ({
            let out = items_from(kids, i, acc)->Ok_0;
            let at = count_of(kids, Rule::Item, 0, k);
            &&& acc.is_prefix_of(out)
            &&& out.len() == count_of(kids, Rule::Item, 0, kids.len() as int)
            &&& i <= k < kids.len() && kids[k].rule == Rule::Item ==> {
                &&& kids[k].inner.len() > 0
                &&& at < out.len()
                &&& decl_at(kids[k].inner[0]) == Ok::<ItemV, ParseError>(out[at as int])
            }
        }),
    decreases kids.len() - i,
{
    let out = items_from(kids, i, acc)->Ok_0;
    if i < kids.len() {
        assert(count_of(kids, Rule::Item, 0, i + 1) == acc.len() + if kids[i].rule == Rule::Item {
            1nat
        } else {
            0nat
        });
        if kids[i].rule == Rule::Item {
            let f = decl_at(kids[i].inner[0])->Ok_0;
            lemma_items(kids, i + 1, acc.push(f), k);
            lemma_prefix(acc, f, out);
        } else {
            lemma_items(kids, i + 1, acc, k);
        }
    } else {
        assert(acc.is_prefix_of(out));
    }
}

/// A file has the declarations that stand in its syntax tree, in order.
pub proof fn files_are_read_as_written(n: SyntaxNodeV, k: int)
    requires
        file_at(n) is Ok,
    ensures
        ({
            let items = file_at(n)->Ok_0.items;
            let at = count_of(n.inner, Rule::Item, 0, k);
            &&& items.len() == count_of(n.inner, Rule::Item, 0, n.inner.len() as int)
            &&& 0 <= k < n.inner.len() && n.inner[k].rule == Rule::Item ==> {
                &&& n.inner[k].inner.len() > 0
                &&& at < items.len()
                &&& decl_at(n.inner[k].inner[0]) == Ok::<ItemV, ParseError>(items[at as int])
            }
        }),
{
    lemma_items(n.inner, 0, seq![], k);
}

/// An import has the path that stands in its syntax tree.
pub proof fn imports_are_read_as_written(n: SyntaxNodeV, k: int)
    requires
        n.rule == Rule::Import,
        decl_at(n) is Ok,
    ensures
        decl_at(n)->Ok_0 is Import,
        n.inner.len() > 0,
        ({
            let path = decl_at(n)->Ok_0->path;
            &&& path.len() == n.inner[0].inner.len()
            &&& 0 <= k < path.len() ==> path[k] == n.inner[0].inner[k].text
        }),
{
}

} // verus!
