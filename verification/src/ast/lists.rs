//! Facts about lists of syntax trees and their models.

use vstd::prelude::*;
use crate::ast::{
    EnumVariant, EnumVariantV, Expr, ExprV, Field, FieldV, Item, ItemV, LvTail, LvTailV, Member,
    MemberV, Param, ParamV, Stmt, StmtV, Type, TypeV, exprs_of, fields_of, items_of, members_of,
    params_of, stmts_of, tails_of, types_of, variants_of,
};

verus! {

pub broadcast proof fn lemma_exprs_push(s: Seq<Expr>, x: Expr)
    ensures
        #[trigger] exprs_of(s.push(x)) == exprs_of(s).push(x@),
{
    assert(exprs_of(s.push(x)) =~= exprs_of(s).push(x@));
}

pub broadcast proof fn lemma_exprs_empty()
    ensures
        #[trigger] exprs_of(Seq::<Expr>::empty()) == Seq::<ExprV>::empty(),
{
    assert(exprs_of(Seq::<Expr>::empty()) =~= Seq::<ExprV>::empty());
}

pub broadcast proof fn lemma_types_push(s: Seq<Type>, x: Type)
    ensures
        #[trigger] types_of(s.push(x)) == types_of(s).push(x@),
{
    assert(types_of(s.push(x)) =~= types_of(s).push(x@));
}

pub broadcast proof fn lemma_types_empty()
    ensures
        #[trigger] types_of(Seq::<Type>::empty()) == Seq::<TypeV>::empty(),
{
    assert(types_of(Seq::<Type>::empty()) =~= Seq::<TypeV>::empty());
}

pub broadcast proof fn lemma_tails_push(s: Seq<LvTail>, x: LvTail)
    ensures
        #[trigger] tails_of(s.push(x)) == tails_of(s).push(x@),
{
    assert(tails_of(s.push(x)) =~= tails_of(s).push(x@));
}

pub broadcast proof fn lemma_tails_empty()
    ensures
        #[trigger] tails_of(Seq::<LvTail>::empty()) == Seq::<LvTailV>::empty(),
{
    assert(tails_of(Seq::<LvTail>::empty()) =~= Seq::<LvTailV>::empty());
}

pub broadcast proof fn lemma_stmts_push(s: Seq<Stmt>, x: Stmt)
    ensures
        #[trigger] stmts_of(s.push(x)) == stmts_of(s).push(x@),
{
    assert(stmts_of(s.push(x)) =~= stmts_of(s).push(x@));
}

pub broadcast proof fn lemma_stmts_empty()
    ensures
        #[trigger] stmts_of(Seq::<Stmt>::empty()) == Seq::<StmtV>::empty(),
{
    assert(stmts_of(Seq::<Stmt>::empty()) =~= Seq::<StmtV>::empty());
}

pub broadcast proof fn lemma_params_push(s: Seq<Param>, x: Param)
    ensures
        #[trigger] params_of(s.push(x)) == params_of(s).push(x@),
{
    assert(params_of(s.push(x)) =~= params_of(s).push(x@));
}

pub broadcast proof fn lemma_params_empty()
    ensures
        #[trigger] params_of(Seq::<Param>::empty()) == Seq::<ParamV>::empty(),
{
    assert(params_of(Seq::<Param>::empty()) =~= Seq::<ParamV>::empty());
}

pub broadcast proof fn lemma_members_push(s: Seq<Member>, x: Member)
    ensures
        #[trigger] members_of(s.push(x)) == members_of(s).push(x@),
{
    assert(members_of(s.push(x)) =~= members_of(s).push(x@));
}

pub broadcast proof fn lemma_members_empty()
    ensures
        #[trigger] members_of(Seq::<Member>::empty()) == Seq::<MemberV>::empty(),
{
    assert(members_of(Seq::<Member>::empty()) =~= Seq::<MemberV>::empty());
}

pub broadcast proof fn lemma_fields_push(s: Seq<Field>, x: Field)
    ensures
        #[trigger] fields_of(s.push(x)) == fields_of(s).push(x@),
{
    assert(fields_of(s.push(x)) =~= fields_of(s).push(x@));
}

pub broadcast proof fn lemma_fields_empty()
    ensures
        #[trigger] fields_of(Seq::<Field>::empty()) == Seq::<FieldV>::empty(),
{
    assert(fields_of(Seq::<Field>::empty()) =~= Seq::<FieldV>::empty());
}

pub broadcast proof fn lemma_variants_push(s: Seq<EnumVariant>, x: EnumVariant)
    ensures
        #[trigger] variants_of(s.push(x)) == variants_of(s).push(x@),
{
    assert(variants_of(s.push(x)) =~= variants_of(s).push(x@));
}

pub broadcast proof fn lemma_variants_empty()
    ensures
        #[trigger] variants_of(Seq::<EnumVariant>::empty()) == Seq::<EnumVariantV>::empty(),
{
    assert(variants_of(Seq::<EnumVariant>::empty()) =~= Seq::<EnumVariantV>::empty());
}

pub broadcast proof fn lemma_items_push(s: Seq<Item>, x: Item)
    ensures
        #[trigger] items_of(s.push(x)) == items_of(s).push(x@),
{
    assert(items_of(s.push(x)) =~= items_of(s).push(x@));
}

pub broadcast proof fn lemma_items_empty()
    ensures
        #[trigger] items_of(Seq::<Item>::empty()) == Seq::<ItemV>::empty(),
{
    assert(items_of(Seq::<Item>::empty()) =~= Seq::<ItemV>::empty());
}

pub broadcast group group_lists {
    lemma_exprs_push,
    lemma_exprs_empty,
    lemma_types_push,
    lemma_types_empty,
    lemma_tails_push,
    lemma_tails_empty,
    lemma_stmts_push,
    lemma_stmts_empty,
    lemma_params_push,
    lemma_params_empty,
    lemma_members_push,
    lemma_members_empty,
    lemma_fields_push,
    lemma_fields_empty,
    lemma_variants_push,
    lemma_variants_empty,
    lemma_items_push,
    lemma_items_empty,
}

} // verus!
