//! Abstract syntax of the circuit language.

use vstd::prelude::*;
use crate::text::texts;

pub mod helper_laws;
pub mod helpers;
pub mod lists;

verus! {

/// Role of a field or parameter in an equivalence query.
#[derive(Debug, Clone, Copy, PartialEq, Eq, Structural)]
pub enum IOType {
    Input,
    Output,
}

/// Binary operators.
#[derive(Debug, Clone, Copy, PartialEq, Eq, Structural)]
pub enum BinOp {
    Eq,
    Ne,
    Lt,
    Le,
    Gt,
    Ge,
    Mul,
    Add,
    Sub,
    BitAnd,
    And,
    Or,
}

/// Expressions.
#[derive(Debug)]
pub enum Expr {
    Int(u64),
    Bool(bool),
    Path { segments: Vec<String>, ref_id: Option<i64> },
    Call(Box<Expr>, Vec<Expr>),
    Index(Box<Expr>, Box<Expr>),
    MapIndex { base: Box<Expr>, keys: Vec<Expr> },
    Field { base: Box<Expr>, name: String, ref_id: Option<i64> },
    Binary { op: BinOp, lhs: Box<Expr>, rhs: Box<Expr> },
    Paren(Box<Expr>),
}

/// Types.
#[derive(Debug)]
pub enum Type {
    Path { segments: Vec<String>, ref_id: Option<i64> },
    Tuple(Vec<Type>),
    Array(Box<Type>, Expr),
    Mapping { timestamp: Box<Type>, key: Box<Type>, value: Box<Type> },
    Function { ref_id: Option<i64> },
}

/// One step of an assignable place.
#[derive(Debug)]
pub enum LvTail {
    Field { name: String },
    Index(Expr),
    MapIndex(Expr, Expr),
}

/// An assignable place: a head path and the steps below it.
#[derive(Debug)]
pub struct LValue {
    pub ref_id: Option<i64>,
    pub head: Vec<String>,
    pub tails: Vec<LvTail>,
}

/// Statements.
#[derive(Debug)]
pub enum Stmt {
    VarDecl { id: Option<i64>, ty: Type, name: String, init: Expr },
    Assign { target: LValue, value: Expr },
    AndAssign { target: LValue, value: Expr },
    For { id: Option<i64>, var: String, start: Expr, end: Expr, body: Vec<Stmt> },
    If { cond: Expr, then_branch: Vec<Stmt>, else_branch: Vec<Stmt> },
    AssertBool(Expr),
    AssertEq(Expr, Expr),
    AssertZero(Expr),
    AssertRange { value: Expr, ty: Type },
    Lookup { chip: Vec<String>, opcode: Expr, args: Vec<Expr> },
    Call { callee: LValue, args: Vec<Expr> },
    Return(Expr),
}

/// Parameters.
#[derive(Debug)]
pub enum Param {
    SelfParam { id: Option<i64> },
    Typed { id: Option<i64>, name: String, ty: Type, io: IOType },
}

/// Functions.
#[derive(Debug)]
pub struct Func {
    pub id: Option<i64>,
    pub name: String,
    pub params: Vec<Param>,
    pub ret: Option<Type>,
    pub body: Vec<Stmt>,
}

/// Component members.
#[derive(Debug)]
pub enum Member {
    Computation(Func),
    Constraint(Func),
}

/// Paths to be compared by an equivalence query.
#[derive(Debug)]
pub struct Query {
    pub lhs: Vec<Vec<String>>,
    pub rhs: Vec<Vec<String>>,
}

/// Struct fields.
#[derive(Debug)]
pub struct Field {
    pub id: Option<i64>,
    pub io: IOType,
    pub name: String,
    pub ty: Type,
}

/// Single enum variant with an optional explicit discriminant.
#[derive(Debug)]
pub struct EnumVariant {
    pub id: Option<i64>,
    pub name: String,
    pub value: Option<Expr>,
}

/// Top-level items.
#[derive(Debug)]
pub enum Item {
    Import { id: Option<i64>, path: Vec<String> },
    Enum { id: Option<i64>, name: String, variants: Vec<EnumVariant> },
    Const { id: Option<i64>, ty: Type, name: String, value: Expr },
    Struct { id: Option<i64>, name: String, fields: Vec<Field> },
    Component { id: Option<i64>, name: String, members: Vec<Member>, query: Option<Query> },
    Function { id: Option<i64>, func: Func },
}

/// A source file.
#[derive(Debug)]
pub struct File {
    pub items: Vec<Item>,
}

/// Mathematical model of [`Expr`].
pub enum ExprV {
    Int(u64),
    Bool(bool),
    Path { segments: Seq<Seq<char>>, ref_id: Option<i64> },
    Call(Box<ExprV>, Seq<ExprV>),
    Index(Box<ExprV>, Box<ExprV>),
    MapIndex { base: Box<ExprV>, keys: Seq<ExprV> },
    Field { base: Box<ExprV>, name: Seq<char>, ref_id: Option<i64> },
    Binary { op: BinOp, lhs: Box<ExprV>, rhs: Box<ExprV> },
    Paren(Box<ExprV>),
}

/// Mathematical model of [`Type`].
pub enum TypeV {
    Path { segments: Seq<Seq<char>>, ref_id: Option<i64> },
    Tuple(Seq<TypeV>),
    Array(Box<TypeV>, ExprV),
    Mapping { timestamp: Box<TypeV>, key: Box<TypeV>, value: Box<TypeV> },
    Function { ref_id: Option<i64> },
}

/// Mathematical model of [`LvTail`].
pub enum LvTailV {
    Field { name: Seq<char> },
    Index(ExprV),
    MapIndex(ExprV, ExprV),
}

/// Mathematical model of [`LValue`].
pub struct LValueV {
    pub ref_id: Option<i64>,
    pub head: Seq<Seq<char>>,
    pub tails: Seq<LvTailV>,
}

/// Mathematical model of [`Stmt`].
pub enum StmtV {
    VarDecl { id: Option<i64>, ty: TypeV, name: Seq<char>, init: ExprV },
    Assign { target: LValueV, value: ExprV },
    AndAssign { target: LValueV, value: ExprV },
    For { id: Option<i64>, var: Seq<char>, start: ExprV, end: ExprV, body: Seq<StmtV> },
    If { cond: ExprV, then_branch: Seq<StmtV>, else_branch: Seq<StmtV> },
    AssertBool(ExprV),
    AssertEq(ExprV, ExprV),
    AssertZero(ExprV),
    AssertRange { value: ExprV, ty: TypeV },
    Lookup { chip: Seq<Seq<char>>, opcode: ExprV, args: Seq<ExprV> },
    Call { callee: LValueV, args: Seq<ExprV> },
    Return(ExprV),
}

/// Mathematical model of [`Param`].
pub enum ParamV {
    SelfParam { id: Option<i64> },
    Typed { id: Option<i64>, name: Seq<char>, ty: TypeV, io: IOType },
}

/// Mathematical model of [`Func`].
pub struct FuncV {
    pub id: Option<i64>,
    pub name: Seq<char>,
    pub params: Seq<ParamV>,
    pub ret: Option<TypeV>,
    pub body: Seq<StmtV>,
}

/// Mathematical model of [`Member`].
pub enum MemberV {
    Computation(FuncV),
    Constraint(FuncV),
}

/// Mathematical model of [`Query`].
pub struct QueryV {
    pub lhs: Seq<Seq<Seq<char>>>,
    pub rhs: Seq<Seq<Seq<char>>>,
}

/// Mathematical model of [`Field`].
pub struct FieldV {
    pub id: Option<i64>,
    pub io: IOType,
    pub name: Seq<char>,
    pub ty: TypeV,
}

/// Mathematical model of [`EnumVariant`].
pub struct EnumVariantV {
    pub id: Option<i64>,
    pub name: Seq<char>,
    pub value: Option<ExprV>,
}

/// Mathematical model of [`Item`].
pub enum ItemV {
    Import { id: Option<i64>, path: Seq<Seq<char>> },
    Enum { id: Option<i64>, name: Seq<char>, variants: Seq<EnumVariantV> },
    Const { id: Option<i64>, ty: TypeV, name: Seq<char>, value: ExprV },
    Struct { id: Option<i64>, name: Seq<char>, fields: Seq<FieldV> },
    Component { id: Option<i64>, name: Seq<char>, members: Seq<MemberV>, query: Option<QueryV> },
    Function { id: Option<i64>, func: FuncV },
}

/// Mathematical model of [`File`].
pub struct FileV {
    pub items: Seq<ItemV>,
}

/// The model of a value of [`Expr`].
pub open spec fn expr_of(x: Expr) -> ExprV
    decreases x,
{
    match x {
        Expr::Int(k) => ExprV::Int(k),
        Expr::Bool(b) => ExprV::Bool(b),
        Expr::Path { segments, ref_id } => ExprV::Path { segments: texts(segments@), ref_id: ref_id },
        Expr::Call(callee, args) => ExprV::Call(Box::new(expr_of(*callee)), exprs_of(args@)),
        Expr::Index(base, idx) => ExprV::Index(Box::new(expr_of(*base)), Box::new(expr_of(*idx))),
        Expr::MapIndex { base, keys } => ExprV::MapIndex { base: Box::new(expr_of(*base)), keys: exprs_of(keys@) },
        Expr::Field { base, name, ref_id } => ExprV::Field { base: Box::new(expr_of(*base)), name: name@, ref_id: ref_id },
        Expr::Binary { op, lhs, rhs } => ExprV::Binary { op: op, lhs: Box::new(expr_of(*lhs)), rhs: Box::new(expr_of(*rhs)) },
        Expr::Paren(inner) => ExprV::Paren(Box::new(expr_of(*inner))),
    }
}

impl View for Expr {
    type V = ExprV;

    open spec fn view(&self) -> ExprV {
        expr_of(*self)
    }
}

/// The models of a list of [`Expr`].
pub open spec fn exprs_of(s: Seq<Expr>) -> Seq<ExprV>
    decreases s,
{
    Seq::new(
        s.len(),
        |i: int|
            if 0 <= i < s.len() {
                expr_of(s[i])
            } else {
                arbitrary()
            },
    )
}

/// The model of a value of [`Type`].
pub open spec fn type_of(x: Type) -> TypeV
    decreases x,
{
    match x {
        Type::Path { segments, ref_id } => TypeV::Path { segments: texts(segments@), ref_id: ref_id },
        Type::Tuple(elems) => TypeV::Tuple(types_of(elems@)),
        Type::Array(elem, len) => TypeV::Array(Box::new(type_of(*elem)), expr_of(len)),
        Type::Mapping { timestamp, key, value } => TypeV::Mapping { timestamp: Box::new(type_of(*timestamp)), key: Box::new(type_of(*key)), value: Box::new(type_of(*value)) },
        Type::Function { ref_id } => TypeV::Function { ref_id: ref_id },
    }
}

impl View for Type {
    type V = TypeV;

    open spec fn view(&self) -> TypeV {
        type_of(*self)
    }
}

/// The models of a list of [`Type`].
pub open spec fn types_of(s: Seq<Type>) -> Seq<TypeV>
    decreases s,
{
    Seq::new(
        s.len(),
        |i: int|
            if 0 <= i < s.len() {
                type_of(s[i])
            } else {
                arbitrary()
            },
    )
}

/// The model of a value of [`LvTail`].
pub open spec fn tail_of(x: LvTail) -> LvTailV
    decreases x,
{
    match x {
        LvTail::Field { name } => LvTailV::Field { name: name@ },
        LvTail::Index(idx) => LvTailV::Index(expr_of(idx)),
        LvTail::MapIndex(ts, addr) => LvTailV::MapIndex(expr_of(ts), expr_of(addr)),
    }
}

impl View for LvTail {
    type V = LvTailV;

    open spec fn view(&self) -> LvTailV {
        tail_of(*self)
    }
}

/// The models of a list of [`LvTail`].
pub open spec fn tails_of(s: Seq<LvTail>) -> Seq<LvTailV>
    decreases s,
{
    Seq::new(
        s.len(),
        |i: int|
            if 0 <= i < s.len() {
                tail_of(s[i])
            } else {
                arbitrary()
            },
    )
}

/// The model of a value of [`LValue`].
pub open spec fn lvalue_of(x: LValue) -> LValueV
    decreases x,
{
    LValueV {
        ref_id: x.ref_id,
        head: texts(x.head@),
        tails: tails_of(x.tails@),
    }
}

impl View for LValue {
    type V = LValueV;

    open spec fn view(&self) -> LValueV {
        lvalue_of(*self)
    }
}

/// The model of a value of [`Stmt`].
pub open spec fn stmt_of(x: Stmt) -> StmtV
    decreases x,
{
    match x {
        Stmt::VarDecl { id, ty, name, init } => StmtV::VarDecl { id: id, ty: type_of(ty), name: name@, init: expr_of(init) },
        Stmt::Assign { target, value } => StmtV::Assign { target: lvalue_of(target), value: expr_of(value) },
        Stmt::AndAssign { target, value } => StmtV::AndAssign { target: lvalue_of(target), value: expr_of(value) },
        Stmt::For { id, var, start, end, body } => StmtV::For { id: id, var: var@, start: expr_of(start), end: expr_of(end), body: stmts_of(body@) },
        Stmt::If { cond, then_branch, else_branch } => StmtV::If { cond: expr_of(cond), then_branch: stmts_of(then_branch@), else_branch: stmts_of(else_branch@) },
        Stmt::AssertBool(e) => StmtV::AssertBool(expr_of(e)),
        Stmt::AssertEq(a, b) => StmtV::AssertEq(expr_of(a), expr_of(b)),
        Stmt::AssertZero(e) => StmtV::AssertZero(expr_of(e)),
        Stmt::AssertRange { value, ty } => StmtV::AssertRange { value: expr_of(value), ty: type_of(ty) },
        Stmt::Lookup { chip, opcode, args } => StmtV::Lookup { chip: texts(chip@), opcode: expr_of(opcode), args: exprs_of(args@) },
        Stmt::Call { callee, args } => StmtV::Call { callee: lvalue_of(callee), args: exprs_of(args@) },
        Stmt::Return(e) => StmtV::Return(expr_of(e)),
    }
}

impl View for Stmt {
    type V = StmtV;

    open spec fn view(&self) -> StmtV {
        stmt_of(*self)
    }
}

/// The models of a list of [`Stmt`].
pub open spec fn stmts_of(s: Seq<Stmt>) -> Seq<StmtV>
    decreases s,
{
    Seq::new(
        s.len(),
        |i: int|
            if 0 <= i < s.len() {
                stmt_of(s[i])
            } else {
                arbitrary()
            },
    )
}

/// The model of a value of [`Param`].
pub open spec fn param_of(x: Param) -> ParamV
    decreases x,
{
    match x {
        Param::SelfParam { id } => ParamV::SelfParam { id: id },
        Param::Typed { id, name, ty, io } => ParamV::Typed { id: id, name: name@, ty: type_of(ty), io: io },
    }
}

impl View for Param {
    type V = ParamV;

    open spec fn view(&self) -> ParamV {
        param_of(*self)
    }
}

/// The models of a list of [`Param`].
pub open spec fn params_of(s: Seq<Param>) -> Seq<ParamV>
    decreases s,
{
    Seq::new(
        s.len(),
        |i: int|
            if 0 <= i < s.len() {
                param_of(s[i])
            } else {
                arbitrary()
            },
    )
}

/// The model of a value of [`Func`].
pub open spec fn func_of(x: Func) -> FuncV
    decreases x,
{
    FuncV {
        id: x.id,
        name: x.name@,
        params: params_of(x.params@),
        ret: match x.ret { Some(v) => Some(type_of(v)), None => None },
        body: stmts_of(x.body@),
    }
}

impl View for Func {
    type V = FuncV;

    open spec fn view(&self) -> FuncV {
        func_of(*self)
    }
}

/// The model of a value of [`Member`].
pub open spec fn member_of(x: Member) -> MemberV
    decreases x,
{
    match x {
        Member::Computation(f) => MemberV::Computation(func_of(f)),
        Member::Constraint(f) => MemberV::Constraint(func_of(f)),
    }
}

impl View for Member {
    type V = MemberV;

    open spec fn view(&self) -> MemberV {
        member_of(*self)
    }
}

/// The models of a list of [`Member`].
pub open spec fn members_of(s: Seq<Member>) -> Seq<MemberV>
    decreases s,
{
    Seq::new(
        s.len(),
        |i: int|
            if 0 <= i < s.len() {
                member_of(s[i])
            } else {
                arbitrary()
            },
    )
}

/// The model of a value of [`Query`].
pub open spec fn query_of(x: Query) -> QueryV
    decreases x,
{
    QueryV {
        lhs: paths_of(x.lhs@),
        rhs: paths_of(x.rhs@),
    }
}

impl View for Query {
    type V = QueryV;

    open spec fn view(&self) -> QueryV {
        query_of(*self)
    }
}

/// The model of a value of [`Field`].
pub open spec fn field_of(x: Field) -> FieldV
    decreases x,
{
    FieldV {
        id: x.id,
        io: x.io,
        name: x.name@,
        ty: type_of(x.ty),
    }
}

impl View for Field {
    type V = FieldV;

    open spec fn view(&self) -> FieldV {
        field_of(*self)
    }
}

/// The models of a list of [`Field`].
pub open spec fn fields_of(s: Seq<Field>) -> Seq<FieldV>
    decreases s,
{
    Seq::new(
        s.len(),
        |i: int|
            if 0 <= i < s.len() {
                field_of(s[i])
            } else {
                arbitrary()
            },
    )
}

/// The model of a value of [`EnumVariant`].
pub open spec fn variant_of(x: EnumVariant) -> EnumVariantV
    decreases x,
{
    EnumVariantV {
        id: x.id,
        name: x.name@,
        value: match x.value { Some(v) => Some(expr_of(v)), None => None },
    }
}

impl View for EnumVariant {
    type V = EnumVariantV;

    open spec fn view(&self) -> EnumVariantV {
        variant_of(*self)
    }
}

/// The models of a list of [`EnumVariant`].
pub open spec fn variants_of(s: Seq<EnumVariant>) -> Seq<EnumVariantV>
    decreases s,
{
    Seq::new(
        s.len(),
        |i: int|
            if 0 <= i < s.len() {
                variant_of(s[i])
            } else {
                arbitrary()
            },
    )
}

/// The model of a value of [`Item`].
pub open spec fn item_of(x: Item) -> ItemV
    decreases x,
{
    match x {
        Item::Import { id, path } => ItemV::Import { id: id, path: texts(path@) },
        Item::Enum { id, name, variants } => ItemV::Enum { id: id, name: name@, variants: variants_of(variants@) },
        Item::Const { id, ty, name, value } => ItemV::Const { id: id, ty: type_of(ty), name: name@, value: expr_of(value) },
        Item::Struct { id, name, fields } => ItemV::Struct { id: id, name: name@, fields: fields_of(fields@) },
        Item::Component { id, name, members, query } => ItemV::Component { id: id, name: name@, members: members_of(members@), query: match query { Some(v) => Some(query_of(v)), None => None } },
        Item::Function { id, func } => ItemV::Function { id: id, func: func_of(func) },
    }
}

impl View for Item {
    type V = ItemV;

    open spec fn view(&self) -> ItemV {
        item_of(*self)
    }
}

/// The models of a list of [`Item`].
pub open spec fn items_of(s: Seq<Item>) -> Seq<ItemV>
    decreases s,
{
    Seq::new(
        s.len(),
        |i: int|
            if 0 <= i < s.len() {
                item_of(s[i])
            } else {
                arbitrary()
            },
    )
}

/// The model of a value of [`File`].
pub open spec fn file_of(x: File) -> FileV
    decreases x,
{
    FileV {
        items: items_of(x.items@),
    }
}

impl View for File {
    type V = FileV;

    open spec fn view(&self) -> FileV {
        file_of(*self)
    }
}

/// The texts of a list of paths.
pub open spec fn paths_of(s: Seq<Vec<String>>) -> Seq<Seq<Seq<char>>> {
    Seq::new(s.len(), |i: int| texts(s[i]@))
}

/// A copy of a list of strings.
pub fn clone_texts(v: &Vec<String>) -> (r: Vec<String>)
    ensures
        texts(r@) == texts(v@),
{
    let mut out: Vec<String> = Vec::new();
    for i in 0..v.len()
        invariant
            out@.len() == i,
            forall|j: int| 0 <= j < i ==> (#[trigger] out@[j])@ == v@[j]@,
    {
        out.push(v[i].clone());
    }
    proof {
        assert(texts(out@) =~= texts(v@));
    }
    out
}

/// A copy of a list of paths.
pub fn clone_paths(v: &Vec<Vec<String>>) -> (r: Vec<Vec<String>>)
    ensures
        paths_of(r@) == paths_of(v@),
{
    let mut out: Vec<Vec<String>> = Vec::new();
    for i in 0..v.len()
        invariant
            out@.len() == i,
            forall|j: int| 0 <= j < i ==> texts((#[trigger] out@[j])@) == texts(v@[j]@),
    {
        out.push(clone_texts(&v[i]));
    }
    proof {
        assert(paths_of(out@) =~= paths_of(v@));
    }
    out
}

impl Clone for Expr {
    fn clone(&self) -> (r: Self)
        ensures
            r@ == self@,
        decreases self,
    {
        match self {
            Expr::Int(k) => Expr::Int(*k),
            Expr::Bool(b) => Expr::Bool(*b),
            Expr::Path { segments, ref_id } => Expr::Path { segments: clone_texts(segments), ref_id: *ref_id },
            Expr::Call(callee, args) => Expr::Call(Box::new((**callee).clone()), clone_expr_list(args)),
            Expr::Index(base, idx) => Expr::Index(Box::new((**base).clone()), Box::new((**idx).clone())),
            Expr::MapIndex { base, keys } => Expr::MapIndex { base: Box::new((**base).clone()), keys: clone_expr_list(keys) },
            Expr::Field { base, name, ref_id } => Expr::Field { base: Box::new((**base).clone()), name: name.clone(), ref_id: *ref_id },
            Expr::Binary { op, lhs, rhs } => Expr::Binary { op: *op, lhs: Box::new((**lhs).clone()), rhs: Box::new((**rhs).clone()) },
            Expr::Paren(inner) => Expr::Paren(Box::new((**inner).clone())),
        }
    }
}

/// A copy of a list of [`Expr`].
pub fn clone_expr_list(v: &Vec<Expr>) -> (r: Vec<Expr>)
    ensures
        exprs_of(r@) == exprs_of(v@),
    decreases v,
{
    let mut out: Vec<Expr> = Vec::new();
    proof {
        assert(exprs_of(out@) =~= exprs_of(v@).take(0));
    }
    #[verifier::loop_isolation(false)]
    for i in 0..v.len()
        invariant
            exprs_of(out@) == exprs_of(v@).take(i as int),
    {
        let ghost before = out@;
        out.push(v[i].clone());
        proof {
            crate::ast::lists::lemma_exprs_push(before, out@[i as int]);
            assert(exprs_of(v@).take(i + 1) =~= exprs_of(v@).take(i as int).push(v@[i as int]@));
        }
    }
    proof {
        assert(exprs_of(v@).take(v@.len() as int) =~= exprs_of(v@));
    }
    out
}

impl Clone for Type {
    fn clone(&self) -> (r: Self)
        ensures
            r@ == self@,
        decreases self,
    {
        match self {
            Type::Path { segments, ref_id } => Type::Path { segments: clone_texts(segments), ref_id: *ref_id },
            Type::Tuple(elems) => Type::Tuple(clone_type_list(elems)),
            Type::Array(elem, len) => Type::Array(Box::new((**elem).clone()), len.clone()),
            Type::Mapping { timestamp, key, value } => Type::Mapping { timestamp: Box::new((**timestamp).clone()), key: Box::new((**key).clone()), value: Box::new((**value).clone()) },
            Type::Function { ref_id } => Type::Function { ref_id: *ref_id },
        }
    }
}

/// A copy of a list of [`Type`].
pub fn clone_type_list(v: &Vec<Type>) -> (r: Vec<Type>)
    ensures
        types_of(r@) == types_of(v@),
    decreases v,
{
    let mut out: Vec<Type> = Vec::new();
    proof {
        assert(types_of(out@) =~= types_of(v@).take(0));
    }
    #[verifier::loop_isolation(false)]
    for i in 0..v.len()
        invariant
            types_of(out@) == types_of(v@).take(i as int),
    {
        let ghost before = out@;
        out.push(v[i].clone());
        proof {
            crate::ast::lists::lemma_types_push(before, out@[i as int]);
            assert(types_of(v@).take(i + 1) =~= types_of(v@).take(i as int).push(v@[i as int]@));
        }
    }
    proof {
        assert(types_of(v@).take(v@.len() as int) =~= types_of(v@));
    }
    out
}

impl Clone for LvTail {
    fn clone(&self) -> (r: Self)
        ensures
            r@ == self@,
        decreases self,
    {
        match self {
            LvTail::Field { name } => LvTail::Field { name: name.clone() },
            LvTail::Index(idx) => LvTail::Index(idx.clone()),
            LvTail::MapIndex(ts, addr) => LvTail::MapIndex(ts.clone(), addr.clone()),
        }
    }
}

/// A copy of a list of [`LvTail`].
pub fn clone_tail_list(v: &Vec<LvTail>) -> (r: Vec<LvTail>)
    ensures
        tails_of(r@) == tails_of(v@),
    decreases v,
{
    let mut out: Vec<LvTail> = Vec::new();
    proof {
        assert(tails_of(out@) =~= tails_of(v@).take(0));
    }
    #[verifier::loop_isolation(false)]
    for i in 0..v.len()
        invariant
            tails_of(out@) == tails_of(v@).take(i as int),
    {
        let ghost before = out@;
        out.push(v[i].clone());
        proof {
            crate::ast::lists::lemma_tails_push(before, out@[i as int]);
            assert(tails_of(v@).take(i + 1) =~= tails_of(v@).take(i as int).push(v@[i as int]@));
        }
    }
    proof {
        assert(tails_of(v@).take(v@.len() as int) =~= tails_of(v@));
    }
    out
}

impl Clone for LValue {
    fn clone(&self) -> (r: Self)
        ensures
            r@ == self@,
        decreases self,
    {
        LValue {
            ref_id: self.ref_id,
            head: clone_texts(&self.head),
            tails: clone_tail_list(&self.tails),
        }
    }
}

impl Clone for Stmt {
    fn clone(&self) -> (r: Self)
        ensures
            r@ == self@,
        decreases self,
    {
        match self {
            Stmt::VarDecl { id, ty, name, init } => Stmt::VarDecl { id: *id, ty: ty.clone(), name: name.clone(), init: init.clone() },
            Stmt::Assign { target, value } => Stmt::Assign { target: target.clone(), value: value.clone() },
            Stmt::AndAssign { target, value } => Stmt::AndAssign { target: target.clone(), value: value.clone() },
            Stmt::For { id, var, start, end, body } => Stmt::For { id: *id, var: var.clone(), start: start.clone(), end: end.clone(), body: clone_stmt_list(body) },
            Stmt::If { cond, then_branch, else_branch } => Stmt::If { cond: cond.clone(), then_branch: clone_stmt_list(then_branch), else_branch: clone_stmt_list(else_branch) },
            Stmt::AssertBool(e) => Stmt::AssertBool(e.clone()),
            Stmt::AssertEq(a, b) => Stmt::AssertEq(a.clone(), b.clone()),
            Stmt::AssertZero(e) => Stmt::AssertZero(e.clone()),
            Stmt::AssertRange { value, ty } => Stmt::AssertRange { value: value.clone(), ty: ty.clone() },
            Stmt::Lookup { chip, opcode, args } => Stmt::Lookup { chip: clone_texts(chip), opcode: opcode.clone(), args: clone_expr_list(args) },
            Stmt::Call { callee, args } => Stmt::Call { callee: callee.clone(), args: clone_expr_list(args) },
            Stmt::Return(e) => Stmt::Return(e.clone()),
        }
    }
}

/// A copy of a list of [`Stmt`].
pub fn clone_stmt_list(v: &Vec<Stmt>) -> (r: Vec<Stmt>)
    ensures
        stmts_of(r@) == stmts_of(v@),
    decreases v,
{
    let mut out: Vec<Stmt> = Vec::new();
    proof {
        assert(stmts_of(out@) =~= stmts_of(v@).take(0));
    }
    #[verifier::loop_isolation(false)]
    for i in 0..v.len()
        invariant
            stmts_of(out@) == stmts_of(v@).take(i as int),
    {
        let ghost before = out@;
        out.push(v[i].clone());
        proof {
            crate::ast::lists::lemma_stmts_push(before, out@[i as int]);
            assert(stmts_of(v@).take(i + 1) =~= stmts_of(v@).take(i as int).push(v@[i as int]@));
        }
    }
    proof {
        assert(stmts_of(v@).take(v@.len() as int) =~= stmts_of(v@));
    }
    out
}

impl Clone for Param {
    fn clone(&self) -> (r: Self)
        ensures
            r@ == self@,
        decreases self,
    {
        match self {
            Param::SelfParam { id } => Param::SelfParam { id: *id },
            Param::Typed { id, name, ty, io } => Param::Typed { id: *id, name: name.clone(), ty: ty.clone(), io: *io },
        }
    }
}

/// A copy of a list of [`Param`].
pub fn clone_param_list(v: &Vec<Param>) -> (r: Vec<Param>)
    ensures
        params_of(r@) == params_of(v@),
    decreases v,
{
    let mut out: Vec<Param> = Vec::new();
    proof {
        assert(params_of(out@) =~= params_of(v@).take(0));
    }
    #[verifier::loop_isolation(false)]
    for i in 0..v.len()
        invariant
            params_of(out@) == params_of(v@).take(i as int),
    {
        let ghost before = out@;
        out.push(v[i].clone());
        proof {
            crate::ast::lists::lemma_params_push(before, out@[i as int]);
            assert(params_of(v@).take(i + 1) =~= params_of(v@).take(i as int).push(v@[i as int]@));
        }
    }
    proof {
        assert(params_of(v@).take(v@.len() as int) =~= params_of(v@));
    }
    out
}

impl Clone for Func {
    fn clone(&self) -> (r: Self)
        ensures
            r@ == self@,
        decreases self,
    {
        Func {
            id: self.id,
            name: self.name.clone(),
            params: clone_param_list(&self.params),
            ret: match &self.ret { Some(v) => Some(v.clone()), None => None },
            body: clone_stmt_list(&self.body),
        }
    }
}

impl Clone for Member {
    fn clone(&self) -> (r: Self)
        ensures
            r@ == self@,
        decreases self,
    {
        match self {
            Member::Computation(f) => Member::Computation(f.clone()),
            Member::Constraint(f) => Member::Constraint(f.clone()),
        }
    }
}

/// A copy of a list of [`Member`].
pub fn clone_member_list(v: &Vec<Member>) -> (r: Vec<Member>)
    ensures
        members_of(r@) == members_of(v@),
    decreases v,
{
    let mut out: Vec<Member> = Vec::new();
    proof {
        assert(members_of(out@) =~= members_of(v@).take(0));
    }
    #[verifier::loop_isolation(false)]
    for i in 0..v.len()
        invariant
            members_of(out@) == members_of(v@).take(i as int),
    {
        let ghost before = out@;
        out.push(v[i].clone());
        proof {
            crate::ast::lists::lemma_members_push(before, out@[i as int]);
            assert(members_of(v@).take(i + 1) =~= members_of(v@).take(i as int).push(v@[i as int]@));
        }
    }
    proof {
        assert(members_of(v@).take(v@.len() as int) =~= members_of(v@));
    }
    out
}

impl Clone for Query {
    fn clone(&self) -> (r: Self)
        ensures
            r@ == self@,
        decreases self,
    {
        Query {
            lhs: clone_paths(&self.lhs),
            rhs: clone_paths(&self.rhs),
        }
    }
}

impl Clone for Field {
    fn clone(&self) -> (r: Self)
        ensures
            r@ == self@,
        decreases self,
    {
        Field {
            id: self.id,
            io: self.io,
            name: self.name.clone(),
            ty: self.ty.clone(),
        }
    }
}

/// A copy of a list of [`Field`].
pub fn clone_field_list(v: &Vec<Field>) -> (r: Vec<Field>)
    ensures
        fields_of(r@) == fields_of(v@),
    decreases v,
{
    let mut out: Vec<Field> = Vec::new();
    proof {
        assert(fields_of(out@) =~= fields_of(v@).take(0));
    }
    #[verifier::loop_isolation(false)]
    for i in 0..v.len()
        invariant
            fields_of(out@) == fields_of(v@).take(i as int),
    {
        let ghost before = out@;
        out.push(v[i].clone());
        proof {
            crate::ast::lists::lemma_fields_push(before, out@[i as int]);
            assert(fields_of(v@).take(i + 1) =~= fields_of(v@).take(i as int).push(v@[i as int]@));
        }
    }
    proof {
        assert(fields_of(v@).take(v@.len() as int) =~= fields_of(v@));
    }
    out
}

impl Clone for EnumVariant {
    fn clone(&self) -> (r: Self)
        ensures
            r@ == self@,
        decreases self,
    {
        EnumVariant {
            id: self.id,
            name: self.name.clone(),
            value: match &self.value { Some(v) => Some(v.clone()), None => None },
        }
    }
}

/// A copy of a list of [`EnumVariant`].
pub fn clone_variant_list(v: &Vec<EnumVariant>) -> (r: Vec<EnumVariant>)
    ensures
        variants_of(r@) == variants_of(v@),
    decreases v,
{
    let mut out: Vec<EnumVariant> = Vec::new();
    proof {
        assert(variants_of(out@) =~= variants_of(v@).take(0));
    }
    #[verifier::loop_isolation(false)]
    for i in 0..v.len()
        invariant
            variants_of(out@) == variants_of(v@).take(i as int),
    {
        let ghost before = out@;
        out.push(v[i].clone());
        proof {
            crate::ast::lists::lemma_variants_push(before, out@[i as int]);
            assert(variants_of(v@).take(i + 1) =~= variants_of(v@).take(i as int).push(v@[i as int]@));
        }
    }
    proof {
        assert(variants_of(v@).take(v@.len() as int) =~= variants_of(v@));
    }
    out
}

impl Clone for Item {
    fn clone(&self) -> (r: Self)
        ensures
            r@ == self@,
        decreases self,
    {
        match self {
            Item::Import { id, path } => Item::Import { id: *id, path: clone_texts(path) },
            Item::Enum { id, name, variants } => Item::Enum { id: *id, name: name.clone(), variants: clone_variant_list(variants) },
            Item::Const { id, ty, name, value } => Item::Const { id: *id, ty: ty.clone(), name: name.clone(), value: value.clone() },
            Item::Struct { id, name, fields } => Item::Struct { id: *id, name: name.clone(), fields: clone_field_list(fields) },
            Item::Component { id, name, members, query } => Item::Component { id: *id, name: name.clone(), members: clone_member_list(members), query: match query { Some(v) => Some(v.clone()), None => None } },
            Item::Function { id, func } => Item::Function { id: *id, func: func.clone() },
        }
    }
}

/// A copy of a list of [`Item`].
pub fn clone_item_list(v: &Vec<Item>) -> (r: Vec<Item>)
    ensures
        items_of(r@) == items_of(v@),
    decreases v,
{
    let mut out: Vec<Item> = Vec::new();
    proof {
        assert(items_of(out@) =~= items_of(v@).take(0));
    }
    #[verifier::loop_isolation(false)]
    for i in 0..v.len()
        invariant
            items_of(out@) == items_of(v@).take(i as int),
    {
        let ghost before = out@;
        out.push(v[i].clone());
        proof {
            crate::ast::lists::lemma_items_push(before, out@[i as int]);
            assert(items_of(v@).take(i + 1) =~= items_of(v@).take(i as int).push(v@[i as int]@));
        }
    }
    proof {
        assert(items_of(v@).take(v@.len() as int) =~= items_of(v@));
    }
    out
}

impl Clone for File {
    fn clone(&self) -> (r: Self)
        ensures
            r@ == self@,
        decreases self,
    {
        File {
            items: clone_item_list(&self.items),
        }
    }
}

} // verus!
