//! Declarations, types and name lookup.

use vstd::prelude::*;
use vstd::string::*;
use std::collections::HashMap;
use crate::ast::{
    types_of, BinOp, Expr, ExprV, Func, FuncV, LValue, LValueV, LvTail, LvTailV, Type, TypeV,
};
use crate::checker::symbolic::expr::{SymExpr, SymType, Term};
use crate::name_map::NameMap;
use crate::text::{
    decimal, lower, lower_text, parse_unsigned, push_nat, same_text, texts, unsigned_value,
};
use crate::utils::{SolverKind, ConfigV, SetConfig};
use crate::view::some_view;

verus! {

broadcast use {vstd::std_specs::hash::group_hash_axioms, crate::ast::lists::group_lists};

/// Memory interaction kind (Send/Receive) captured during execution.
#[derive(Clone, Copy, Debug, PartialEq, Eq, Structural)]
pub enum MemoryEventKind {
    Send,
    Receive,
}

/// Per-struct member index used for field/method lookup.
#[derive(Clone, Copy, Debug, PartialEq, Eq, Structural)]
pub enum MemberIndex {
    Field { field_id: i64 },
    Method { func_id: i64 },
}

impl MemberIndex {
    /// Returns field id if this member is a field.
    pub fn as_field_id(&self) -> (r: Option<i64>)
        ensures
            r == field_id_in(*self),
    {
        match self {
            MemberIndex::Field { field_id } => Some(*field_id),
            _ => None,
        }
    }

    /// Returns function id if this member is a method.
    pub fn as_func_id(&self) -> (r: Option<i64>)
        ensures
            r == func_id_in(*self),
    {
        match self {
            MemberIndex::Method { func_id } => Some(*func_id),
            _ => None,
        }
    }
}

/// The field id of a member, if it is a field.
pub open spec fn field_id_in(m: MemberIndex) -> Option<i64> {
    match m {
        MemberIndex::Field { field_id } => Some(field_id),
        _ => None,
    }
}

/// The function id of a member, if it is a method.
pub open spec fn func_id_in(m: MemberIndex) -> Option<i64> {
    match m {
        MemberIndex::Method { func_id } => Some(func_id),
        _ => None,
    }
}

/// Metadata describing a lookup chip that participates in a permutation pair.
#[derive(Debug)]
pub struct MemoryChipMeta {
    pub kind: MemoryEventKind,
    pub partner: Option<String>,
}

/// Mathematical model of [`MemoryChipMeta`].
pub struct ChipV {
    pub kind: MemoryEventKind,
    pub partner: Option<Seq<char>>,
}

impl Clone for MemoryChipMeta {
    fn clone(&self) -> (r: Self)
        ensures
            r@ == self@,
    {
        MemoryChipMeta {
            kind: self.kind,
            partner: match &self.partner {
                Some(s) => Some(s.clone()),
                None => None,
            },
        }
    }
}

impl View for MemoryChipMeta {
    type V = ChipV;

    open spec fn view(&self) -> ChipV {
        ChipV { kind: self.kind, partner: some_view(self.partner) }
    }
}

/// What a named type stands for.
#[derive(Clone, Copy, Debug, PartialEq, Eq, Structural)]
pub enum PathKind {
    /// Primitive scalar type.
    Builtin,
    /// Struct type, by name lookup.
    Struct(i64),
    /// Enum type, by name lookup.
    Enum(i64),
}

/// Why a type has no classification.
#[derive(Clone, Copy, Debug, PartialEq, Eq, Structural)]
pub enum ClassifyError {
    NotAPath,
    EmptyPath,
    UnknownName,
}

/// Parameter types and return type of a function.
#[derive(Debug)]
pub struct FnSig {
    pub params: Vec<Type>,
    pub ret: Option<Type>,
}

/// Mathematical model of [`FnSig`].
pub struct FnSigV {
    pub params: Seq<TypeV>,
    pub ret: Option<TypeV>,
}

impl View for FnSig {
    type V = FnSigV;

    open spec fn view(&self) -> FnSigV {
        FnSigV { params: types_of(self.params@), ret: some_view(self.ret) }
    }
}

/// Global initialization context (flat namespace).
#[derive(Debug)]
pub struct Context {
    pub(crate) next_sym_id: usize,
    pub(crate) funcs: HashMap<i64, Func>,
    pub(crate) struct_fields: HashMap<i64, NameMap<MemberIndex>>,
    pub(crate) struct_names: HashMap<i64, String>,
    pub(crate) struct_index: NameMap<i64>,
    pub(crate) var_types: HashMap<i64, Type>,
    pub(crate) const_types: HashMap<i64, Type>,
    pub(crate) const_ints: HashMap<i64, u64>,
    pub(crate) field_types: HashMap<i64, Type>,
    pub(crate) fn_sigs: HashMap<i64, FnSig>,
    pub(crate) func_owner: HashMap<i64, i64>,
    pub(crate) memory_chips: NameMap<MemoryChipMeta>,
    pub(crate) enum_names: HashMap<i64, String>,
    pub(crate) enum_index: NameMap<i64>,
    pub(crate) enum_widths: HashMap<i64, usize>,
    pub config: SetConfig,
}

/// The members of a struct in order of declaration.
pub type MembersV = Seq<(Seq<char>, MemberIndex)>;

/// Mathematical model of [`Context`].
pub struct ContextV {
    pub next_sym_id: usize,
    pub funcs: Map<i64, FuncV>,
    pub struct_fields: Map<i64, MembersV>,
    pub struct_names: Map<i64, Seq<char>>,
    pub struct_index: Map<Seq<char>, i64>,
    pub var_types: Map<i64, TypeV>,
    pub const_types: Map<i64, TypeV>,
    pub const_ints: Map<i64, u64>,
    pub field_types: Map<i64, TypeV>,
    pub fn_sigs: Map<i64, FnSigV>,
    pub func_owner: Map<i64, i64>,
    pub memory_chips: Map<Seq<char>, ChipV>,
    pub enum_names: Map<i64, Seq<char>>,
    pub enum_index: Map<Seq<char>, i64>,
    pub enum_widths: Map<i64, usize>,
    pub config: ConfigV,
}

impl View for Context {
    type V = ContextV;

    closed spec fn view(&self) -> ContextV {
        ContextV {
            next_sym_id: self.next_sym_id,
            funcs: self.funcs@.map_values(|f: Func| f@),
            struct_fields: self.struct_fields@.map_values(|m: NameMap<MemberIndex>| m.pairs()),
            struct_names: self.struct_names@.map_values(|s: String| s@),
            struct_index: self.struct_index@,
            var_types: self.var_types@.map_values(|t: Type| t@),
            const_types: self.const_types@.map_values(|t: Type| t@),
            const_ints: self.const_ints@,
            field_types: self.field_types@.map_values(|t: Type| t@),
            fn_sigs: self.fn_sigs@.map_values(|s: FnSig| s@),
            func_owner: self.func_owner@,
            memory_chips: self.memory_chips@.map_values(|c: MemoryChipMeta| c@),
            enum_names: self.enum_names@.map_values(|s: String| s@),
            enum_index: self.enum_index@,
            enum_widths: self.enum_widths@,
            config: self.config@,
        }
    }
}

/// The value of a key, if present.
pub open spec fn lookup<K, V>(m: Map<K, V>, k: K) -> Option<V> {
    if m.contains_key(k) {
        Some(m[k])
    } else {
        None
    }
}

/// The member of a struct with a name.
pub open spec fn member_named(members: MembersV, name: Seq<char>) -> Option<MemberIndex> {
    lookup(crate::name_map::map_of(members), name)
}

/// A type path of one segment without a reference.
pub open spec fn plain_type(name: Seq<char>) -> TypeV {
    TypeV::Path { segments: seq![name], ref_id: None }
}

/// The builtin truth type.
pub open spec fn bool_type() -> TypeV {
    plain_type("bool"@)
}

/// The builtin field type.
pub open spec fn field_type() -> TypeV {
    plain_type("field"@)
}

/// The builtin unsigned type of a width.
pub open spec fn uint_type(bits: usize) -> TypeV {
    plain_type("u"@ + decimal(bits as nat))
}

/// The builtin signed type of a width.
pub open spec fn int_type(bits: usize) -> TypeV {
    plain_type("i"@ + decimal(bits as nat))
}

/// The builtin type of a sort.
pub open spec fn type_of_sort(sty: SymType) -> TypeV {
    match sty {
        SymType::Bool => bool_type(),
        SymType::F => field_type(),
        SymType::Uint(w) => uint_type(w),
        SymType::Int(w) => int_type(w),
    }
}

/// The names of primitive types, in lower case.
pub open spec fn is_builtin_name(name: Seq<char>) -> bool {
    let n = lower(name);
    ||| n == "bool"@
    ||| n == "field"@
    ||| n == "f"@
    ||| n == "word"@
    ||| n == "u8"@
    ||| n == "u16"@
    ||| n == "u24"@
    ||| n == "u32"@
    ||| n == "u64"@
    ||| n == "u128"@
    ||| n == "i32"@
    ||| n == "i64"@
    ||| n == "selector"@
    ||| n == "timestamp"@
}

/// Which sort a primitive type name has.
pub open spec fn builtin_sort(name: Seq<char>) -> Option<SymType> {
    let n = lower(name);
    if n == "selector"@ || n == "bool"@ {
        Some(SymType::Bool)
    } else if n == "field"@ || n == "f"@ {
        Some(SymType::F)
    } else if n == "timestamp"@ {
        Some(SymType::Uint(64))
    } else if n == "word"@ {
        Some(SymType::Uint(32))
    } else if n.len() > 0 && n[0] == 'u' {
        match unsigned_value(n.skip(1), usize::MAX as nat) {
            Some(w) => Some(SymType::Uint(w as usize)),
            None => None,
        }
    } else if n.len() > 0 && n[0] == 'i' {
        match unsigned_value(n.skip(1), usize::MAX as nat) {
            Some(w) => Some(SymType::Int(w as usize)),
            None => None,
        }
    } else {
        None
    }
}

/// The larger of two widths.
pub open spec fn wider(a: usize, b: usize) -> usize {
    if a >= b {
        a
    } else {
        b
    }
}

/// The sort of a binary operation on operands of the given sorts, if it is well-typed.
pub open spec fn combine_sorts(op: BinOp, lhs: SymType, rhs: SymType) -> Option<SymType> {
    match op {
        BinOp::Eq | BinOp::Ne | BinOp::Lt | BinOp::Le | BinOp::Gt | BinOp::Ge => match (lhs, rhs) {
            (SymType::F, SymType::F)
            | (SymType::Uint(_), SymType::Uint(_))
            | (SymType::Int(_), SymType::Int(_))
            | (SymType::Bool, SymType::Bool)
            | (SymType::Bool, SymType::Uint(_))
            | (SymType::Uint(_), SymType::Bool) => Some(SymType::Bool),
            _ => None,
        },
        BinOp::And | BinOp::Or => if lhs == SymType::Bool && rhs == SymType::Bool {
            Some(SymType::Bool)
        } else {
            None
        },
        _ => match (lhs, rhs) {
            (SymType::F, SymType::F) => Some(SymType::F),
            (SymType::Uint(a), SymType::Uint(b)) => Some(SymType::Uint(wider(a, b))),
            (SymType::Int(a), SymType::Int(b)) => Some(SymType::Int(wider(a, b))),
            (SymType::Int(a), SymType::Uint(b)) => Some(SymType::Int(wider(a, b))),
            (SymType::Uint(a), SymType::Int(b)) => Some(SymType::Int(wider(b, a))),
            (SymType::Bool, SymType::Uint(w)) => Some(SymType::Uint(wider(w, 1))),
            (SymType::Uint(w), SymType::Bool) => Some(SymType::Uint(wider(w, 1))),
            (SymType::Bool, SymType::Bool) => Some(SymType::Uint(1)),
            _ => None,
        },
    }
}

/// A builtin constant: its value and its type.
pub open spec fn builtin_const_value(name: Seq<char>) -> Option<(Term, TypeV)> {
    if lower(name) == "one"@ {
        Some((Term::Int(1), field_type()))
    } else if lower(name) == "zero"@ {
        Some((Term::Int(0), field_type()))
    } else {
        None
    }
}

/// The pair type that a map access produces.
pub open spec fn map_pair(ts: TypeV, val: TypeV) -> (TypeV, TypeV) {
    match val {
        TypeV::Tuple(elems) => if elems.len() >= 2 {
            (elems[0], elems[1])
        } else {
            (ts, val)
        },
        _ => (ts, val),
    }
}

/// Default width for integer literals.
pub const DEFAULT_INT_WIDTH: usize = 64;

/// Default width for enum-backed scalar values.
pub const DEFAULT_ENUM_WIDTH: usize = 32;

impl ContextV {
    /// Another identifier can be handed out.
    pub open spec fn has_fresh(self) -> bool {
        self.next_sym_id < usize::MAX && self.next_sym_id <= i64::MAX
    }

    /// The context after an identifier has been handed out.
    pub open spec fn after_fresh(self) -> ContextV {
        ContextV { next_sym_id: (self.next_sym_id + 1) as usize, ..self }
    }

    /// The context after a member has been added to a struct.
    pub open spec fn with_member(self, id: i64, name: Seq<char>, member: MemberIndex) -> ContextV {
        let members = match lookup(self.struct_fields, id) {
            Some(m) => m,
            None => seq![],
        };
        ContextV {
            struct_fields: self.struct_fields.insert(
                id,
                crate::name_map::set_pair(members, name, member),
            ),
            ..self
        }
    }

    /// The context in which a struct has a member table.
    pub open spec fn with_members(self, id: i64) -> ContextV {
        if self.struct_fields.contains_key(id) {
            self
        } else {
            ContextV { struct_fields: self.struct_fields.insert(id, seq![]), ..self }
        }
    }

    /// The sort of an enum's values.
    pub open spec fn enum_sort(self, enum_id: i64) -> SymType {
        SymType::Uint(
            match lookup(self.enum_widths, enum_id) {
                Some(w) => w,
                None => DEFAULT_ENUM_WIDTH,
            },
        )
    }

    /// The type path of a struct.
    pub open spec fn struct_path(self, struct_id: i64) -> Option<TypeV> {
        match lookup(self.struct_names, struct_id) {
            Some(name) => Some(TypeV::Path { segments: seq![name], ref_id: Some(struct_id) }),
            None => None,
        }
    }

    /// The member of a struct with a name.
    pub open spec fn member(self, struct_id: i64, name: Seq<char>) -> Option<MemberIndex> {
        match lookup(self.struct_fields, struct_id) {
            Some(members) => member_named(members, name),
            None => None,
        }
    }

    /// The field of a struct with a name.
    pub open spec fn field(self, struct_id: i64, name: Seq<char>) -> Option<i64> {
        match self.member(struct_id, name) {
            Some(m) => field_id_in(m),
            None => None,
        }
    }

    /// The method of a struct with a name.
    pub open spec fn method(self, struct_id: i64, name: Seq<char>) -> Option<i64> {
        match self.member(struct_id, name) {
            Some(m) => func_id_in(m),
            None => None,
        }
    }

    /// What a type name stands for: structs take precedence over enums, and these over
    /// primitive types.
    pub open spec fn classify(self, ty: TypeV) -> Result<PathKind, ClassifyError> {
        match ty {
            TypeV::Path { segments, .. } => if segments.len() == 0 {
                Err(ClassifyError::EmptyPath)
            } else {
                let last = segments.last();
                if self.struct_index.contains_key(last) {
                    Ok(PathKind::Struct(self.struct_index[last]))
                } else if self.enum_index.contains_key(last) {
                    Ok(PathKind::Enum(self.enum_index[last]))
                } else if is_builtin_name(last) {
                    Ok(PathKind::Builtin)
                } else {
                    Err(ClassifyError::UnknownName)
                }
            },
            _ => Err(ClassifyError::NotAPath),
        }
    }

    /// The sort of a scalar type.
    pub open spec fn sort_of(self, ty: TypeV) -> Option<SymType> {
        match self.classify(ty) {
            Ok(PathKind::Builtin) => match ty {
                TypeV::Path { segments, .. } => builtin_sort(segments.last()),
                _ => None,
            },
            Ok(PathKind::Enum(id)) => Some(self.enum_sort(id)),
            _ => None,
        }
    }

    /// Whether a type is scalar.
    pub open spec fn scalar(self, ty: TypeV) -> bool {
        match self.classify(ty) {
            Ok(PathKind::Builtin) | Ok(PathKind::Enum(_)) => true,
            _ => false,
        }
    }

    /// The declared type of a variable, constant or field.
    pub open spec fn declared(self, id: i64) -> Option<TypeV> {
        if self.var_types.contains_key(id) {
            Some(self.var_types[id])
        } else if self.const_types.contains_key(id) {
            Some(self.const_types[id])
        } else {
            lookup(self.field_types, id)
        }
    }

    /// The type of a name.
    pub open spec fn path_type(self, segments: Seq<Seq<char>>, ref_id: Option<i64>) -> Option<
        TypeV,
    > {
        let id = ref_id->Some_0;
        if ref_id is Some && self.var_types.contains_key(id) {
            Some(self.var_types[id])
        } else if ref_id is Some && self.const_types.contains_key(id) {
            Some(self.const_types[id])
        } else if ref_id is Some && self.funcs.contains_key(id) {
            Some(TypeV::Function { ref_id })
        } else if segments.len() > 0 {
            match builtin_const_value(segments.last()) {
                Some((_, ty)) => Some(ty),
                None => None,
            }
        } else {
            None
        }
    }

    /// The type of a field access, given the type `map` of the map that the base projects from,
    /// if it does, and the type `base` of the base.
    pub open spec fn field_access_type(
        self,
        name: Seq<char>,
        ref_id: Option<i64>,
        map: Option<TypeV>,
        base: Option<TypeV>,
    ) -> Option<TypeV> {
        let id = ref_id->Some_0;
        if ref_id is Some && self.field_types.contains_key(id) {
            Some(self.field_types[id])
        } else if ref_id is Some && self.funcs.contains_key(id) {
            Some(TypeV::Function { ref_id })
        } else if map is Some && map->Some_0 is Mapping {
            let pair = map_pair(*map->Some_0->timestamp, *map->Some_0->value);
            if name == "0"@ || name == "clk_prev"@ {
                Some(pair.0)
            } else if name == "1"@ || name == "value"@ {
                Some(pair.1)
            } else {
                None
            }
        } else if base is Some && base->Some_0 is Tuple && unsigned_value(
            name,
            usize::MAX as nat,
        ) is Some {
            let elems = base->Some_0->Tuple_0;
            let idx = unsigned_value(name, usize::MAX as nat)->Some_0;
            if idx < elems.len() {
                Some(elems[idx as int])
            } else {
                None
            }
        } else {
            base
        }
    }

    /// Best-effort static type of an expression.
    pub open spec fn infer(self, e: ExprV) -> Option<TypeV>
        decreases e,
    {
        match e {
            ExprV::Int(_) => Some(uint_type(DEFAULT_INT_WIDTH)),
            ExprV::Bool(_) => Some(bool_type()),
            ExprV::Path { segments, ref_id } => self.path_type(segments, ref_id),
            ExprV::Field { base, name, ref_id } => self.field_access_type(
                name,
                ref_id,
                match *base {
                    ExprV::MapIndex { base: map_base, .. } => self.infer(*map_base),
                    _ => None,
                },
                self.infer(*base),
            ),
            ExprV::Call(callee, _) => self.infer(*callee),
            ExprV::Index(base, _) => match self.infer(*base) {
                Some(TypeV::Array(inner, _)) => Some(*inner),
                _ => None,
            },
            ExprV::MapIndex { base, .. } => match self.infer(*base) {
                Some(TypeV::Mapping { timestamp, value, .. }) => {
                    let pair = map_pair(*timestamp, *value);
                    Some(TypeV::Tuple(seq![pair.0, pair.1]))
                },
                _ => None,
            },
            ExprV::Binary { op, lhs, rhs } => match (self.infer(*lhs), self.infer(*rhs)) {
                (Some(lt), Some(rt)) => match (self.sort_of(lt), self.sort_of(rt)) {
                    (Some(ls), Some(rs)) => match combine_sorts(op, ls, rs) {
                        Some(s) => Some(type_of_sort(s)),
                        None => None,
                    },
                    _ => None,
                },
                _ => None,
            },
            ExprV::Paren(inner) => self.infer(*inner),
        }
    }

    /// The function that a call of a place refers to.
    pub open spec fn call_target(self, callee: LValueV) -> Option<i64> {
        match callee.ref_id {
            Some(id) => if callee.tails.len() == 1 {
                match callee.tails[0] {
                    LvTailV::Field { name } => match self.method(id, name) {
                        Some(fid) => Some(fid),
                        None => Some(id),
                    },
                    _ => Some(id),
                }
            } else {
                Some(id)
            },
            None => None,
        }
    }

    /// The context after a pair of lookup chips has been registered as a permutation.
    pub open spec fn with_permutation(self, send: Seq<char>, receive: Seq<char>) -> ContextV {
        let s = lower(send);
        let r = lower(receive);
        ContextV {
            memory_chips: self.memory_chips.insert(
                s,
                ChipV { kind: MemoryEventKind::Send, partner: Some(r) },
            ).insert(r, ChipV { kind: MemoryEventKind::Receive, partner: Some(s) }),
            ..self
        }
    }
}

/// Both chips of a registered pair are found under any capitalization, and name each other,
/// unless the two names differ in capitalization only.
pub proof fn permutation_is_found(ctx: ContextV, send: Seq<char>, receive: Seq<char>)
    requires
        lower(send) != lower(receive),
    ensures
        ({
            let c = ctx.with_permutation(send, receive).memory_chips;
            &&& lookup(c, lower(send)) == Some(
                ChipV { kind: MemoryEventKind::Send, partner: Some(lower(receive)) },
            )
            &&& lookup(c, lower(receive)) == Some(
                ChipV { kind: MemoryEventKind::Receive, partner: Some(lower(send)) },
            )
        }),
{
}

/// Combining sorts does not depend on the order of the operands.
pub proof fn combine_sorts_is_symmetric(op: BinOp, a: SymType, b: SymType)
    ensures
        combine_sorts(op, a, b) == combine_sorts(op, b, a),
{
}

/// A path of one segment.
fn one_segment(name: String, ref_id: Option<i64>) -> (r: Type)
    ensures
        r@ == (TypeV::Path { segments: seq![name@], ref_id }),
{
    let mut segments: Vec<String> = Vec::new();
    segments.push(name);
    proof {
        assert(texts(segments@) =~= seq![name@]);
    }
    Type::Path { segments, ref_id }
}

fn is_builtin(name: &str) -> (r: bool)
    ensures
        r == is_builtin_name(name@),
{
    let n = lower_text(name);
    let s = n.as_str();
    same_text(s, "bool") || same_text(s, "field") || same_text(s, "f") || same_text(s, "word")
        || same_text(s, "u8") || same_text(s, "u16") || same_text(s, "u24") || same_text(s, "u32")
        || same_text(s, "u64") || same_text(s, "u128") || same_text(s, "i32") || same_text(s, "i64")
        || same_text(s, "selector") || same_text(s, "timestamp")
}

fn width_suffix(s: &str) -> (r: Option<usize>)
    requires
        s@.len() > 0,
    ensures
        match r {
            Some(w) => unsigned_value(s@.skip(1), usize::MAX as nat) == Some(w as nat),
            None => unsigned_value(s@.skip(1), usize::MAX as nat) is None,
        },
{
    let n = s.unicode_len();
    let rest = s.substring_char(1, n);
    proof {
        assert(rest@ =~= s@.skip(1));
    }
    match parse_unsigned(rest, usize::MAX as u64) {
        Some(w) => Some(w as usize),
        None => None,
    }
}

fn sort_of_builtin(name: &str) -> (r: Option<SymType>)
    ensures
        r == builtin_sort(name@),
{
    let n = lower_text(name);
    let s = n.as_str();
    if same_text(s, "selector") || same_text(s, "bool") {
        Some(SymType::Bool)
    } else if same_text(s, "field") || same_text(s, "f") {
        Some(SymType::F)
    } else if same_text(s, "timestamp") {
        Some(SymType::Uint(64))
    } else if same_text(s, "word") {
        Some(SymType::Uint(32))
    } else if s.unicode_len() > 0 && s.get_char(0) == 'u' {
        match width_suffix(s) {
            Some(w) => Some(SymType::Uint(w)),
            None => None,
        }
    } else if s.unicode_len() > 0 && s.get_char(0) == 'i' {
        match width_suffix(s) {
            Some(w) => Some(SymType::Int(w)),
            None => None,
        }
    } else {
        None
    }
}

fn max_width(a: usize, b: usize) -> (r: usize)
    ensures
        r == wider(a, b),
{
    if a >= b {
        a
    } else {
        b
    }
}

/// The context of an empty program.
pub open spec fn empty_context() -> ContextV {
    ContextV {
        next_sym_id: 0,
        funcs: Map::empty(),
        struct_fields: Map::empty(),
        struct_names: Map::empty(),
        struct_index: Map::empty(),
        var_types: Map::empty(),
        const_types: Map::empty(),
        const_ints: Map::empty(),
        field_types: Map::empty(),
        fn_sigs: Map::empty(),
        func_owner: Map::empty(),
        memory_chips: Map::empty(),
        enum_names: Map::empty(),
        enum_index: Map::empty(),
        enum_widths: Map::empty(),
        config: crate::utils::default_config(),
    }
}

impl Default for Context {
    fn default() -> (r: Self)
        ensures
            r@ == empty_context(),
    {
        let r = Context {
            next_sym_id: 0,
            funcs: HashMap::new(),
            struct_fields: HashMap::new(),
            struct_names: HashMap::new(),
            struct_index: NameMap::new(),
            var_types: HashMap::new(),
            const_types: HashMap::new(),
            const_ints: HashMap::new(),
            field_types: HashMap::new(),
            fn_sigs: HashMap::new(),
            func_owner: HashMap::new(),
            memory_chips: NameMap::new(),
            enum_names: HashMap::new(),
            enum_index: NameMap::new(),
            enum_widths: HashMap::new(),
            config: SetConfig::default(),
        };
        proof {
            assert(r@.funcs =~= Map::empty());
            assert(r@.struct_fields =~= Map::empty());
            assert(r@.struct_names =~= Map::empty());
            assert(r@.var_types =~= Map::empty());
            assert(r@.const_types =~= Map::empty());
            assert(r@.field_types =~= Map::empty());
            assert(r@.fn_sigs =~= Map::empty());
            assert(r@.memory_chips =~= Map::empty());
            assert(r@.enum_names =~= Map::empty());
        }
        r
    }
}

impl Context {
    /// Returns the struct id associated with a component or struct name.
    pub fn struct_id_by_name(&self, name: &str) -> (r: Option<i64>)
        ensures
            r == lookup(self@.struct_index, name@),
    {
        match self.struct_index.get(name) {
            Some(id) => Some(*id),
            None => None,
        }
    }

    /// Returns the canonical name of a struct given its id.
    fn struct_name(&self, struct_id: i64) -> (r: Option<&String>)
        ensures
            match r {
                Some(s) => lookup(self@.struct_names, struct_id) == Some(s@),
                None => lookup(self@.struct_names, struct_id) is None,
            },
    {
        self.struct_names.get(&struct_id)
    }

    /// Returns the member map of a struct if available.
    pub fn struct_members(&self, struct_id: i64) -> (r: Option<&NameMap<MemberIndex>>)
        ensures
            match r {
                Some(m) => lookup(self@.struct_fields, struct_id) == Some(m.pairs()),
                None => lookup(self@.struct_fields, struct_id) is None,
            },
    {
        self.struct_fields.get(&struct_id)
    }

    /// Which solver the program is checked with.
    pub fn solver_kind(&self) -> (r: SolverKind)
        ensures
            r == self@.config.kind,
    {
        self.config.solver.kind
    }

    /// The number of structs with members.
    pub(crate) fn struct_count(&self) -> (r: usize)
        ensures
            r == self@.struct_fields.dom().len(),
    {
        broadcast use vstd::std_specs::hash::group_hash_axioms;

        proof {
            assert(self@.struct_fields.dom() =~= self.struct_fields@.dom());
        }
        self.struct_fields.len()
    }

    /// Return the symbolic scalar type used to represent an enum discriminant.
    pub fn enum_sym_type(&self, enum_id: i64) -> (r: SymType)
        ensures
            r == self@.enum_sort(enum_id),
    {
        match self.enum_widths.get(&enum_id) {
            Some(w) => SymType::Uint(*w),
            None => SymType::Uint(DEFAULT_ENUM_WIDTH),
        }
    }

    /// Constructs a canonical `Type::Path` for the given struct id.
    /// The resulting path uses the struct's name as its terminal segment.
    pub fn struct_type(&self, struct_id: i64) -> (r: Option<Type>)
        ensures
            some_view(r) == self@.struct_path(struct_id),
    {
        match self.struct_name(struct_id) {
            Some(name) => Some(one_segment(name.clone(), Some(struct_id))),
            None => None,
        }
    }

    /// Resolve field_id by (struct_id, field name).
    pub fn field_id_of(&self, struct_id: i64, name: &str) -> (r: Option<i64>)
        ensures
            r == self@.field(struct_id, name@),
    {
        match self.struct_members(struct_id) {
            Some(m) => match m.get(name) {
                Some(mi) => mi.as_field_id(),
                None => None,
            },
            None => None,
        }
    }

    /// Look up the literal integer value of a constant by id, if available.
    pub fn const_int(&self, id: i64) -> (r: Option<u64>)
        ensures
            r == lookup(self@.const_ints, id),
    {
        match self.const_ints.get(&id) {
            Some(k) => Some(*k),
            None => None,
        }
    }

    /// Construct builtin `bool` type.
    pub fn builtin_bool_type(&self) -> (r: Type)
        ensures
            r@ == bool_type(),
    {
        one_segment("bool".to_string(), None)
    }

    /// Construct builtin field type (`field`).
    pub fn builtin_field_type(&self) -> (r: Type)
        ensures
            r@ == field_type(),
    {
        one_segment("field".to_string(), None)
    }

    /// Construct builtin unsigned integer type `u{bits}`.
    pub fn builtin_uint_type(&self, bits: usize) -> (r: Type)
        ensures
            r@ == uint_type(bits),
    {
        let mut name = "u".to_string();
        push_nat(&mut name, bits as u128);
        one_segment(name, None)
    }

    /// Construct builtin signed integer type `i{bits}`.
    pub fn builtin_int_type(&self, bits: usize) -> (r: Type)
        ensures
            r@ == int_type(bits),
    {
        let mut name = "i".to_string();
        push_nat(&mut name, bits as u128);
        one_segment(name, None)
    }

    /// Map an AST type to a builtin scalar SymType, if possible.
    /// Only builtin scalars are mapped; structs/arrays/functions are rejected.
    pub fn builtin_type_to_sym_type(&self, ty: &Type) -> (r: Option<SymType>)
        ensures
            r == self@.sort_of(ty@),
    {
        match self.classify_type(ty) {
            Ok(PathKind::Builtin) => match ty {
                Type::Path { segments, .. } => {
                    proof {
                        assert(texts(segments@).last() == segments@[segments@.len() - 1]@);
                    }
                    sort_of_builtin(segments[segments.len() - 1].as_str())
                },
                _ => None,
            },
            Ok(PathKind::Enum(enum_id)) => Some(self.enum_sym_type(enum_id)),
            Ok(PathKind::Struct(_)) => None,
            Err(_) => None,
        }
    }

    /// Return a builtin constant (value, type) by name, if supported.
    pub fn builtin_const(&self, name: &str) -> (r: Option<(SymExpr, Type)>)
        ensures
            match r {
                Some((e, t)) => builtin_const_value(name@) == Some((e@, t@)),
                None => builtin_const_value(name@) is None,
            },
    {
        let n = lower_text(name);
        if same_text(n.as_str(), "one") {
            Some((SymExpr::Int(1), self.builtin_field_type()))
        } else if same_text(n.as_str(), "zero") {
            Some((SymExpr::Int(0), self.builtin_field_type()))
        } else {
            None
        }
    }

    /// Map a scalar SymType back to a builtin AST type.
    pub fn sym_type_to_builtin_type(&self, sty: &SymType) -> (r: Type)
        ensures
            r@ == type_of_sort(*sty),
    {
        match *sty {
            SymType::Bool => self.builtin_bool_type(),
            SymType::F => self.builtin_field_type(),
            SymType::Uint(w) => self.builtin_uint_type(w),
            SymType::Int(w) => self.builtin_int_type(w),
        }
    }

    /// Combine two SymType values under a binary operator.
    /// Returns the resulting SymType if the combination is well-typed.
    pub fn combine_sym_types_for_binary(&self, op: &BinOp, lhs: SymType, rhs: SymType) -> (r: Option<
        SymType,
    >)
        ensures
            r == combine_sorts(*op, lhs, rhs),
    {
        match op {
            BinOp::Eq | BinOp::Ne | BinOp::Lt | BinOp::Le | BinOp::Gt | BinOp::Ge => match (
                lhs,
                rhs,
            ) {
                (SymType::F, SymType::F)
                | (SymType::Uint(_), SymType::Uint(_))
                | (SymType::Int(_), SymType::Int(_))
                | (SymType::Bool, SymType::Bool)
                | (SymType::Bool, SymType::Uint(_))
                | (SymType::Uint(_), SymType::Bool) => Some(SymType::Bool),
                _ => None,
            },
            BinOp::And | BinOp::Or => if lhs == SymType::Bool && rhs == SymType::Bool {
                Some(SymType::Bool)
            } else {
                None
            },
            _ => match (lhs, rhs) {
                (SymType::F, SymType::F) => Some(SymType::F),
                (SymType::Uint(a), SymType::Uint(b)) => Some(SymType::Uint(max_width(a, b))),
                (SymType::Int(a), SymType::Int(b)) => Some(SymType::Int(max_width(a, b))),
                (SymType::Int(a), SymType::Uint(b)) => Some(SymType::Int(max_width(a, b))),
                (SymType::Uint(a), SymType::Int(b)) => Some(SymType::Int(max_width(b, a))),
                (SymType::Bool, SymType::Uint(w)) => Some(SymType::Uint(max_width(w, 1))),
                (SymType::Uint(w), SymType::Bool) => Some(SymType::Uint(max_width(w, 1))),
                (SymType::Bool, SymType::Bool) => Some(SymType::Uint(1)),
                _ => None,
            },
        }
    }

    /// Query the static type of a non-function id.
    /// Looks up var, const, or field types only.
    pub fn query_type(&self, id: i64) -> (r: Option<&Type>)
        ensures
            match r {
                Some(t) => self@.declared(id) == Some(t@),
                None => self@.declared(id) is None,
            },
    {
        match self.var_types.get(&id) {
            Some(t) => Some(t),
            None => match self.const_types.get(&id) {
                Some(t) => Some(t),
                None => self.field_types.get(&id),
            },
        }
    }

    /// Strictly classify a `Type::Path` by its terminal name. A type of another form has no
    /// classification: that is an error and no panic, since callers classify types of every form.
    pub fn classify_type(&self, ty: &Type) -> (r: Result<PathKind, ClassifyError>)
        ensures
            r == self@.classify(ty@),
    {
        match ty {
            Type::Path { segments, .. } => {
                if segments.len() == 0 {
                    return Err(ClassifyError::EmptyPath);
                }
                let last = segments[segments.len() - 1].as_str();
                proof {
                    assert(texts(segments@).last() == last@);
                }
                if let Some(sid) = self.struct_index.get(last) {
                    return Ok(PathKind::Struct(*sid));
                }
                if let Some(eid) = self.enum_index.get(last) {
                    return Ok(PathKind::Enum(*eid));
                }
                if is_builtin(last) {
                    return Ok(PathKind::Builtin);
                }
                Err(ClassifyError::UnknownName)
            },
            _ => Err(ClassifyError::NotAPath),
        }
    }

    /// Determine the `(clk_prev, value)` pair type produced by a map access.
    /// If the map value is already a tuple with at least two elements, reuse its head.
    /// Otherwise default to `(timestamp, value)`.
    pub fn map_return_pair_types(&self, ts_ty: &Type, val_ty: &Type) -> (r: (Type, Type))
        ensures
            (r.0@, r.1@) == map_pair(ts_ty@, val_ty@),
    {
        match val_ty {
            Type::Tuple(elems) => {
                proof {
                    assert(types_of(elems@).len() == elems@.len());
                }
                if elems.len() >= 2 {
                    proof {
                        assert(types_of(elems@)[0] == elems@[0]@);
                        assert(types_of(elems@)[1] == elems@[1]@);
                    }
                    (elems[0].clone(), elems[1].clone())
                } else {
                    (ts_ty.clone(), val_ty.clone())
                }
            },
            _ => (ts_ty.clone(), val_ty.clone()),
        }
    }

    /// Register a pair of lookup chips that form a permutation relation.
    pub fn register_memory_permutation(&mut self, send: &str, receive: &str)
        ensures
            final(self)@ == old(self)@.with_permutation(send@, receive@),
    {
        let s = lower_text(send);
        let r = lower_text(receive);
        let ghost before = self@.memory_chips;
        let a = MemoryChipMeta { kind: MemoryEventKind::Send, partner: Some(r.clone()) };
        let b = MemoryChipMeta { kind: MemoryEventKind::Receive, partner: Some(s.clone()) };
        self.memory_chips.set(s, a);
        self.memory_chips.set(r, b);
        proof {
            assert(self@.memory_chips =~= before.insert(lower(send@), a@).insert(
                lower(receive@),
                b@,
            ));
        }
    }

    /// Lookup metadata for a memory-related chip name.
    pub fn memory_chip(&self, name: &str) -> (r: Option<&MemoryChipMeta>)
        ensures
            match r {
                Some(m) => lookup(self@.memory_chips, lower(name@)) == Some(m@),
                None => lookup(self@.memory_chips, lower(name@)) is None,
            },
    {
        self.memory_chips.get(lower_text(name).as_str())
    }

    fn infer_path_type(&self, segments: &Vec<String>, ref_id: Option<i64>) -> (r: Option<Type>)
        ensures
            some_view(r) == self@.path_type(texts(segments@), ref_id),
    {
        if let Some(id) = ref_id {
            if let Some(ty) = self.var_types.get(&id) {
                return Some(ty.clone());
            }
            if let Some(ty) = self.const_types.get(&id) {
                return Some(ty.clone());
            }
            if self.funcs.contains_key(&id) {
                return Some(Type::Function { ref_id: Some(id) });
            }
        }
        if segments.len() > 0 {
            let last = segments[segments.len() - 1].as_str();
            proof {
                assert(texts(segments@).last() == last@);
            }
            if let Some((_, ty)) = self.builtin_const(last) {
                return Some(ty);
            }
        }
        None
    }

    fn infer_field_access(
        &self,
        name: &String,
        ref_id: Option<i64>,
        map: Option<Type>,
        base: Option<Type>,
    ) -> (r: Option<Type>)
        ensures
            some_view(r) == self@.field_access_type(name@, ref_id, some_view(map), some_view(base)),
    {
        if let Some(id) = ref_id {
            if let Some(ty) = self.field_types.get(&id) {
                return Some(ty.clone());
            }
            if self.funcs.contains_key(&id) {
                return Some(Type::Function { ref_id: Some(id) });
            }
        }
        if let Some(Type::Mapping { timestamp, key: _, value }) = &map {
            let (ts_ty, val_ty) = self.map_return_pair_types(timestamp, value);
            let n = name.as_str();
            if same_text(n, "0") || same_text(n, "clk_prev") {
                return Some(ts_ty);
            }
            if same_text(n, "1") || same_text(n, "value") {
                return Some(val_ty);
            }
            return None;
        }
        if let Some(Type::Tuple(elems)) = &base {
            proof {
                assert(types_of(elems@).len() == elems@.len());
            }
            if let Some(idx) = parse_unsigned(name.as_str(), usize::MAX as u64) {
                let i: usize = idx as usize;
                if i < elems.len() {
                    proof {
                        assert(types_of(elems@)[i as int] == elems@[i as int]@);
                    }
                    return Some(elems[i].clone());
                }
                return None;
            }
        }
        base
    }

    /// Best-effort static type inference from ids already attached to nodes.
    pub fn infer_expr_type_static(&self, e: &Expr) -> (r: Option<Type>)
        ensures
            some_view(r) == self@.infer(e@),
        decreases e,
    {
        match e {
            Expr::Int(_) => Some(self.builtin_uint_type(DEFAULT_INT_WIDTH)),
            Expr::Bool(_) => Some(self.builtin_bool_type()),
            Expr::Path { segments, ref_id } => self.infer_path_type(segments, *ref_id),
            Expr::Field { base, name, ref_id } => {
                let map = match &**base {
                    Expr::MapIndex { base: map_base, .. } => self.infer_expr_type_static(map_base),
                    _ => None,
                };
                let base_ty = self.infer_expr_type_static(base);
                proof {
                    assert((**base)@ == crate::ast::expr_of(**base));
                }
                self.infer_field_access(name, *ref_id, map, base_ty)
            },
            Expr::Call(callee, _) => self.infer_expr_type_static(callee),
            Expr::Index(base, _) => match self.infer_expr_type_static(base) {
                Some(Type::Array(inner, _)) => Some(*inner),
                _ => None,
            },
            Expr::MapIndex { base, .. } => match self.infer_expr_type_static(base) {
                Some(Type::Mapping { timestamp, key: _, value }) => {
                    let (ts_ty, val_ty) = self.map_return_pair_types(&timestamp, &value);
                    let mut elems: Vec<Type> = Vec::new();
                    elems.push(ts_ty);
                    elems.push(val_ty);
                    proof {
                        assert(types_of(elems@) =~= seq![ts_ty@, val_ty@]);
                    }
                    Some(Type::Tuple(elems))
                },
                _ => None,
            },
            Expr::Binary { op, lhs, rhs } => {
                match (self.infer_expr_type_static(lhs), self.infer_expr_type_static(rhs)) {
                    (Some(lt), Some(rt)) => match (
                        self.builtin_type_to_sym_type(&lt),
                        self.builtin_type_to_sym_type(&rt),
                    ) {
                        (Some(ls), Some(rs)) => match self.combine_sym_types_for_binary(
                            op,
                            ls,
                            rs,
                        ) {
                            Some(s) => Some(self.sym_type_to_builtin_type(&s)),
                            None => None,
                        },
                        _ => None,
                    },
                    _ => None,
                }
            },
            Expr::Paren(inner) => self.infer_expr_type_static(inner),
        }
    }

    /// Returns the function definition associated with the given identifier.
    pub fn func_def(&self, id: i64) -> (r: Option<&Func>)
        ensures
            match r {
                Some(f) => lookup(self@.funcs, id) == Some(f@),
                None => lookup(self@.funcs, id) is None,
            },
    {
        self.funcs.get(&id)
    }

    /// Query function signature by id.
    pub fn fn_sig(&self, id: i64) -> (r: Option<&FnSig>)
        ensures
            match r {
                Some(s) => lookup(self@.fn_sigs, id) == Some(s@),
                None => lookup(self@.fn_sigs, id) is None,
            },
    {
        self.fn_sigs.get(&id)
    }

    /// Returns the struct_id that owns this function if it is a method.
    /// None means it's a free function (not a struct method).
    pub fn method_owner(&self, func_id: i64) -> (r: Option<i64>)
        ensures
            r == lookup(self@.func_owner, func_id),
    {
        match self.func_owner.get(&func_id) {
            Some(id) => Some(*id),
            None => None,
        }
    }

    /// Convenience: check if `func_id` is a method of `struct_id`.
    pub fn is_method_of(&self, func_id: i64, struct_id: i64) -> (r: bool)
        ensures
            r == (lookup(self@.func_owner, func_id) == Some(struct_id)),
    {
        match self.method_owner(func_id) {
            Some(id) => id == struct_id,
            None => false,
        }
    }

    /// Resolve a method id by struct id and method name.
    pub fn resolve_method_on_struct(&self, struct_id: i64, method_name: &str) -> (r: Option<i64>)
        ensures
            r == self@.method(struct_id, method_name@),
    {
        match self.struct_members(struct_id) {
            Some(m) => match m.get(method_name) {
                Some(mi) => mi.as_func_id(),
                None => None,
            },
            None => None,
        }
    }

    /// Resolve a call callee from an lvalue.
    /// Handles qualified methods like `TypeName::method(...)`.
    pub fn resolve_call_from_lvalue(&self, callee: &LValue) -> (r: Option<i64>)
        ensures
            r == self@.call_target(callee@),
    {
        proof {
            assert(crate::ast::tails_of(callee.tails@).len() == callee.tails@.len());
        }
        match callee.ref_id {
            Some(id) => {
                if callee.tails.len() == 1 {
                    proof {
                        assert(callee@.tails[0] == callee.tails@[0]@);
                    }
                    if let LvTail::Field { name } = &callee.tails[0] {
                        if let Some(fid) = self.resolve_method_on_struct(id, name.as_str()) {
                            return Some(fid);
                        }
                    }
                }
                Some(id)
            },
            None => None,
        }
    }
}

impl Context {
    /// The next unused identifier, unless the supply is exhausted.
    pub(crate) fn fresh_id(&mut self) -> (r: Option<i64>)
        ensures
            match r {
                Some(id) => old(self)@.has_fresh() && id == old(self)@.next_sym_id && final(self)@
                    == old(self)@.after_fresh(),
                None => !old(self)@.has_fresh() && final(self)@ == old(self)@,
            },
    {
        if self.next_sym_id < usize::MAX && self.next_sym_id as u128 <= 0x7fff_ffff_ffff_ffff {
            let id: i64 = self.next_sym_id as i64;
            self.next_sym_id = self.next_sym_id + 1;
            Some(id)
        } else {
            None
        }
    }

    /// Stores a function definition.
    pub(crate) fn set_func(&mut self, id: i64, f: Func)
        ensures
            final(self)@ == (ContextV {
                funcs: old(self)@.funcs.insert(id, f@),
                ..old(self)@
            }),
    {
        let ghost before = self@.funcs;
        self.funcs.insert(id, f);
        proof {
            assert(self@.funcs =~= before.insert(id, f@));
        }
    }

    /// Stores the name of a struct.
    pub(crate) fn set_struct_name(&mut self, id: i64, name: String)
        ensures
            final(self)@ == (ContextV {
                struct_names: old(self)@.struct_names.insert(id, name@),
                ..old(self)@
            }),
    {
        let ghost before = self@.struct_names;
        self.struct_names.insert(id, name);
        proof {
            assert(self@.struct_names =~= before.insert(id, name@));
        }
    }

    /// Stores the id of a struct name.
    pub(crate) fn set_struct_index(&mut self, name: String, id: i64)
        ensures
            final(self)@ == (ContextV {
                struct_index: old(self)@.struct_index.insert(name@, id),
                ..old(self)@
            }),
    {
        let ghost before = self@.struct_index;
        self.struct_index.set(name, id);
        proof {
            assert(self@.struct_index =~= before.insert(name@, id));
        }
    }

    /// Stores the name of an enum.
    pub(crate) fn set_enum_name(&mut self, id: i64, name: String)
        ensures
            final(self)@ == (ContextV {
                enum_names: old(self)@.enum_names.insert(id, name@),
                ..old(self)@
            }),
    {
        let ghost before = self@.enum_names;
        self.enum_names.insert(id, name);
        proof {
            assert(self@.enum_names =~= before.insert(id, name@));
        }
    }

    /// Stores the id of an enum name.
    pub(crate) fn set_enum_index(&mut self, name: String, id: i64)
        ensures
            final(self)@ == (ContextV {
                enum_index: old(self)@.enum_index.insert(name@, id),
                ..old(self)@
            }),
    {
        let ghost before = self@.enum_index;
        self.enum_index.set(name, id);
        proof {
            assert(self@.enum_index =~= before.insert(name@, id));
        }
    }

    /// Stores the width of an enum.
    pub(crate) fn set_enum_width(&mut self, id: i64, w: usize)
        ensures
            final(self)@ == (ContextV {
                enum_widths: old(self)@.enum_widths.insert(id, w),
                ..old(self)@
            }),
    {
        let ghost before = self@.enum_widths;
        self.enum_widths.insert(id, w);
        proof {
            assert(self@.enum_widths =~= before.insert(id, w));
        }
    }

    /// Stores the type of a variable.
    pub(crate) fn set_var_type(&mut self, id: i64, ty: Type)
        ensures
            final(self)@ == (ContextV {
                var_types: old(self)@.var_types.insert(id, ty@),
                ..old(self)@
            }),
    {
        let ghost before = self@.var_types;
        self.var_types.insert(id, ty);
        proof {
            assert(self@.var_types =~= before.insert(id, ty@));
        }
    }

    /// Stores the type of a constant.
    pub(crate) fn set_const_type(&mut self, id: i64, ty: Type)
        ensures
            final(self)@ == (ContextV {
                const_types: old(self)@.const_types.insert(id, ty@),
                ..old(self)@
            }),
    {
        let ghost before = self@.const_types;
        self.const_types.insert(id, ty);
        proof {
            assert(self@.const_types =~= before.insert(id, ty@));
        }
    }

    /// Stores the value of a constant.
    pub(crate) fn set_const_int(&mut self, id: i64, k: u64)
        ensures
            final(self)@ == (ContextV {
                const_ints: old(self)@.const_ints.insert(id, k),
                ..old(self)@
            }),
    {
        let ghost before = self@.const_ints;
        self.const_ints.insert(id, k);
        proof {
            assert(self@.const_ints =~= before.insert(id, k));
        }
    }

    /// Stores the type of a field.
    pub(crate) fn set_field_type(&mut self, id: i64, ty: Type)
        ensures
            final(self)@ == (ContextV {
                field_types: old(self)@.field_types.insert(id, ty@),
                ..old(self)@
            }),
    {
        let ghost before = self@.field_types;
        self.field_types.insert(id, ty);
        proof {
            assert(self@.field_types =~= before.insert(id, ty@));
        }
    }

    /// Stores a function signature.
    pub(crate) fn set_fn_sig(&mut self, id: i64, sig: FnSig)
        ensures
            final(self)@ == (ContextV {
                fn_sigs: old(self)@.fn_sigs.insert(id, sig@),
                ..old(self)@
            }),
    {
        let ghost before = self@.fn_sigs;
        self.fn_sigs.insert(id, sig);
        proof {
            assert(self@.fn_sigs =~= before.insert(id, sig@));
        }
    }

    /// Stores the struct that owns a method.
    pub(crate) fn set_func_owner(&mut self, id: i64, owner: i64)
        ensures
            final(self)@ == (ContextV {
                func_owner: old(self)@.func_owner.insert(id, owner),
                ..old(self)@
            }),
    {
        let ghost before = self@.func_owner;
        self.func_owner.insert(id, owner);
        proof {
            assert(self@.func_owner =~= before.insert(id, owner));
        }
    }

    /// Stores the members of a struct.
    pub(crate) fn set_struct_members(&mut self, id: i64, members: NameMap<MemberIndex>)
        ensures
            final(self)@ == (ContextV {
                struct_fields: old(self)@.struct_fields.insert(id, members.pairs()),
                ..old(self)@
            }),
    {
        let ghost before = self@.struct_fields;
        self.struct_fields.insert(id, members);
        proof {
            assert(self@.struct_fields =~= before.insert(id, members.pairs()));
        }
    }

    /// Adds a member to a struct, which starts without members.
    pub(crate) fn add_member(&mut self, id: i64, name: String, member: MemberIndex)
        ensures
            final(self)@ == old(self)@.with_member(id, name@, member),
    {
        let ghost before = self@;
        let mut members = match self.struct_fields.remove(&id) {
            Some(m) => m,
            None => NameMap::new(),
        };
        let ghost start = members.pairs();
        members.set(name, member);
        self.struct_fields.insert(id, members);
        proof {
            assert(self@.struct_fields =~= before.with_member(id, name@, member).struct_fields);
        }
    }

    /// Makes sure that a struct has a member table.
    pub(crate) fn ensure_members(&mut self, id: i64)
        ensures
            final(self)@ == old(self)@.with_members(id),
    {
        let ghost before = self@;
        if !self.struct_fields.contains_key(&id) {
            self.struct_fields.insert(id, NameMap::new());
            proof {
                assert(self@.struct_fields =~= before.with_members(id).struct_fields);
            }
        }
    }

    /// Whether a width has been stored for an enum.
    pub(crate) fn has_enum_width(&self, id: i64) -> (r: bool)
        ensures
            r == self@.enum_widths.contains_key(id),
    {
        self.enum_widths.contains_key(&id)
    }
}

impl Type {
    /// Checks whether the type is a builtin scalar type.
    pub fn is_scalar(&self, ctx: &Context) -> (r: bool)
        ensures
            r == ctx@.scalar(self@),
    {
        match ctx.classify_type(self) {
            Ok(PathKind::Builtin) => true,
            Ok(PathKind::Enum(_)) => true,
            _ => false,
        }
    }
}

} // verus!
