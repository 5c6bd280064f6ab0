//! Fresh symbols, decompositions, packed scalars and traces.

use vstd::arithmetic::power2::pow2;
use vstd::prelude::*;
use vstd::string::*;
use crate::ast::{Type, TypeV};
use crate::checker::symbolic::arith::{add_leaves, product_term, sum_term, sums_fit};
use crate::checker::symbolic::canonical::{canonical, canonicalize_symexpr};
use crate::checker::symbolic::context::MemoryEventKind;
use crate::checker::symbolic::error::ExecError;
use crate::checker::symbolic::expr::{
    clone_terms, terms_of, BoolExpr, Formula, SymExpr, SymType, Term, FIELD_MODULUS, WORD_BYTES,
};
use crate::checker::symbolic::range::power_of_two;
use crate::checker::symbolic::state::{
    views, BitsRecord, BitsV, ByteOpKey, ByteOpV, EventV, MapReadRecord, MapReadV, MemoryEvent,
    StateV, SymState,
};
use crate::checker::symbolic::value::{plain_value, SymValue, ValueV};
use crate::text::{decimal, push_nat, same_text};

verus! {

broadcast use crate::checker::symbolic::expr_lists::group_lists;

/// The condition that a term lies in an interval that `bits` bits can hold.
pub open spec fn in_range(t: Term, min: int, max: int, bits: usize) -> Formula {
    Formula::Range { value: t, min, max, bits: Some(bits) }
}

/// The sum of two terms.
pub open spec fn plus(a: Term, b: Term) -> Result<Term, ExecError> {
    if sums_fit(add_leaves(seq![a, b])) {
        Ok(sum_term(seq![a, b]))
    } else {
        Err(ExecError::ConstantOverflow)
    }
}

/// The product of two terms.
pub open spec fn product(a: Term, b: Term) -> Term {
    product_term(seq![a, b])
}

/// `a + b`
pub fn add_terms(a: SymExpr, b: SymExpr) -> (r: Result<SymExpr, ExecError>)
    ensures
        crate::view::ok_view(r) == plus(a@, b@),
{
    match SymExpr::try_add(a, b) {
        Some(e) => Ok(e),
        None => Err(ExecError::ConstantOverflow),
    }
}

/// The sort of a constant of value `k`.
pub open spec fn literal_sort(k: int) -> SymType {
    if k < 0 {
        if k >= i32::MIN {
            SymType::Int(32)
        } else {
            SymType::Int(64)
        }
    } else if k <= 1 {
        SymType::Bool
    } else if k <= 3 {
        SymType::Uint(2)
    } else if k <= 15 {
        SymType::Uint(4)
    } else if k <= 255 {
        SymType::Uint(8)
    } else if k <= 65_535 {
        SymType::Uint(16)
    } else if k <= u32::MAX {
        SymType::Uint(32)
    } else {
        SymType::Uint(64)
    }
}

/// The sort of a simple term.
pub open spec fn term_sort(t: Term) -> Option<SymType>
    decreases t,
{
    match t {
        Term::Var(_, ty) => Some(ty),
        Term::Int(k) => Some(literal_sort(k)),
        Term::Ite(_, a, b) => match (term_sort(*a), term_sort(*b)) {
            (Some(x), Some(y)) => if x == y {
                Some(x)
            } else {
                None
            },
            _ => None,
        },
        Term::Mul(vs) => common_sort(vs),
        _ => None,
    }
}

/// The sort that all of at least one term have.
pub open spec fn common_sort(vs: Seq<Term>) -> Option<SymType>
    decreases vs,
{
    if vs.len() == 0 {
        None
    } else if vs.len() == 1 {
        term_sort(vs[0])
    } else {
        match (common_sort(vs.drop_last()), term_sort(vs.last())) {
            (Some(x), Some(y)) => if x == y {
                Some(x)
            } else {
                None
            },
            _ => None,
        }
    }
}

/// The key under which the bits of a value are kept: variables are told apart by name only.
pub open spec fn bits_key(t: Term) -> Term {
    match t {
        Term::Var(name, _) => Term::Var(name, SymType::F),
        _ => t,
    }
}

/// The bits recorded for a key, from record `i` on.
pub open spec fn cached_bits(cache: Seq<BitsV>, i: int, key: Term) -> Option<Seq<Term>>
    decreases cache.len() - i,
{
    if i < 0 || i >= cache.len() {
        None
    } else if cache[i].key == key {
        Some(cache[i].bits)
    } else {
        cached_bits(cache, i + 1, key)
    }
}

/// The previous clock and the value recorded for a map read, from record `i` on.
pub open spec fn cached_read(
    reads: Seq<MapReadV>,
    i: int,
    base_id: Option<i64>,
    base_repr: Seq<char>,
    clk_key: Term,
    addr_key: Term,
) -> Option<(Term, Term)>
    decreases reads.len() - i,
{
    if i < 0 || i >= reads.len() {
        None
    } else if reads[i].base_id == base_id && reads[i].base_repr == base_repr && reads[i].clk_key
        == clk_key && reads[i].addr_key == addr_key {
        Some((reads[i].clk_prev, reads[i].value))
    } else {
        cached_read(reads, i + 1, base_id, base_repr, clk_key, addr_key)
    }
}

impl StateV {
    /// A fresh symbol, and the state after it.
    pub open spec fn fresh_var(self, hint: Seq<char>, ty: SymType) -> Result<
        (Term, StateV),
        ExecError,
    > {
        if self.fresh == usize::MAX {
            Err(ExecError::FreshExhausted)
        } else {
            Ok(
                (
                    Term::Var(hint + "_"@ + decimal(self.fresh as nat), ty),
                    StateV { fresh: (self.fresh + 1) as usize, ..self },
                ),
            )
        }
    }

    /// The state in which a term that is not known to be a field element is constrained to be
    /// one.
    pub open spec fn with_field_range(self, t: Term) -> StateV {
        let needed = match self.range(t) {
            Some((lo, hi)) => lo < 0 || hi >= FIELD_MODULUS,
            None => true,
        };
        if term_sort(t) != Some(SymType::F) && needed {
            self.with_cond(in_range(t, 0, FIELD_MODULUS - 1, 32))
        } else {
            self
        }
    }

    /// The bits from `i` up to `n`, behind `bits`, and the number they stand for, on top of
    /// `acc`.
    pub open spec fn bits_from(
        self,
        prefix: Seq<char>,
        i: int,
        n: int,
        bits: Seq<Term>,
        acc: Term,
    ) -> Result<(Seq<Term>, Term, StateV), ExecError>
        decreases n - i,
    {
        if i < 0 || i >= n {
            Ok((bits, acc, self))
        } else {
            match self.fresh_var(prefix + "_"@ + decimal(i as nat), SymType::Bool) {
                Err(x) => Err(x),
                Ok((bit, s)) => match plus(acc, product(bit, Term::Int(pow2(i as nat) as int))) {
                    Err(x) => Err(x),
                    Ok(sum) => s.with_cond(in_range(bit, 0, 1, 1)).bits_from(
                        prefix,
                        i + 1,
                        n,
                        bits.push(bit),
                        sum,
                    ),
                },
            }
        }
    }

    /// The bits of a 32-bit value, reusing an earlier decomposition.
    pub open spec fn bits_of(self, t: Term, prefix: Seq<char>) -> Result<
        (Seq<Term>, StateV),
        ExecError,
    > {
        match cached_bits(self.bits, 0, bits_key(t)) {
            Some(bits) => Ok((bits, self)),
            None => match self.bits_from(prefix, 0, 32, seq![], Term::Int(0)) {
                Err(x) => Err(x),
                Ok((bits, acc, s)) => {
                    let s2 = s.with_cond(in_range(t, 0, 0xffff_ffff, 32)).with_cond(
                        Formula::Eq(t, acc),
                    );
                    Ok(
                        (
                            bits,
                            StateV { bits: s2.bits.push(BitsV { key: bits_key(t), bits }), ..s2 },
                        ),
                    )
                },
            },
        }
    }

    /// Fresh bytes from `i` up to the size of a word, behind `bytes`.
    pub open spec fn bytes_from(self, hint: Seq<char>, i: int, bytes: Seq<Term>) -> Result<
        (Seq<Term>, StateV),
        ExecError,
    >
        decreases WORD_BYTES - i,
    {
        if i < 0 || i >= WORD_BYTES {
            Ok((bytes, self))
        } else {
            match self.fresh_var(hint + "_b"@ + decimal(i as nat), SymType::Uint(8)) {
                Err(x) => Err(x),
                Ok((b, s)) => s.with_cond(in_range(b, 0, 255, 8)).with_cond(
                    Formula::Ge(b, Term::Int(0)),
                ).with_cond(Formula::Le(b, Term::Int(255))).bytes_from(
                    hint,
                    i + 1,
                    bytes.push(b),
                ),
            }
        }
    }

    /// The bytes of a word, and the state that ties them to its value.
    pub open spec fn word_of(self, t: Term, hint: Seq<char>) -> Result<
        (Seq<Term>, StateV),
        ExecError,
    > {
        match self.bytes_from(hint, 0, seq![]) {
            Err(x) => Err(x),
            Ok((bytes, s)) => match little_endian(bytes, bytes.len() - 1, bytes.last()) {
                Err(x) => Err(x),
                Ok(acc) => Ok((bytes, s.with_cond(Formula::Eq(acc, t)))),
            },
        }
    }

    /// A scalar of a sort; words get a byte-wise view.
    pub open spec fn packed(self, t: Term, sty: SymType, hint: Seq<char>) -> Result<
        (ValueV, StateV),
        ExecError,
    > {
        match sty {
            SymType::F => Ok((plain_value(t), self.with_field_range(t))),
            SymType::Uint(w) => if w == 32 {
                match self.word_of(t, hint) {
                    Err(x) => Err(x),
                    Ok((bytes, s)) => Ok((ValueV { surface: t, word: Some(bytes) }, s)),
                }
            } else {
                Ok((plain_value(t), self))
            },
            _ => Ok((plain_value(t), self)),
        }
    }

    /// The sort of a scalar type, field elements by default.
    pub open spec fn sort_or_field(self, ty: TypeV) -> SymType {
        match self.ctx.sort_of(ty) {
            Some(s) => s,
            None => SymType::F,
        }
    }

    /// The state after a memory event.
    pub open spec fn with_event(
        self,
        kind: MemoryEventKind,
        clk: Term,
        addr: Term,
        value: Term,
    ) -> StateV {
        StateV { events: self.events.push(EventV { kind, clk, addr, value }), ..self }
    }

    /// The result of an earlier map read with the same base and, up to the order of operands, the
    /// same clock and address.
    pub open spec fn map_read(
        self,
        base_id: Option<i64>,
        base_repr: Seq<char>,
        clk: Term,
        addr: Term,
    ) -> Option<(Term, Term)> {
        cached_read(self.map_reads, 0, base_id, base_repr, canonical(clk), canonical(addr))
    }

    /// The state after a map read.
    pub open spec fn with_map_read(
        self,
        base_id: Option<i64>,
        base_repr: Seq<char>,
        clk: Term,
        addr: Term,
        clk_prev: Term,
        value: Term,
    ) -> StateV {
        StateV {
            map_reads: self.map_reads.push(
                MapReadV {
                    base_id,
                    base_repr,
                    clk,
                    addr,
                    clk_prev,
                    value,
                    clk_key: canonical(clk),
                    addr_key: canonical(addr),
                },
            ),
            ..self
        }
    }
}

/// The key of a byte operation.
pub open spec fn byte_op(op: Seq<char>, out: Term, lhs: Term, rhs: Term) -> ByteOpV {
    ByteOpV { op, out: canonical(out), lhs: canonical(lhs), rhs: canonical(rhs) }
}

/// `bytes[0] + 256 * (bytes[1] + ...)`, with the bytes from `i` on already folded into `acc`.
pub open spec fn little_endian(bytes: Seq<Term>, i: int, acc: Term) -> Result<Term, ExecError>
    decreases i,
{
    if i <= 0 || i > bytes.len() {
        Ok(acc)
    } else {
        match plus(bytes[i - 1], product(Term::Int(256), acc)) {
            Err(x) => Err(x),
            Ok(t) => little_endian(bytes, i - 1, t),
        }
    }
}

proof fn lemma_cached_read_push(
    reads: Seq<MapReadV>,
    i: int,
    r: MapReadV,
    base_id: Option<i64>,
    base_repr: Seq<char>,
    ck: Term,
    ak: Term,
)
    requires
        0 <= i <= reads.len(),
    ensures
        cached_read(reads.push(r), i, base_id, base_repr, ck, ak) == match cached_read(
            reads,
            i,
            base_id,
            base_repr,
            ck,
            ak,
        ) {
            Some(x) => Some(x),
            None => cached_read(seq![r], 0, base_id, base_repr, ck, ak),
        },
    decreases reads.len() - i,
{
    if i < reads.len() {
        assert(reads.push(r)[i] == reads[i]);
        lemma_cached_read_push(reads, i + 1, r, base_id, base_repr, ck, ak);
    } else {
        assert(reads.push(r)[i] == r);
        assert(seq![r][0] == r);
        assert(cached_read(reads.push(r), i + 1, base_id, base_repr, ck, ak) is None);
        assert(cached_read(seq![r], 1, base_id, base_repr, ck, ak) is None);
    }
}

/// A map read is found again, unless an earlier read had the same base, clock and address, whose
/// result then stands; reads of other bases, clocks and addresses are unaffected.
pub proof fn map_read_is_remembered(
    st: StateV,
    base_id: Option<i64>,
    base_repr: Seq<char>,
    clk: Term,
    addr: Term,
    clk_prev: Term,
    value: Term,
    other_id: Option<i64>,
    other_clk: Term,
    other_addr: Term,
)
    ensures
        st.with_map_read(base_id, base_repr, clk, addr, clk_prev, value).map_read(
            base_id,
            base_repr,
            clk,
            addr,
        ) == match st.map_read(base_id, base_repr, clk, addr) {
            Some(x) => Some(x),
            None => Some((clk_prev, value)),
        },
        (other_id != base_id || canonical(other_clk) != canonical(clk) || canonical(other_addr)
            != canonical(addr)) ==> st.with_map_read(
            base_id,
            base_repr,
            clk,
            addr,
            clk_prev,
            value,
        ).map_read(other_id, base_repr, other_clk, other_addr) == st.map_read(
            other_id,
            base_repr,
            other_clk,
            other_addr,
        ),
{
    let r = MapReadV {
        base_id,
        base_repr,
        clk,
        addr,
        clk_prev,
        value,
        clk_key: canonical(clk),
        addr_key: canonical(addr),
    };
    lemma_cached_read_push(
        st.map_reads,
        0,
        r,
        base_id,
        base_repr,
        canonical(clk),
        canonical(addr),
    );
    lemma_cached_read_push(
        st.map_reads,
        0,
        r,
        other_id,
        base_repr,
        canonical(other_clk),
        canonical(other_addr),
    );
    assert(seq![r][0] == r);
    reveal_with_fuel(cached_read, 2);
}

/// A second decomposition of a value gives the same bits and changes nothing.
pub proof fn bits_are_reused(st: StateV, t: Term, prefix: Seq<char>, again: Seq<char>)
    requires
        st.bits_of(t, prefix) is Ok,
    ensures
        ({
            let first = st.bits_of(t, prefix)->Ok_0;
            first.1.bits_of(t, again) == Ok::<(Seq<Term>, StateV), ExecError>((first.0, first.1))
        }),
{
    let first = st.bits_of(t, prefix)->Ok_0;
    if cached_bits(st.bits, 0, bits_key(t)) is None {
        let s = st.bits_from(prefix, 0, 32, seq![], Term::Int(0))->Ok_0.2;
        let acc = st.bits_from(prefix, 0, 32, seq![], Term::Int(0))->Ok_0.1;
        let s2 = s.with_cond(in_range(t, 0, 0xffff_ffff, 32)).with_cond(Formula::Eq(t, acc));
        lemma_bits_cache_kept(st, prefix, 0, 32, seq![], Term::Int(0));
        lemma_cond_keeps(s, in_range(t, 0, 0xffff_ffff, 32));
        lemma_cond_keeps(s.with_cond(in_range(t, 0, 0xffff_ffff, 32)), Formula::Eq(t, acc));
        lemma_cached_bits_push(s2.bits, 0, BitsV { key: bits_key(t), bits: first.0 });
    }
}

proof fn lemma_cached_bits_push(cache: Seq<BitsV>, i: int, r: BitsV)
    requires
        0 <= i <= cache.len(),
        cached_bits(cache, i, r.key) is None,
    ensures
        cached_bits(cache.push(r), i, r.key) == Some(r.bits),
    decreases cache.len() - i,
{
    if i < cache.len() {
        assert(cache.push(r)[i] == cache[i]);
        lemma_cached_bits_push(cache, i + 1, r);
    } else {
        assert(cache.push(r)[i] == r);
    }
}

/// Adding a condition touches nothing but the path condition, the hints and the contradiction
/// mark.
pub proof fn lemma_cond_keeps(st: StateV, cond: Formula)
    ensures
        st.with_cond(cond) == (StateV {
            path_cond: st.with_cond(cond).path_cond,
            hints: st.with_cond(cond).hints,
            unsat: st.with_cond(cond).unsat,
            ..st
        }),
    decreases crate::checker::symbolic::simplify_laws::formula_size(cond), 0int,
{
    reveal(StateV::with_cond);
    crate::checker::symbolic::simplify_laws::simplification_shrinks(cond, st.hints);
    match crate::checker::symbolic::simplify::simplified(cond, st.hints).0 {
        crate::checker::symbolic::simplify::Simp::Open(Formula::And(vs)) => {
            assert(crate::checker::symbolic::simplify_laws::formula_size(Formula::And(vs)) == 1
                + crate::checker::symbolic::simplify_laws::formulas_size(vs));
            lemma_conds_keep(st, vs, 0);
        },
        _ => {},
    }
}

proof fn lemma_conds_keep(st: StateV, vs: Seq<Formula>, i: int)
    requires
        0 <= i,
    ensures
        st.with_conds(vs, i) == (StateV {
            path_cond: st.with_conds(vs, i).path_cond,
            hints: st.with_conds(vs, i).hints,
            unsat: st.with_conds(vs, i).unsat,
            ..st
        }),
    decreases crate::checker::symbolic::simplify_laws::formulas_size(vs), vs.len() - i,
{
    reveal(StateV::with_cond);
    if i < vs.len() {
        crate::checker::symbolic::simplify_laws::lemma_size_member(vs, i);
        lemma_cond_keeps(st, vs[i]);
        if !st.with_cond(vs[i]).unsat {
            lemma_conds_keep(st.with_cond(vs[i]), vs, i + 1);
        }
    }
}

proof fn lemma_bits_cache_kept(
    st: StateV,
    prefix: Seq<char>,
    i: int,
    n: int,
    bits: Seq<Term>,
    acc: Term,
)
    requires
        st.bits_from(prefix, i, n, bits, acc) is Ok,
    ensures
        st.bits_from(prefix, i, n, bits, acc)->Ok_0.2.bits == st.bits,
    decreases n - i,
{
    if 0 <= i < n {
        let f = st.fresh_var(prefix + "_"@ + decimal(i as nat), SymType::Bool)->Ok_0;
        lemma_cond_keeps(f.1, in_range(f.0, 0, 1, 1));
        let sum = plus(acc, product(f.0, Term::Int(pow2(i as nat) as int)))->Ok_0;
        lemma_bits_cache_kept(
            f.1.with_cond(in_range(f.0, 0, 1, 1)),
            prefix,
            i + 1,
            n,
            bits.push(f.0),
            sum,
        );
    }
}

/// Fresh symbols have names of their own: two symbols drawn one after the other under the same
/// hint differ.
pub proof fn fresh_names_differ(st: StateV, hint: Seq<char>, a: SymType, b: SymType)
    requires
        st.fresh_var(hint, a) is Ok,
        st.fresh_var(hint, a)->Ok_0.1.fresh_var(hint, b) is Ok,
    ensures
        ({
            let first = st.fresh_var(hint, a)->Ok_0;
            let second = first.1.fresh_var(hint, b)->Ok_0;
            first.0->Var_0 != second.0->Var_0
        }),
{
    let n = st.fresh as nat;
    let p = hint + "_"@;
    crate::text::decimal_is_injective(n, n + 1);
    if p + decimal(n) == p + decimal(n + 1) {
        assert(decimal(n) =~= (p + decimal(n)).skip(p.len() as int));
        assert(decimal(n + 1) =~= (p + decimal(n + 1)).skip(p.len() as int));
    }
}

/// A name with a separator and a number behind it.
pub(crate) fn numbered(prefix: &str, sep: &str, i: usize) -> (r: String)
    ensures
        r@ == prefix@ + sep@ + decimal(i as nat),
{
    let mut s = prefix.to_string();
    s.append(sep);
    push_nat(&mut s, i as u128);
    s
}

fn sort_of_factors(vs: &Vec<SymExpr>) -> (r: Option<SymType>)
    ensures
        r == common_sort(terms_of(vs@)),
    decreases vs,
{
    let ghost ts = terms_of(vs@);
    if vs.len() == 0 {
        return None;
    }
    let mut acc = symexpr_sort(&vs[0]);
    proof {
        assert(ts.take(1)[0] == vs@[0]@);
    }
    #[verifier::loop_isolation(false)]
    for i in 1..vs.len()
        invariant
            acc == common_sort(ts.take(i as int)),
    {
        let s = symexpr_sort(&vs[i]);
        proof {
            assert(ts.take(i + 1).drop_last() =~= ts.take(i as int));
            assert(ts.take(i + 1).last() == vs@[i as int]@);
        }
        acc = match (acc, s) {
            (Some(x), Some(y)) => if x == y {
                Some(x)
            } else {
                None
            },
            _ => None,
        };
    }
    proof {
        assert(ts.take(ts.len() as int) =~= ts);
    }
    acc
}

/// Returns the symbolic sort for simple scalar expressions.
pub fn symexpr_sort(e: &SymExpr) -> (r: Option<SymType>)
    ensures
        r == term_sort(e@),
    decreases e,
{
    match e {
        SymExpr::Var(_, ty) => Some(*ty),
        SymExpr::Int(k) => Some(
            if *k < 0 {
                if *k >= i32::MIN as i128 {
                    SymType::Int(32)
                } else {
                    SymType::Int(64)
                }
            } else if *k <= 1 {
                SymType::Bool
            } else if *k <= 3 {
                SymType::Uint(2)
            } else if *k <= 15 {
                SymType::Uint(4)
            } else if *k <= 255 {
                SymType::Uint(8)
            } else if *k <= 65_535 {
                SymType::Uint(16)
            } else if *k <= u32::MAX as i128 {
                SymType::Uint(32)
            } else {
                SymType::Uint(64)
            },
        ),
        SymExpr::Ite(_, a, b) => match (symexpr_sort(a), symexpr_sort(b)) {
            (Some(x), Some(y)) => if x == y {
                Some(x)
            } else {
                None
            },
            _ => None,
        },
        SymExpr::Mul(vs) => sort_of_factors(vs),
        _ => None,
    }
}

fn cache_key_for_expr(t: &SymExpr) -> (r: SymExpr)
    ensures
        r@ == bits_key(t@),
{
    match t {
        SymExpr::Var(name, _) => SymExpr::Var(name.clone(), SymType::F),
        other => other.clone(),
    }
}

/// A range condition.
pub fn range_cond(value: SymExpr, min: i128, max: i128, bits: usize) -> (r: BoolExpr)
    ensures
        r@ == in_range(value@, min as int, max as int, bits),
{
    BoolExpr::Range { value, min, max, bits: Some(bits) }
}

/// The outcome of an operation on a state that yields a list of expressions.
pub open spec fn terms_step(r: Result<(Vec<SymExpr>, SymState), ExecError>) -> Result<
    (Seq<Term>, StateV),
    ExecError,
> {
    match r {
        Ok((v, s)) => Ok((terms_of(v@), s@)),
        Err(x) => Err(x),
    }
}

/// The outcome of an operation on a state that yields a value.
pub open spec fn value_step(r: Result<(SymValue, SymState), ExecError>) -> Result<
    (ValueV, StateV),
    ExecError,
> {
    match r {
        Ok((v, s)) => Ok((v@, s@)),
        Err(x) => Err(x),
    }
}

impl SymState {
    /// A fresh symbol. Back ends are responsible for range constraints that follow from its sort.
    pub fn fresh_sym(&mut self, hint: &str, ty: SymType) -> (r: Result<SymExpr, ExecError>)
        ensures
            match r {
                Ok(e) => old(self)@.fresh_var(hint@, ty) == Ok::<(Term, StateV), ExecError>(
                    (e@, final(self)@),
                ),
                Err(x) => old(self)@.fresh_var(hint@, ty) == Err::<(Term, StateV), ExecError>(x)
                    && final(self)@ == old(self)@,
            },
    {
        if self.fresh == usize::MAX {
            return Err(ExecError::FreshExhausted);
        }
        let name = numbered(hint, "_", self.fresh);
        self.fresh = self.fresh + 1;
        Ok(SymExpr::Var(name, ty))
    }

    /// Ensure a non-field expression is constrained to the canonical field range
    /// before assigning it into a field-typed destination.
    pub fn ensure_field_range(self, value: &SymExpr) -> (r: SymState)
        ensures
            r@ == self@.with_field_range(value@),
    {
        if let Some(SymType::F) = symexpr_sort(value) {
            return self;
        }
        let needed = match self.symexpr_range(value) {
            Some((lo, hi)) => lo < 0 || hi >= FIELD_MODULUS,
            None => true,
        };
        if needed {
            self.with_pc(range_cond(value.clone(), 0, FIELD_MODULUS - 1, 32))
        } else {
            self
        }
    }

    /// `n` fresh bits and the number that they stand for.
    pub(crate) fn fresh_bits(self, prefix: &str, n: usize) -> (r: Result<
        (Vec<SymExpr>, SymExpr, SymState),
        ExecError,
    >)
        requires
            n < 127,
        ensures
            match r {
                Ok((bits, acc, s)) => self@.bits_from(prefix@, 0, n as int, seq![], Term::Int(0))
                    == Ok::<(Seq<Term>, Term, StateV), ExecError>((terms_of(bits@), acc@, s@)),
                Err(x) => self@.bits_from(prefix@, 0, n as int, seq![], Term::Int(0)) == Err::<
                    (Seq<Term>, Term, StateV),
                    ExecError,
                >(x),
            },
    {
        let ghost start = self@;
        let mut s = self;
        let mut bits: Vec<SymExpr> = Vec::new();
        let mut acc = SymExpr::Int(0);
        #[verifier::loop_isolation(false)]
        for i in 0..n
            invariant
                start.bits_from(prefix@, 0, n as int, seq![], Term::Int(0)) == s@.bits_from(
                    prefix@,
                    i as int,
                    n as int,
                    terms_of(bits@),
                    acc@,
                ),
        {
            let bit = s.fresh_sym(numbered(prefix, "_", i).as_str(), SymType::Bool)?;
            let weight = SymExpr::Int(power_of_two(i));
            acc = add_terms(acc, SymExpr::times(bit.clone(), weight))?;
            s = s.with_pc(range_cond(bit.clone(), 0, 1, 1));
            bits.push(bit);
        }
        Ok((bits, acc, s))
    }

    /// Decompose a u32 value into Boolean bits, reusing prior decompositions of the same value.
    pub fn decompose_u32_bits_cached(self, value: SymExpr, prefix: &str) -> (r: Result<
        (Vec<SymExpr>, SymState),
        ExecError,
    >)
        ensures
            terms_step(r) == self@.bits_of(value@, prefix@),
    {
        let key = cache_key_for_expr(&value);
        let ghost cache = views(self.bit_decomp_cache@);
        #[verifier::loop_isolation(false)]
        for i in 0..self.bit_decomp_cache.len()
            invariant
                cached_bits(cache, 0, key@) == cached_bits(cache, i as int, key@),
        {
            proof {
                assert(cache[i as int] == self.bit_decomp_cache@[i as int]@);
            }
            if self.bit_decomp_cache[i].key.same_as(&key) {
                let bits = clone_terms(&self.bit_decomp_cache[i].bits);
                return Ok((bits, self));
            }
        }
        let (bits, acc, s) = self.fresh_bits(prefix, 32)?;
        let s = s.with_pc(range_cond(value.clone(), 0, 0xffff_ffff, 32));
        let mut s = s.with_pc(value.eq_to(acc));
        let ghost before = s.bit_decomp_cache@;
        let record = BitsRecord { key, bits: clone_terms(&bits) };
        s.bit_decomp_cache.push(record);
        proof {
            assert(views(s.bit_decomp_cache@) =~= views(before).push(record@));
        }
        Ok((bits, s))
    }

    /// Materialize a little-endian word decomposition for a u32 value with range constraints.
    fn attach_word_bytes(self, value: SymExpr, hint: &str) -> (r: Result<
        (Vec<SymExpr>, SymState),
        ExecError,
    >)
        ensures
            terms_step(r) == self@.word_of(value@, hint@),
    {
        let ghost start = self@;
        let mut s = self;
        let mut bytes: Vec<SymExpr> = Vec::new();
        #[verifier::loop_isolation(false)]
        for i in 0..WORD_BYTES
            invariant
                start.bytes_from(hint@, 0, seq![]) == s@.bytes_from(
                    hint@,
                    i as int,
                    terms_of(bytes@),
                ),
                bytes@.len() == i,
        {
            let b = s.fresh_sym(numbered(hint, "_b", i).as_str(), SymType::Uint(8))?;
            s = s.with_pc(range_cond(b.clone(), 0, 255, 8));
            s = s.with_pc(b.clone().ge(SymExpr::Int(0)));
            s = s.with_pc(b.clone().le(SymExpr::Int(255)));
            bytes.push(b);
        }
        let ghost bs = terms_of(bytes@);
        let mut i: usize = WORD_BYTES - 1;
        let mut acc = bytes[i].clone();
        proof {
            assert(bs.last() == bytes@[3]@);
        }
        #[verifier::loop_isolation(false)]
        while i > 0
            invariant
                i < bytes@.len(),
                little_endian(bs, bs.len() - 1, bs.last()) == little_endian(bs, i as int, acc@),
            decreases i,
        {
            proof {
                assert(bs[i - 1] == bytes@[i - 1]@);
            }
            acc = add_terms(bytes[i - 1].clone(), SymExpr::times(SymExpr::Int(256), acc))?;
            i = i - 1;
        }
        let s = s.with_pc(acc.eq_to(value));
        Ok((bytes, s))
    }

    /// Build a scalar value with an optional word-level view according to the symbolic sort.
    pub fn pack_scalar_with_symtype(self, value: SymExpr, sty: &SymType, hint: &str) -> (r: Result<
        (SymValue, SymState),
        ExecError,
    >)
        ensures
            value_step(r) == self@.packed(value@, *sty, hint@),
    {
        match *sty {
            SymType::F => {
                let s = self.ensure_field_range(&value);
                Ok((SymValue::plain(value), s))
            },
            SymType::Uint(w) => if w == 32 {
                let (bytes, s) = self.attach_word_bytes(value.clone(), hint)?;
                Ok((SymValue::with_word(value, bytes), s))
            } else {
                Ok((SymValue::plain(value), self))
            },
            _ => Ok((SymValue::plain(value), self)),
        }
    }

    /// Map an AST type to a symbolic scalar sort using Context's builtin mapping.
    /// Only builtin scalars are mappable; structs/arrays/functions are rejected.
    pub fn type_map(&self, ty: &Type) -> (r: Result<SymType, ExecError>)
        ensures
            r == match self@.ctx.sort_of(ty@) {
                Some(s) => Ok::<SymType, ExecError>(s),
                None => Err(ExecError::UnmappableType),
            },
    {
        match self.ctx.builtin_type_to_sym_type(ty) {
            Some(s) => Ok(s),
            None => Err(ExecError::UnmappableType),
        }
    }

    /// Build a scalar value with an optional word view from a concrete AST type.
    pub fn pack_scalar_for_type(self, value: SymExpr, ty: &Type, hint: &str) -> (r: Result<
        (SymValue, SymState),
        ExecError,
    >)
        ensures
            value_step(r) == self@.packed(value@, self@.sort_or_field(ty@), hint@),
    {
        let sty = match self.type_map(ty) {
            Ok(s) => s,
            Err(_) => SymType::F,
        };
        self.pack_scalar_with_symtype(value, &sty, hint)
    }

    /// Append a memory event to the trace and return the updated state.
    pub fn add_memory_event(
        self,
        kind: MemoryEventKind,
        clk: SymExpr,
        addr: SymExpr,
        value: SymExpr,
    ) -> (r: Self)
        ensures
            r@ == self@.with_event(kind, clk@, addr@, value@),
    {
        let mut s = self;
        let ghost before = s.memory_events@;
        let event = MemoryEvent { kind, clk, addr, value };
        s.memory_events.push(event);
        proof {
            assert(views(s.memory_events@) =~= views(before).push(event@));
        }
        s
    }

    /// View the accumulated memory trace.
    pub fn memory_trace(&self) -> (r: &[MemoryEvent])
        ensures
            views(r@) == self@.events,
    {
        self.memory_events.as_slice()
    }

    /// Look up a cached map read by base and keys.
    pub fn find_map_read(
        &self,
        base_id: Option<i64>,
        base_repr: &str,
        clk: &SymExpr,
        addr: &SymExpr,
    ) -> (r: Option<(SymExpr, SymExpr)>)
        ensures
            match r {
                Some((p, v)) => self@.map_read(base_id, base_repr@, clk@, addr@) == Some((p@, v@)),
                None => self@.map_read(base_id, base_repr@, clk@, addr@) is None,
            },
    {
        let clk_key = canonicalize_symexpr(clk);
        let addr_key = canonicalize_symexpr(addr);
        let ghost reads = views(self.map_reads@);
        #[verifier::loop_isolation(false)]
        for i in 0..self.map_reads.len()
            invariant
                cached_read(reads, 0, base_id, base_repr@, clk_key@, addr_key@) == cached_read(
                    reads,
                    i as int,
                    base_id,
                    base_repr@,
                    clk_key@,
                    addr_key@,
                ),
        {
            let m = &self.map_reads[i];
            proof {
                assert(reads[i as int] == m@);
            }
            if same_id(m.base_id, base_id) && same_text(m.base_repr.as_str(), base_repr)
                && m.clk_key.same_as(&clk_key) && m.addr_key.same_as(&addr_key) {
                return Some((m.clk_prev.clone(), m.value.clone()));
            }
        }
        None
    }

    /// Cache a new map read result.
    pub fn record_map_read(
        self,
        base_id: Option<i64>,
        base_repr: String,
        clk: SymExpr,
        addr: SymExpr,
        clk_prev: SymExpr,
        value: SymExpr,
    ) -> (r: Self)
        ensures
            r@ == self@.with_map_read(base_id, base_repr@, clk@, addr@, clk_prev@, value@),
    {
        let mut s = self;
        let ghost before = s.map_reads@;
        let clk_key = canonicalize_symexpr(&clk);
        let addr_key = canonicalize_symexpr(&addr);
        let m = MapReadRecord { base_id, base_repr, clk, addr, clk_prev, value, clk_key, addr_key };
        s.map_reads.push(m);
        proof {
            assert(views(s.map_reads@) =~= views(before).push(m@));
        }
        s
    }

    /// The key of a byte operation.
    pub fn byte_op_cache_key(op: &str, out: &SymExpr, lhs: &SymExpr, rhs: &SymExpr) -> (r: ByteOpKey)
        ensures
            r@ == byte_op(op@, out@, lhs@, rhs@),
    {
        ByteOpKey {
            op: op.to_string(),
            out: canonicalize_symexpr(out),
            lhs: canonicalize_symexpr(lhs),
            rhs: canonicalize_symexpr(rhs),
        }
    }

    /// Whether a byte operation has been constrained before.
    pub fn is_byte_op_cached(&self, key: &ByteOpKey) -> (r: bool)
        ensures
            r == self@.byte_ops.contains(key@),
    {
        for i in 0..self.byte_op_cache.len()
            invariant
                forall|j: int| 0 <= j < i ==> (#[trigger] self@.byte_ops[j]) != key@,
        {
            let k = &self.byte_op_cache[i];
            proof {
                assert(self@.byte_ops[i as int] == k@);
            }
            if same_text(k.op.as_str(), key.op.as_str()) && k.out.same_as(&key.out)
                && k.lhs.same_as(&key.lhs) && k.rhs.same_as(&key.rhs) {
                return true;
            }
        }
        false
    }

    /// Remember that a byte operation has been constrained.
    pub fn mark_byte_op_cached(self, key: ByteOpKey) -> (r: Self)
        ensures
            r@ == (StateV { byte_ops: self@.byte_ops.push(key@), ..self@ }),
    {
        let mut s = self;
        let ghost before = s.byte_op_cache@;
        s.byte_op_cache.push(key);
        proof {
            assert(views(s.byte_op_cache@) =~= views(before).push(key@));
        }
        s
    }
}

fn same_id(a: Option<i64>, b: Option<i64>) -> (r: bool)
    ensures
        r == (a == b),
{
    match (a, b) {
        (Some(x), Some(y)) => x == y,
        (None, None) => true,
        _ => false,
    }
}

} // verus!
