//! What operators and built-in functions do to symbolic values.

use vstd::arithmetic::power2::pow2;
use vstd::prelude::*;
use vstd::string::*;
use crate::ast::{BinOp, Expr, ExprV, exprs_of};
use crate::checker::symbolic::arith::{sub_fits, sub_term};
use crate::checker::symbolic::error::ExecError;
use crate::checker::symbolic::expr::{
    as_int_term, conj, disj, formulas_of, mod_field_term, terms_of, BoolExpr, Formula, SymExpr,
    SymType, Term, FIELD_MODULUS, WORD_BYTES,
};
use crate::checker::symbolic::meaning::{holds, product_value, value};
use crate::checker::symbolic::range::power_of_two;
use crate::checker::symbolic::results::{
    new_states, one_state, push_state, states_in, term_step, ValueStepV,
};
use crate::checker::symbolic::state::{StateV, SymState};
use crate::checker::symbolic::state_nodes::state_step;
use crate::checker::symbolic::state_ops::{
    add_terms, in_range, little_endian, numbered, plus, product, range_cond,
};
use crate::text::{decimal, same_text};
use crate::utils::SolverKind;

verus! {

broadcast use {
    crate::ast::lists::group_lists,
    crate::checker::symbolic::expr_lists::group_lists,
};

/// The interval of a sort and the number of bits that hold it.
#[verifier::opaque]
pub open spec fn bounds_of(sty: SymType) -> Option<(int, int, usize)> {
    match sty {
        SymType::Bool => Some((0, 1, 1)),
        SymType::Uint(w) => if 0 < w < 127 {
            Some((0, pow2(w as nat) - 1, w))
        } else {
            None
        },
        SymType::Int(w) => if 0 < w < 127 {
            Some((-pow2((w - 1) as nat), pow2((w - 1) as nat) - 1, w))
        } else {
            None
        },
        SymType::F => None,
    }
}

/// The interval of a sort and the number of bits that hold it.
pub fn sym_bounds(sty: &SymType) -> (r: Option<(i128, i128, usize)>)
    ensures
        match r {
            Some((lo, hi, w)) => bounds_of(*sty) == Some((lo as int, hi as int, w)),
            None => bounds_of(*sty) is None,
        },
{
    proof {
        reveal(bounds_of);
    }
    match *sty {
        SymType::Bool => Some((0, 1, 1)),
        SymType::Uint(w) => if w > 0 && w < 127 {
            Some((0, power_of_two(w) - 1, w))
        } else {
            None
        },
        SymType::Int(w) => if w > 0 && w < 127 {
            let half = power_of_two(w - 1);
            Some((-half, half - 1, w))
        } else {
            None
        },
        SymType::F => None,
    }
}

/// The truth of `t != 0`.
pub open spec fn nonzero(t: Term) -> Formula {
    Formula::Ne(t, Term::Int(0))
}

/// Both are nonzero.
pub open spec fn both_nonzero(a: Term, b: Term) -> Formula {
    conj(seq![nonzero(a), nonzero(b)])
}

/// At least one is nonzero.
pub open spec fn either_nonzero(a: Term, b: Term) -> Formula {
    disj(seq![nonzero(a), nonzero(b)])
}

/// The difference of two terms.
pub open spec fn minus(a: Term, b: Term) -> Result<Term, ExecError> {
    if sub_fits(a, b) {
        Ok(sub_term(a, b))
    } else {
        Err(ExecError::ConstantOverflow)
    }
}

impl StateV {
    /// A term reduced modulo the field prime, unless it is known to be reduced already.
    #[verifier::opaque]
    pub open spec fn reduced(self, t: Term) -> Term {
        match self.range(t) {
            Some((lo, hi)) => if lo >= 0 && hi < FIELD_MODULUS {
                t
            } else {
                mod_field_term(t)
            },
            None => mod_field_term(t),
        }
    }

    /// The value of a binary operation; arithmetic is modulo the field prime if `modded`.
    #[verifier::opaque]
    pub open spec fn combined(self, op: BinOp, modded: bool, a: Term, b: Term) -> Result<
        Term,
        ExecError,
    > {
        let raw = match op {
            BinOp::Add => plus(a, b),
            BinOp::Sub => minus(a, b),
            BinOp::Mul => Ok(product(a, b)),
            BinOp::BitAnd => Ok(as_int_term(both_nonzero(a, b))),
            BinOp::Eq => Ok(as_int_term(Formula::Eq(a, b))),
            BinOp::Ne => Ok(as_int_term(Formula::Ne(a, b))),
            BinOp::Lt => Ok(as_int_term(Formula::Lt(a, b))),
            BinOp::Le => Ok(as_int_term(Formula::Le(a, b))),
            BinOp::Gt => Ok(as_int_term(Formula::Gt(a, b))),
            BinOp::Ge => Ok(as_int_term(Formula::Ge(a, b))),
            BinOp::And => Ok(as_int_term(both_nonzero(a, b))),
            BinOp::Or => Ok(as_int_term(either_nonzero(a, b))),
        };
        match raw {
            Err(x) => Err(x),
            Ok(t) => Ok(
                if modded {
                    self.reduced(t)
                } else {
                    t
                },
            ),
        }
    }

    /// Whether an arithmetic operation is to be reduced modulo the field prime.
    #[verifier::opaque]
    pub open spec fn needs_mod(self, e: ExprV) -> Result<bool, ExecError> {
        match e {
            ExprV::Binary { op, lhs, rhs } => match op {
                BinOp::Add | BinOp::Sub | BinOp::Mul => match self.expr_type(e) {
                    Err(x) => Err(x),
                    Ok(None) => Ok(false),
                    Ok(Some(ty)) => if self.ctx.sort_of(ty) != Some(SymType::F) {
                        Ok(false)
                    } else if op != BinOp::Mul {
                        Ok(true)
                    } else {
                        match self.expr_type(*lhs) {
                            Err(x) => Err(x),
                            Ok(lt) => match self.expr_type(*rhs) {
                                Err(x) => Err(x),
                                Ok(rt) => match (lt, rt) {
                                    (Some(lt), Some(rt)) => match (
                                        self.ctx.sort_of(lt),
                                        self.ctx.sort_of(rt),
                                    ) {
                                        (Some(l), Some(r)) => Ok(!product_stays(l, r)),
                                        _ => Ok(true),
                                    },
                                    _ => Ok(true),
                                },
                            },
                        }
                    },
                },
                _ => Ok(false),
            },
            _ => Ok(false),
        }
    }
}

/// An upper bound on the absolute value of what a sort holds.
pub open spec fn max_abs(sty: SymType) -> Option<int> {
    match sty {
        SymType::Bool => Some(1),
        SymType::Uint(w) => if w >= 63 {
            None
        } else {
            Some(pow2(w as nat) - 1)
        },
        SymType::Int(w) => if w == 0 || w >= 62 {
            None
        } else {
            Some(pow2((w - 1) as nat) as int)
        },
        SymType::F => Some(FIELD_MODULUS - 1),
    }
}

/// The product of two sorts is bounded by the field prime.
pub open spec fn product_stays(l: SymType, r: SymType) -> bool {
    match (max_abs(l), max_abs(r)) {
        (Some(a), Some(b)) => a * b < FIELD_MODULUS,
        _ => false,
    }
}

/// The condition that a binary expression states.
#[verifier::opaque]
pub open spec fn condition(op: BinOp, l: Term, r: Term) -> Result<Formula, ExecError> {
    match (l, r) {
        (Term::Int(a), Term::Int(b)) => match op {
            BinOp::Eq => Ok(Formula::Bool(a == b)),
            BinOp::Ne => Ok(Formula::Bool(a != b)),
            BinOp::Lt => Ok(Formula::Bool(a < b)),
            BinOp::Le => Ok(Formula::Bool(a <= b)),
            BinOp::Gt => Ok(Formula::Bool(a > b)),
            BinOp::Ge => Ok(Formula::Bool(a >= b)),
            BinOp::And => Ok(Formula::Bool(a != 0 && b != 0)),
            BinOp::Or => Ok(Formula::Bool(a != 0 || b != 0)),
            _ => Err(ExecError::NonBooleanOperator),
        },
        _ => match op {
            BinOp::Eq => Ok(Formula::Eq(l, r)),
            BinOp::Ne => Ok(Formula::Ne(l, r)),
            BinOp::Lt => Ok(Formula::Lt(l, r)),
            BinOp::Le => Ok(Formula::Le(l, r)),
            BinOp::Gt => Ok(Formula::Gt(l, r)),
            BinOp::Ge => Ok(Formula::Ge(l, r)),
            BinOp::And => Ok(both_nonzero(l, r)),
            BinOp::Or => Ok(either_nonzero(l, r)),
            _ => Err(ExecError::NonBooleanOperator),
        },
    }
}

/// The position of the only Boolean variable among the factors from `i` on, given the one found
/// before.
pub open spec fn sole_bool(vs: Seq<Term>, i: int, found: Option<int>) -> Option<int>
    decreases vs.len() - i,
{
    if i < 0 || i >= vs.len() {
        found
    } else if vs[i] is Var && vs[i]->Var_1 == SymType::Bool {
        if found is Some {
            None
        } else {
            sole_bool(vs, i + 1, Some(i))
        }
    } else {
        sole_bool(vs, i + 1, found)
    }
}

/// A product of factors, without folding.
pub open spec fn bare_product(vs: Seq<Term>) -> Term {
    if vs.len() == 0 {
        Term::Int(1)
    } else if vs.len() == 1 {
        vs[0]
    } else {
        Term::Mul(vs)
    }
}

/// The product that an equation sets to zero.
pub open spec fn zero_product(cond: Formula) -> Option<Seq<Term>> {
    match cond {
        Formula::Eq(Term::Mul(vs), Term::Int(k)) => if k == 0 {
            Some(vs)
        } else {
            None
        },
        Formula::Eq(Term::Int(k), Term::Mul(vs)) => if k == 0 {
            Some(vs)
        } else {
            None
        },
        _ => None,
    }
}

/// The Boolean factor of a product that is set to zero, and the product of the others.
pub open spec fn bool_factor(cond: Formula) -> Option<(Term, Term)> {
    match zero_product(cond) {
        Some(vs) => match sole_bool(vs, 0, None) {
            Some(i) => Some((vs[i], bare_product(vs.remove(i)))),
            None => None,
        },
        None => None,
    }
}

impl StateV {
    /// The states in which a condition holds: two for `b * rest == 0` with a Boolean `b`, and
    /// one otherwise.
    #[verifier::opaque]
    pub open spec fn split(self, cond: Formula) -> Seq<StateV> {
        match bool_factor(cond) {
            Some((b, rest)) => seq![
                self.with_cond(Formula::Eq(b, Term::Int(0))),
                self.with_cond(Formula::Eq(b, Term::Int(1))).with_cond(
                    Formula::Eq(rest, Term::Int(0)),
                ),
            ],
            None => seq![self.with_cond(cond)],
        }
    }

    /// The state in which the bits from `i` on of `out` are the products of those of `l` and `r`.
    pub open spec fn with_bit_products(
        self,
        l: Seq<Term>,
        r: Seq<Term>,
        out: Seq<Term>,
        i: int,
    ) -> StateV
        decreases out.len() - i,
    {
        if i < 0 || i >= l.len() || i >= r.len() || i >= out.len() {
            self
        } else {
            self.with_cond(Formula::Eq(out[i], Term::Mul(seq![l[i], r[i]]))).with_bit_products(
                l,
                r,
                out,
                i + 1,
            )
        }
    }

    /// The state in which `out` is the bitwise conjunction of the bytes `l` and `r`.
    #[verifier::opaque]
    pub open spec fn with_byte_and(self, out: Term, l: Term, r: Term) -> Result<StateV, ExecError> {
        let s = self.with_cond(in_range(out, 0, 255, 8)).with_cond(in_range(l, 0, 255, 8)).with_cond(
            in_range(r, 0, 255, 8),
        );
        match s.bits_from("byte_and_l"@, 0, 8, seq![], Term::Int(0)) {
            Err(x) => Err(x),
            Ok((lb, la, s1)) => match s1.bits_from("byte_and_r"@, 0, 8, seq![], Term::Int(0)) {
                Err(x) => Err(x),
                Ok((rb, ra, s2)) => match s2.bits_from(
                    "byte_and_out"@,
                    0,
                    8,
                    seq![],
                    Term::Int(0),
                ) {
                    Err(x) => Err(x),
                    Ok((ob, oa, s3)) => Ok(
                        s3.with_bit_products(lb, rb, ob, 0).with_cond(Formula::Eq(l, la)).with_cond(
                            Formula::Eq(r, ra),
                        ).with_cond(Formula::Eq(out, oa)),
                    ),
                },
            },
        }
    }

    /// A fresh symbol that equals a term.
    pub open spec fn alias_of(self, hint: Seq<char>, ty: SymType, t: Term) -> Result<
        ValueStepV,
        ExecError,
    > {
        match self.fresh_var(hint, ty) {
            Err(x) => Err(x),
            Ok((v, s)) => Ok((v, s.with_cond(Formula::Eq(v, t)))),
        }
    }

    /// Fresh bytes from `i` up to the size of a word, behind `bytes`.
    pub open spec fn word_from(self, i: int, bytes: Seq<Term>) -> Result<
        (Seq<Term>, StateV),
        ExecError,
    >
        decreases WORD_BYTES - i,
    {
        if i < 0 || i >= WORD_BYTES {
            Ok((bytes, self))
        } else {
            match self.fresh_var("to_word"@ + "_b"@ + decimal(i as nat), SymType::Uint(8)) {
                Err(x) => Err(x),
                Ok((b, s)) => s.with_cond(Formula::Ge(b, Term::Int(0))).with_cond(
                    Formula::Le(b, Term::Int(255)),
                ).word_from(i + 1, bytes.push(b)),
            }
        }
    }

    /// A 32-bit value tied to four fresh bytes.
    #[verifier::opaque]
    pub open spec fn worded(self, t: Term) -> Result<ValueStepV, ExecError> {
        match self.word_from(0, seq![]) {
            Err(x) => Err(x),
            Ok((bytes, s)) => match little_endian(bytes, bytes.len() - 1, bytes.last()) {
                Err(x) => Err(x),
                Ok(acc) => Ok((t, s.with_cond(Formula::Eq(acc, t)))),
            },
        }
    }

    /// The sort of an expression, if it has a scalar type.
    pub open spec fn expr_sort(self, e: ExprV) -> Result<Option<SymType>, ExecError> {
        match self.expr_type(e) {
            Err(x) => Err(x),
            Ok(None) => Ok(None),
            Ok(Some(ty)) => Ok(self.ctx.sort_of(ty)),
        }
    }

    /// The value of a built-in function.
    #[verifier::opaque]
    pub open spec fn builtin_value(self, name: Seq<char>, args: Seq<ExprV>, vals: Seq<Term>) -> Result<
        ValueStepV,
        ExecError,
    > {
        if name == "to_field"@ {
            if vals.len() != 1 {
                Err(ExecError::BuiltinArity)
            } else {
                self.alias_of("to_field"@, SymType::F, vals[0])
            }
        } else if name == "to_u32"@ {
            if vals.len() != 1 || args.len() != 1 {
                Err(ExecError::BuiltinArity)
            } else {
                match self.expr_sort(args[0]) {
                    Err(x) => Err(x),
                    Ok(sty) => if self.ctx.config.kind == SolverKind::Cvc5Ff {
                        if sty == Some(SymType::Uint(8)) || sty == Some(SymType::Bool) || sty
                            == Some(SymType::F) {
                            Ok((vals[0], self))
                        } else {
                            Err(ExecError::CastNotAllowed)
                        }
                    } else {
                        self.alias_of("to_u32"@, SymType::Uint(32), vals[0])
                    },
                }
            }
        } else if name == "and"@ {
            if vals.len() != 2 {
                Err(ExecError::BuiltinArity)
            } else {
                match self.fresh_var("and"@, SymType::Uint(8)) {
                    Err(x) => Err(x),
                    Ok((v, s)) => match s.with_byte_and(v, vals[0], vals[1]) {
                        Err(x) => Err(x),
                        Ok(s2) => Ok((v, s2)),
                    },
                }
            }
        } else if name == "extract_bit_u32"@ {
            if vals.len() != 2 || args.len() != 2 {
                Err(ExecError::BuiltinArity)
            } else {
                match vals[1] {
                    Term::Int(k) => if 0 <= k < 32 {
                        match self.bits_of(vals[0], "extract_bit"@) {
                            Err(x) => Err(x),
                            Ok((bits, s)) => if k < bits.len() {
                                Ok((bits[k], s))
                            } else {
                                Err(ExecError::BitIndex)
                            },
                        }
                    } else {
                        Err(ExecError::BitIndex)
                    },
                    _ => Err(ExecError::BitIndex),
                }
            }
        } else if name == "from_u32"@ {
            if vals.len() != 1 {
                Err(ExecError::BuiltinArity)
            } else {
                self.alias_of("from_u32"@, SymType::F, vals[0])
            }
        } else if name == "to_word"@ {
            if vals.len() != 1 || args.len() != 1 {
                Err(ExecError::BuiltinArity)
            } else if !(args[0] is Path) {
                Err(ExecError::WordArgument)
            } else {
                match self.expr_sort(args[0]) {
                    Err(x) => Err(x),
                    Ok(sty) => if sty == Some(SymType::Uint(32)) {
                        self.worded(vals[0])
                    } else {
                        Err(ExecError::WordArgument)
                    },
                }
            }
        } else {
            Err(ExecError::UnsupportedBuiltin)
        }
    }

    /// A fresh inverse of a field element; zero has any.
    #[verifier::opaque]
    pub open spec fn inverse_of(self, t: Term) -> Result<ValueStepV, ExecError> {
        match self.fresh_var("inverse"@, SymType::F) {
            Err(x) => Err(x),
            Ok((inv, s)) => Ok(
                (
                    inv,
                    s.with_cond(
                        disj(
                            seq![
                                Formula::Eq(t, Term::Int(0)),
                                Formula::Eq(mod_field_term(product(t, inv)), Term::Int(1)),
                            ],
                        ),
                    ),
                ),
            ),
        }
    }
}

proof fn lemma_sole_bool(vs: Seq<Term>, i: int, found: Option<int>)
    requires
        0 <= i <= vs.len(),
        found is Some ==> 0 <= found->0 < vs.len(),
    ensures
        sole_bool(vs, i, found) is Some ==> 0 <= sole_bool(vs, i, found)->0 < vs.len(),
    decreases vs.len() - i,
{
    if i < vs.len() {
        if vs[i] is Var && vs[i]->Var_1 == SymType::Bool {
            lemma_sole_bool(vs, i + 1, Some(i));
        } else {
            lemma_sole_bool(vs, i + 1, found);
        }
    }
}

/// Splitting a constraint on its Boolean factor loses no solution and adds none: where the factor
/// is 0 or 1, the constraint holds iff one of the two sides does.
pub proof fn split_covers(cond: Formula, env: spec_fn(Seq<char>) -> int)
    requires
        bool_factor(cond) is Some,
        ({
            let (b, rest) = bool_factor(cond)->0;
            value(b, env) == 0 || value(b, env) == 1
        }),
    ensures
        ({
            let (b, rest) = bool_factor(cond)->0;
            holds(cond, env) == (holds(Formula::Eq(b, Term::Int(0)), env) || (holds(
                Formula::Eq(b, Term::Int(1)),
                env,
            ) && holds(Formula::Eq(rest, Term::Int(0)), env)))
        }),
{
    let vs = zero_product(cond)->0;
    lemma_sole_bool(vs, 0, None);
    let i = sole_bool(vs, 0, None)->0;
    let before = vs.take(i);
    let after = vs.skip(i + 1);
    let b = vs[i];
    let rest = vs.remove(i);
    assert(vs =~= before + (seq![b] + after));
    assert(rest =~= before + after);
    crate::checker::symbolic::meaning::lemma_product_concat(before, seq![b] + after, env);
    crate::checker::symbolic::meaning::lemma_product_concat(seq![b], after, env);
    crate::checker::symbolic::meaning::lemma_product_concat(before, after, env);
    crate::checker::symbolic::meaning::lemma_single(b, cond, env);
    let x = product_value(before, env);
    let y = product_value(after, env);
    let z = value(b, env);
    assert(x * (z * y) == z * (x * y)) by (nonlinear_arith);
    assert(product_value(vs, env) == z * product_value(rest, env));
    assert(z == 0 ==> z * product_value(rest, env) == 0) by (nonlinear_arith);
    assert(value(Term::Mul(vs), env) == product_value(vs, env));
    assert(value(bare_product(rest), env) == product_value(rest, env)) by {
        if rest.len() == 1 {
            assert(rest =~= seq![rest[0]]);
            crate::checker::symbolic::meaning::lemma_single(rest[0], cond, env);
        } else {
            assert(value(Term::Mul(rest), env) == product_value(rest, env));
        }
    }
    assert(value(Term::Int(0), env) == 0);
    assert(value(Term::Int(1), env) == 1);
}

/// Whether a name is that of a built-in function.
pub open spec fn is_builtin_function(name: Seq<char>) -> bool {
    name == "to_field"@ || name == "to_u32"@ || name == "to_word"@ || name == "and"@ || name
        == "extract_bit_u32"@ || name == "from_u32"@
}

/// Whether a name is that of a built-in function.
pub fn builtin_function(name: &str) -> (r: bool)
    ensures
        r == is_builtin_function(name@),
{
    same_text(name, "to_field") || same_text(name, "to_u32") || same_text(name, "to_word")
        || same_text(name, "and") || same_text(name, "extract_bit_u32") || same_text(
        name,
        "from_u32",
    )
}

fn pair(a: BoolExpr, b: BoolExpr) -> (r: Vec<BoolExpr>)
    ensures
        formulas_of(r@) == seq![a@, b@],
{
    let mut v: Vec<BoolExpr> = Vec::new();
    v.push(a);
    v.push(b);
    proof {
        assert(formulas_of(v@) =~= seq![a@, b@]);
    }
    v
}

fn nonzero_pair(a: SymExpr, b: SymExpr) -> (r: Vec<BoolExpr>)
    ensures
        formulas_of(r@) == seq![nonzero(a@), nonzero(b@)],
{
    pair(a.ne(SymExpr::Int(0)), b.ne(SymExpr::Int(0)))
}

/// The condition that one of two formulas holds.
pub(crate) fn either(a: BoolExpr, b: BoolExpr) -> (r: BoolExpr)
    ensures
        r@ == disj(seq![a@, b@]),
{
    BoolExpr::or(pair(a, b))
}

/// The 0/1 value of `a & b` on truth values.
pub(crate) fn both_as_int(a: SymExpr, b: SymExpr) -> (r: SymExpr)
    ensures
        r@ == as_int_term(both_nonzero(a@, b@)),
{
    BoolExpr::and(nonzero_pair(a, b)).as_int()
}

/// Drop a field modulus reduction when the inferred range already lies inside the field.
pub fn mod_if_needed(expr: SymExpr, state: &SymState) -> (r: SymExpr)
    ensures
        r@ == state@.reduced(expr@),
{
    proof {
        reveal(StateV::reduced);
    }
    if let Some((lo, hi)) = state.symexpr_range(&expr) {
        if lo >= 0 && hi < FIELD_MODULUS {
            return expr;
        }
    }
    expr.mod_field()
}

/// The value of a binary operation.
pub fn combine(op: BinOp, modded: bool, a: SymExpr, b: SymExpr, state: &SymState) -> (r: Result<
    SymExpr,
    ExecError,
>)
    ensures
        crate::view::ok_view(r) == state@.combined(op, modded, a@, b@),
{
    proof {
        reveal(StateV::combined);
    }
    let raw = match op {
        BinOp::Add => add_terms(a, b)?,
        BinOp::Sub => match SymExpr::try_sub(a, b) {
            Some(e) => e,
            None => return Err(ExecError::ConstantOverflow),
        },
        BinOp::Mul => SymExpr::times(a, b),
        BinOp::BitAnd | BinOp::And => both_as_int(a, b),
        BinOp::Eq => a.eq_to(b).as_int(),
        BinOp::Ne => a.ne(b).as_int(),
        BinOp::Lt => a.lt(b).as_int(),
        BinOp::Le => a.le(b).as_int(),
        BinOp::Gt => a.gt(b).as_int(),
        BinOp::Ge => a.ge(b).as_int(),
        BinOp::Or => BoolExpr::or(nonzero_pair(a, b)).as_int(),
    };
    Ok(
        if modded {
            mod_if_needed(raw, state)
        } else {
            raw
        },
    )
}

/// An upper bound on the absolute value of what a sort holds.
pub fn symtype_max_abs(sty: &SymType) -> (r: Option<i128>)
    ensures
        match r {
            Some(k) => max_abs(*sty) == Some(k as int) && 0 <= k < 0x8000_0000_0000_0000,
            None => max_abs(*sty) is None,
        },
{
    proof {
        vstd::arithmetic::power2::lemma2_to64();
        vstd::arithmetic::power2::lemma2_to64_rest();
    }
    match *sty {
        SymType::Bool => Some(1),
        SymType::Uint(w) => if w >= 63 {
            None
        } else {
            proof {
                vstd::arithmetic::power2::lemma_pow2_strictly_increases(w as nat, 63);
            }
            Some(power_of_two(w) - 1)
        },
        SymType::Int(w) => if w == 0 || w >= 62 {
            None
        } else {
            proof {
                vstd::arithmetic::power2::lemma_pow2_strictly_increases((w - 1) as nat, 63);
            }
            Some(power_of_two(w - 1))
        },
        SymType::F => Some(FIELD_MODULUS - 1),
    }
}

/// Returns true if lhs * rhs cannot overflow the field range [0, p).
pub fn product_safe_without_mod(lhs: &SymType, rhs: &SymType) -> (r: bool)
    ensures
        r == product_stays(*lhs, *rhs),
{
    match (symtype_max_abs(lhs), symtype_max_abs(rhs)) {
        (Some(a), Some(b)) => {
            proof {
                assert(0 <= a * b < 0x4000_0000_0000_0000_0000_0000_0000_0000) by (nonlinear_arith)
                    requires
                        0 <= a < 0x8000_0000_0000_0000,
                        0 <= b < 0x8000_0000_0000_0000,
                ;
            }
            a * b < FIELD_MODULUS
        },
        _ => false,
    }
}

/// Whether an arithmetic operation is to be reduced modulo the field prime.
pub fn uses_mod(state: &SymState, e: &Expr) -> (r: Result<bool, ExecError>)
    ensures
        r == state@.needs_mod(e@),
{
    proof {
        reveal(StateV::needs_mod);
    }
    match e {
        Expr::Binary { op, lhs, rhs } => match *op {
            BinOp::Add | BinOp::Sub => state.is_field_expr(e),
            BinOp::Mul => {
                if !state.is_field_expr(e)? {
                    return Ok(false);
                }
                let lt = state.infer_expr_type(lhs)?;
                let rt = state.infer_expr_type(rhs)?;
                match (lt, rt) {
                    (Some(lt), Some(rt)) => match (
                        state.ctx.builtin_type_to_sym_type(&lt),
                        state.ctx.builtin_type_to_sym_type(&rt),
                    ) {
                        (Some(l), Some(r)) => Ok(!product_safe_without_mod(&l, &r)),
                        _ => Ok(true),
                    },
                    _ => Ok(true),
                }
            },
            _ => Ok(false),
        },
        _ => Ok(false),
    }
}

/// The condition that a comparison or a logical operation states.
pub fn condition_of(op: BinOp, lv: SymExpr, rv: SymExpr) -> (r: Result<BoolExpr, ExecError>)
    ensures
        crate::view::ok_view(r) == condition(op, lv@, rv@),
{
    proof {
        reveal(condition);
    }
    if let (SymExpr::Int(a), SymExpr::Int(b)) = (&lv, &rv) {
        let truth = match op {
            BinOp::Eq => *a == *b,
            BinOp::Ne => *a != *b,
            BinOp::Lt => *a < *b,
            BinOp::Le => *a <= *b,
            BinOp::Gt => *a > *b,
            BinOp::Ge => *a >= *b,
            BinOp::And => *a != 0 && *b != 0,
            BinOp::Or => *a != 0 || *b != 0,
            _ => return Err(ExecError::NonBooleanOperator),
        };
        return Ok(BoolExpr::Bool(truth));
    }
    match op {
        BinOp::Eq => Ok(lv.eq_to(rv)),
        BinOp::Ne => Ok(lv.ne(rv)),
        BinOp::Lt => Ok(lv.lt(rv)),
        BinOp::Le => Ok(lv.le(rv)),
        BinOp::Gt => Ok(lv.gt(rv)),
        BinOp::Ge => Ok(lv.ge(rv)),
        BinOp::And => Ok(BoolExpr::and(nonzero_pair(lv, rv))),
        BinOp::Or => Ok(BoolExpr::or(nonzero_pair(lv, rv))),
        _ => Err(ExecError::NonBooleanOperator),
    }
}

fn sole_bool_at(vs: &Vec<SymExpr>) -> (r: Option<usize>)
    ensures
        match r {
            Some(i) => i < vs@.len() && sole_bool(terms_of(vs@), 0, None) == Some(i as int),
            None => sole_bool(terms_of(vs@), 0, None) is None,
        },
{
    let ghost ts = terms_of(vs@);
    let mut found: Option<usize> = None;
    #[verifier::loop_isolation(false)]
    for i in 0..vs.len()
        invariant
            found is Some ==> found->0 < i,
            sole_bool(ts, 0, None) == sole_bool(
                ts,
                i as int,
                match found {
                    Some(k) => Some(k as int),
                    None => None,
                },
            ),
    {
        proof {
            assert(ts[i as int] == vs@[i as int]@);
        }
        if let SymExpr::Var(_, SymType::Bool) = &vs[i] {
            if found.is_some() {
                return None;
            }
            found = Some(i);
        }
    }
    found
}

fn factor_out(vs: Vec<SymExpr>) -> (r: Option<(SymExpr, SymExpr)>)
    ensures
        match r {
            Some((b, rest)) => sole_bool(terms_of(vs@), 0, None) is Some && ({
                let i = sole_bool(terms_of(vs@), 0, None)->0;
                b@ == terms_of(vs@)[i] && rest@ == bare_product(terms_of(vs@).remove(i))
            }),
            None => sole_bool(terms_of(vs@), 0, None) is None,
        },
{
    let i = match sole_bool_at(&vs) {
        Some(i) => i,
        None => return None,
    };
    let ghost ts = terms_of(vs@);
    let mut rest = vs;
    let b = rest.remove(i);
    proof {
        assert(terms_of(rest@) =~= ts.remove(i as int));
        assert(ts[i as int] == b@);
    }
    let product = if rest.len() == 0 {
        SymExpr::Int(1)
    } else if rest.len() == 1 {
        proof {
            assert(terms_of(rest@)[0] == rest@[0]@);
        }
        rest[0].clone()
    } else {
        SymExpr::Mul(rest)
    };
    Some((b, product))
}

fn extract_bool_factor(cond: &BoolExpr) -> (r: Option<(SymExpr, SymExpr)>)
    ensures
        match r {
            Some((b, rest)) => bool_factor(cond@) == Some((b@, rest@)),
            None => bool_factor(cond@) is None,
        },
{
    match cond {
        BoolExpr::Eq(lhs, rhs) => {
            proof {
                assert(lhs@ == crate::checker::symbolic::expr::term_of(*lhs));
                assert(rhs@ == crate::checker::symbolic::expr::term_of(*rhs));
            }
            match (lhs, rhs) {
                (SymExpr::Mul(vs), SymExpr::Int(k)) => if *k == 0 {
                    factor_out(crate::checker::symbolic::expr::clone_terms(vs))
                } else {
                    None
                },
                (SymExpr::Int(k), SymExpr::Mul(vs)) => if *k == 0 {
                    factor_out(crate::checker::symbolic::expr::clone_terms(vs))
                } else {
                    None
                },
                _ => None,
            }
        },
        _ => None,
    }
}

/// Splits on constraints of the form b * rest == 0 with a single Bool factor.
pub fn split_on_bool_mul_eq_zero(state: SymState, cond: BoolExpr) -> (r: im::Vector<SymState>)
    ensures
        states_in(r) == state@.split(cond@),
{
    proof {
        reveal(StateV::split);
    }
    if let Some((b, rest)) = extract_bool_factor(&cond) {
        let mut out = new_states();
        let s1 = state.clone().with_pc(b.clone().eq_to(SymExpr::Int(0)));
        push_state(&mut out, s1);
        let s2 = state.with_pc(b.eq_to(SymExpr::Int(1)));
        let s2 = s2.with_pc(rest.eq_to(SymExpr::Int(0)));
        push_state(&mut out, s2);
        return out;
    }
    one_state(state.with_pc(cond))
}

fn link_bits(
    state: SymState,
    lb: &Vec<SymExpr>,
    rb: &Vec<SymExpr>,
    ob: &Vec<SymExpr>,
) -> (out: SymState)
    ensures
        out@ == state@.with_bit_products(terms_of(lb@), terms_of(rb@), terms_of(ob@), 0),
{
    let ghost l = terms_of(lb@);
    let ghost r = terms_of(rb@);
    let ghost o = terms_of(ob@);
    let ghost start = state@;
    let mut s = state;
    let mut i: usize = 0;
    #[verifier::loop_isolation(false)]
    while i < lb.len() && i < rb.len() && i < ob.len()
        invariant
            start.with_bit_products(l, r, o, 0) == s@.with_bit_products(l, r, o, i as int),
        decreases ob@.len() - i,
    {
        let mut factors: Vec<SymExpr> = Vec::new();
        factors.push(lb[i].clone());
        factors.push(rb[i].clone());
        proof {
            assert(l[i as int] == lb@[i as int]@);
            assert(r[i as int] == rb@[i as int]@);
            assert(o[i as int] == ob@[i as int]@);
            assert(terms_of(factors@) =~= seq![l[i as int], r[i as int]]);
        }
        s = s.with_pc(ob[i].clone().eq_to(SymExpr::Mul(factors)));
        i = i + 1;
    }
    s
}

/// Constrain `out = lhs AND rhs` over 8-bit values via bit decomposition.
pub fn constrain_byte_and(state: SymState, out: SymExpr, lhs: SymExpr, rhs: SymExpr) -> (r: Result<
    SymState,
    ExecError,
>)
    ensures
        state_step(r) == state@.with_byte_and(out@, lhs@, rhs@),
{
    proof {
        reveal(StateV::with_byte_and);
    }
    let s = state.with_pc(range_cond(out.clone(), 0, 255, 8));
    let s = s.with_pc(range_cond(lhs.clone(), 0, 255, 8));
    let s = s.with_pc(range_cond(rhs.clone(), 0, 255, 8));
    let (lb, la, s) = s.fresh_bits("byte_and_l", 8)?;
    let (rb, ra, s) = s.fresh_bits("byte_and_r", 8)?;
    let (ob, oa, s) = s.fresh_bits("byte_and_out", 8)?;
    let s = link_bits(s, &lb, &rb, &ob);
    let s = s.with_pc(lhs.eq_to(la));
    let s = s.with_pc(rhs.eq_to(ra));
    Ok(s.with_pc(out.eq_to(oa)))
}

fn fresh_alias(state: SymState, hint: &str, ty: SymType, src: SymExpr) -> (r: Result<
    (SymExpr, SymState),
    ExecError,
>)
    ensures
        term_step(r) == state@.alias_of(hint@, ty, src@),
{
    let mut s = state;
    let res = s.fresh_sym(hint, ty)?;
    let s = s.with_pc(res.clone().eq_to(src));
    Ok((res, s))
}

fn fresh_word(state: SymState, src: SymExpr) -> (r: Result<(SymExpr, SymState), ExecError>)
    ensures
        term_step(r) == state@.worded(src@),
{
    proof {
        reveal(StateV::worded);
    }
    let ghost start = state@;
    let mut s = state;
    let mut bytes: Vec<SymExpr> = Vec::new();
    #[verifier::loop_isolation(false)]
    for i in 0..WORD_BYTES
        invariant
            start.word_from(0, seq![]) == s@.word_from(i as int, terms_of(bytes@)),
            bytes@.len() == i,
    {
        let b = s.fresh_sym(numbered("to_word", "_b", i).as_str(), SymType::Uint(8))?;
        s = s.with_pc(b.clone().ge(SymExpr::Int(0)));
        s = s.with_pc(b.clone().le(SymExpr::Int(255)));
        bytes.push(b);
    }
    let ghost bs = terms_of(bytes@);
    let mut i: usize = WORD_BYTES - 1;
    let mut acc = bytes[i].clone();
    proof {
        assert(bs.last() == bytes@[3]@);
    }
    #[verifier::loop_isolation(false)]
    while i > 0
        invariant
            i < bytes@.len(),
            little_endian(bs, bs.len() - 1, bs.last()) == little_endian(bs, i as int, acc@),
        decreases i,
    {
        proof {
            assert(bs[i - 1] == bytes@[i - 1]@);
        }
        acc = add_terms(bytes[i - 1].clone(), SymExpr::times(SymExpr::Int(256), acc))?;
        i = i - 1;
    }
    let s = s.with_pc(acc.eq_to(src.clone()));
    Ok((src, s))
}

fn sort_of_expr(state: &SymState, e: &Expr) -> (r: Result<Option<SymType>, ExecError>)
    ensures
        r == state@.expr_sort(e@),
{
    match state.infer_expr_type(e)? {
        None => Ok(None),
        Some(ty) => Ok(state.ctx.builtin_type_to_sym_type(&ty)),
    }
}

fn to_u32_value(state: SymState, arg: &Expr, src: SymExpr) -> (r: Result<
    (SymExpr, SymState),
    ExecError,
>)
    ensures
        term_step(r) == state@.builtin_value("to_u32"@, seq![arg@], seq![src@]),
{
    proof {
        reveal(StateV::builtin_value);
    }
    proof {
        reveal_strlit("to_u32");
        reveal_strlit("to_field");
        assert("to_u32"@.len() != "to_field"@.len());
    }
    let sty = sort_of_expr(&state, arg)?;
    if let SolverKind::Cvc5Ff = state.ctx.solver_kind() {
        let allowed = match sty {
            Some(SymType::Uint(w)) => w == 8,
            Some(SymType::Bool) | Some(SymType::F) => true,
            _ => false,
        };
        if allowed {
            Ok((src, state))
        } else {
            Err(ExecError::CastNotAllowed)
        }
    } else {
        fresh_alias(state, "to_u32", SymType::Uint(32), src)
    }
}

fn extract_bit(state: SymState, src: SymExpr, idx: &SymExpr) -> (r: Result<
    (SymExpr, SymState),
    ExecError,
>)
    ensures
        term_step(r) == match idx@ {
            Term::Int(k) => if 0 <= k < 32 {
                match state@.bits_of(src@, "extract_bit"@) {
                    Err(x) => Err(x),
                    Ok((bits, s)) => if k < bits.len() {
                        Ok((bits[k], s))
                    } else {
                        Err(ExecError::BitIndex)
                    },
                }
            } else {
                Err(ExecError::BitIndex)
            },
            _ => Err(ExecError::BitIndex),
        },
{
    let k = match idx {
        SymExpr::Int(k) => *k,
        _ => return Err(ExecError::BitIndex),
    };
    if k < 0 || k >= 32 {
        return Err(ExecError::BitIndex);
    }
    let at: usize = k as usize;
    let (bits, s) = state.decompose_u32_bits_cached(src, "extract_bit")?;
    if at >= bits.len() {
        return Err(ExecError::BitIndex);
    }
    proof {
        assert(terms_of(bits@)[at as int] == bits@[at as int]@);
    }
    Ok((bits[at].clone(), s))
}

/// Evaluate a built-in function on the values of its arguments.
pub fn eval_builtin_free_fn_call(
    state: SymState,
    name: &str,
    orig_args: &Vec<Expr>,
    arg_vals: &Vec<SymExpr>,
) -> (r: Result<(SymExpr, SymState), ExecError>)
    ensures
        term_step(r) == state@.builtin_value(name@, exprs_of(orig_args@), terms_of(arg_vals@)),
{
    proof {
        reveal(StateV::builtin_value);
    }
    let ghost es = exprs_of(orig_args@);
    let ghost ts = terms_of(arg_vals@);
    proof {
        assert(orig_args@.len() > 0 ==> es[0] == orig_args@[0]@);
        assert(arg_vals@.len() > 0 ==> ts[0] == arg_vals@[0]@);
        assert(arg_vals@.len() > 1 ==> ts[1] == arg_vals@[1]@);
    }
    if same_text(name, "to_field") {
        if arg_vals.len() != 1 {
            return Err(ExecError::BuiltinArity);
        }
        fresh_alias(state, "to_field", SymType::F, arg_vals[0].clone())
    } else if same_text(name, "to_u32") {
        if arg_vals.len() != 1 || orig_args.len() != 1 {
            return Err(ExecError::BuiltinArity);
        }
        proof {
            assert(es =~= seq![orig_args@[0]@]);
            assert(ts =~= seq![arg_vals@[0]@]);
        }
        to_u32_value(state, &orig_args[0], arg_vals[0].clone())
    } else if same_text(name, "and") {
        if arg_vals.len() != 2 {
            return Err(ExecError::BuiltinArity);
        }
        let mut s = state;
        let res = s.fresh_sym("and", SymType::Uint(8))?;
        let s = constrain_byte_and(s, res.clone(), arg_vals[0].clone(), arg_vals[1].clone())?;
        Ok((res, s))
    } else if same_text(name, "extract_bit_u32") {
        if arg_vals.len() != 2 || orig_args.len() != 2 {
            return Err(ExecError::BuiltinArity);
        }
        extract_bit(state, arg_vals[0].clone(), &arg_vals[1])
    } else if same_text(name, "from_u32") {
        if arg_vals.len() != 1 {
            return Err(ExecError::BuiltinArity);
        }
        fresh_alias(state, "from_u32", SymType::F, arg_vals[0].clone())
    } else if same_text(name, "to_word") {
        if arg_vals.len() != 1 || orig_args.len() != 1 {
            return Err(ExecError::BuiltinArity);
        }
        match &orig_args[0] {
            Expr::Path { .. } => {},
            _ => return Err(ExecError::WordArgument),
        }
        match sort_of_expr(&state, &orig_args[0])? {
            Some(SymType::Uint(w)) => if w == 32 {
                fresh_word(state, arg_vals[0].clone())
            } else {
                Err(ExecError::WordArgument)
            },
            _ => Err(ExecError::WordArgument),
        }
    } else {
        Err(ExecError::UnsupportedBuiltin)
    }
}

/// A fresh inverse of a field element.
pub fn fresh_inverse(state: SymState, recv: SymExpr) -> (r: Result<(SymExpr, SymState), ExecError>)
    ensures
        term_step(r) == state@.inverse_of(recv@),
{
    proof {
        reveal(StateV::inverse_of);
    }
    let mut s = state;
    let inv = s.fresh_sym("inverse", SymType::F)?;
    let is_zero = recv.clone().eq_to(SymExpr::Int(0));
    let times = SymExpr::times(recv, inv.clone()).mod_field();
    let is_one = times.eq_to(SymExpr::Int(1));
    let s = s.with_pc(either(is_zero, is_one));
    Ok((inv, s))
}

} // verus!
