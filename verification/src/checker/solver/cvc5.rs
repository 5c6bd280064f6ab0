//! The cvc5 back end: finite-field arithmetic.
//!
//! A formula is written as an SMT-LIB script over the logic `QF_FF`. Numbers and truth values are
//! field elements; ranges are expressed by Boolean bits.

use vstd::arithmetic::power2::pow2;
use vstd::prelude::*;
use vstd::string::*;
use crate::checker::solver::SolveError;
use crate::checker::symbolic::expr::{
    formulas_of, terms_of, BoolExpr, Formula, SymExpr, SymType, Term,
};
use crate::checker::symbolic::range::power_of_two;
use crate::name_map::{map_of, set_pair, NameMap};
use crate::text::{
    decimal, decimal_int, joined, join_text, push_int, push_nat, same_text, texts, trimmed,
    trimmed_text,
};

verus! {

broadcast use crate::checker::symbolic::expr_lists::group_lists;

/// The greatest width that is decomposed into bytes.
pub const MAX_RANGE_BITS: usize = 24;

/// cvc5 backend using QF_FF for field constraints.
#[derive(Debug)]
pub struct Cvc5ffBackend {
    field_modulus: i128,
    vars: NameMap<SymType>,
    asserts: Vec<String>,
    range_fresh: usize,
    /// Track range hints (in bits) for encoded terms, to reuse on order constraints.
    range_hints: NameMap<usize>,
}

/// Mathematical model of [`Cvc5ffBackend`].
pub struct Cvc5V {
    pub modulus: int,
    pub vars: Seq<(Seq<char>, SymType)>,
    pub asserts: Seq<Seq<char>>,
    pub fresh: usize,
    pub hints: Map<Seq<char>, usize>,
}

impl View for Cvc5ffBackend {
    type V = Cvc5V;

    closed spec fn view(&self) -> Cvc5V {
        Cvc5V {
            modulus: self.field_modulus as int,
            vars: self.vars.pairs(),
            asserts: texts(self.asserts@),
            fresh: self.range_fresh,
            hints: self.range_hints@,
        }
    }
}

/// An order relation.
#[derive(Clone, Copy, Debug, PartialEq, Eq, Structural)]
pub enum Order {
    Lt,
    Le,
    Gt,
    Ge,
}

/// Two sorts that a variable may be used with: numbers and field elements mix, truth values do
/// not.
pub open spec fn compatible(prev: SymType, sort: SymType) -> bool {
    match (prev, sort) {
        (SymType::Bool, SymType::Bool) => true,
        (SymType::F, SymType::Bool) => false,
        (SymType::F, _) => true,
        (SymType::Uint(_), SymType::F) => true,
        (SymType::Uint(_), SymType::Uint(_)) => true,
        (SymType::Int(_), SymType::F) => true,
        (SymType::Int(_), SymType::Int(_)) => true,
        _ => false,
    }
}

/// A field constant.
pub open spec fn field_const(k: int) -> Seq<char> {
    "(as ff"@ + decimal_int(k) + " F)"@
}

/// The condition that a variable is a bit.
pub open spec fn bit_condition(name: Seq<char>) -> Seq<char> {
    "(or (= "@ + name + " (as ff0 F)) (= "@ + name + " (as ff1 F)))"@
}

/// An operator applied to a text.
pub open spec fn applied(op: Seq<char>, a: Seq<char>) -> Seq<char> {
    "("@ + op + " "@ + a + ")"@
}

/// An operator applied to two texts.
pub open spec fn applied_two(op: Seq<char>, a: Seq<char>, b: Seq<char>) -> Seq<char> {
    "("@ + op + " "@ + a + " "@ + b + ")"@
}

/// A conditional.
pub open spec fn conditional(c: Seq<char>, a: Seq<char>, b: Seq<char>) -> Seq<char> {
    "(ite "@ + c + " "@ + a + " "@ + b + ")"@
}

/// An operator applied to a list; a single operand stands for itself.
pub open spec fn gathered(op: Seq<char>, parts: Seq<Seq<char>>) -> Seq<char> {
    if parts.len() == 1 {
        parts[0]
    } else {
        applied(op, joined(parts, " "@))
    }
}

/// A multiple of a text.
pub open spec fn scaled(k: int, a: Seq<char>) -> Seq<char> {
    applied_two("ff.mul"@, field_const(k), a)
}

/// The difference of a text and a constant.
pub open spec fn offset(a: Seq<char>, k: int) -> Seq<char> {
    applied_two("ff.add"@, a, applied("ff.neg"@, field_const(k)))
}

/// The difference of a constant and a text.
pub open spec fn remainder_to(k: int, a: Seq<char>) -> Seq<char> {
    applied_two("ff.add"@, field_const(k), applied("ff.neg"@, a))
}

/// The name of a bit of a decomposition.
pub open spec fn bit_name(id: int, i: int, j: int) -> Seq<char> {
    "__range_b"@ + decimal(id as nat) + "_"@ + decimal(i as nat) + "_"@ + decimal(j as nat)
}

/// The number of binary digits.
pub open spec fn digits(x: int) -> int
    decreases x,
{
    if x <= 0 {
        0
    } else {
        1 + digits(x / 2)
    }
}

/// The least width, at least one, of which there are `x` numbers.
pub open spec fn width_of(x: int) -> int {
    if x <= 2 {
        1
    } else {
        digits(x - 1)
    }
}

/// The greatest number of a width; hints are never wider than [`MAX_RANGE_BITS`].
pub open spec fn hint_max(h: usize) -> int {
    pow2(
        if h < MAX_RANGE_BITS {
            h as nat
        } else {
            MAX_RANGE_BITS as nat
        },
    ) - 1
}

/// The numbers that a comparison leaves: all, none, those within a width above a start, or those
/// within a width both above zero and below a bound.
#[derive(Clone, Copy, Debug, PartialEq, Eq, Structural)]
pub enum OrderPlan {
    Always,
    Never,
    Within { start: i128, bits: usize },
    Between { bound: i128, bits: usize },
}

/// Limits a width to what can be decomposed.
pub open spec fn limited(bits: int) -> int {
    if bits > MAX_RANGE_BITS {
        MAX_RANGE_BITS as int
    } else if bits < 1 {
        1
    } else {
        bits
    }
}

/// The width of the gap between a start and the greatest number of a hint.
pub open spec fn gap_width(start: int, h: usize) -> int {
    width_of(
        if hint_max(h) > start {
            hint_max(h) - start
        } else {
            0
        } + 1,
    )
}

/// How `x >= start` is expressed: as a number of a width above the start. The width is that of the
/// gap up to the greatest number of the hint; without a hint it is the greatest that is decomposed.
pub open spec fn lower_plan(start: int, hint: Option<usize>) -> OrderPlan {
    match hint {
        None => OrderPlan::Within { start: start as i128, bits: MAX_RANGE_BITS },
        Some(h) => OrderPlan::Within {
            start: start as i128,
            bits: limited(gap_width(start, h)) as usize,
        },
    }
}

/// How `x <= bound` is expressed: as a number of a width, where that has the bound as its greatest
/// number, and otherwise as a number of a width whose distance from the bound is one too.
pub open spec fn upper_plan(bound: int) -> OrderPlan {
    let bits = width_of(bound + 1);
    if pow2(bits as nat) == bound + 1 {
        OrderPlan::Within { start: 0, bits: bits as usize }
    } else {
        OrderPlan::Between { bound: bound as i128, bits: bits as usize }
    }
}

/// How a comparison with a constant is expressed over the field.
#[verifier::opaque]
pub open spec fn order_plan(op: Order, k: int, hint: Option<usize>) -> OrderPlan {
    match op {
        Order::Gt => lower_plan(k + 1, hint),
        Order::Ge => lower_plan(k, hint),
        Order::Le => if hint is Some && k >= hint_max(hint->0) {
            OrderPlan::Always
        } else {
            upper_plan(k)
        },
        Order::Lt => if k == 0 {
            OrderPlan::Never
        } else {
            upper_plan(k - 1)
        },
    }
}

/// A constant that is not negative.
pub open spec fn plain_const(t: Term) -> Option<int> {
    match t {
        Term::Int(k) => if k >= 0 {
            Some(k)
        } else {
            None
        },
        _ => None,
    }
}

/// The outcome of writing a part of a script.
pub type FfWritten = Result<(Seq<char>, Cvc5V), SolveError>;

/// What was written, with the hints of before.
pub open spec fn with_hints(hints: Map<Seq<char>, usize>, r: FfWritten) -> FfWritten {
    match r {
        Err(x) => Err(x),
        Ok((s, c)) => Ok((s, Cvc5V { hints, ..c })),
    }
}

/// The outcome of writing a list of parts.
pub type FfList = Result<(Seq<Seq<char>>, Cvc5V), SolveError>;

/// An operator applied to what was written.
pub open spec fn with_op(op: Seq<char>, r: FfWritten) -> FfWritten {
    match r {
        Err(x) => Err(x),
        Ok((s, c)) => Ok((applied(op, s), c)),
    }
}

/// An operator applied to a text and what was written.
pub open spec fn with_op_two(op: Seq<char>, a: Seq<char>, r: FfWritten) -> FfWritten {
    match r {
        Err(x) => Err(x),
        Ok((s, c)) => Ok((applied_two(op, a, s), c)),
    }
}

/// An operator applied to a list that was written.
pub open spec fn with_op_list(op: Seq<char>, r: FfList) -> FfWritten {
    match r {
        Err(x) => Err(x),
        Ok((parts, c)) => Ok((gathered(op, parts), c)),
    }
}

impl Cvc5V {
    /// The back end after a variable has been used with a sort.
    pub open spec fn ensured(self, name: Seq<char>, sort: SymType) -> Result<Cvc5V, SolveError> {
        if map_of(self.vars).contains_key(name) {
            if compatible(map_of(self.vars)[name], sort) {
                Ok(self)
            } else {
                Err(SolveError::InconsistentSort)
            }
        } else if sort == SymType::Bool {
            Ok(
                Cvc5V {
                    vars: set_pair(self.vars, name, SymType::Bool),
                    asserts: self.asserts.push(bit_condition(name)),
                    ..self
                },
            )
        } else {
            Ok(Cvc5V { vars: set_pair(self.vars, name, SymType::F), ..self })
        }
    }

    /// The weighted bits from `j` up to `n` of byte `i`, behind `parts`.
    pub open spec fn bits_from(self, id: int, i: int, j: int, n: int, parts: Seq<Seq<char>>) -> FfList
        decreases n - j,
    {
        if j < 0 || j >= n {
            Ok((parts, self))
        } else {
            match self.ensured(bit_name(id, i, j), SymType::Bool) {
                Err(x) => Err(x),
                Ok(c) => c.bits_from(
                    id,
                    i,
                    j + 1,
                    n,
                    parts.push(scaled(pow2(j as nat) as int, bit_name(id, i, j))),
                ),
            }
        }
    }

    /// The weighted bytes from `i` on that hold the remaining bits, behind `parts`.
    pub open spec fn bytes_from(self, id: int, i: int, remaining: int, parts: Seq<Seq<char>>) -> FfList
        decreases remaining,
    {
        if remaining <= 0 || i < 0 {
            Ok((parts, self))
        } else {
            let n = if remaining < 8 {
                remaining
            } else {
                8
            };
            match self.bits_from(id, i, 0, n, seq![]) {
                Err(x) => Err(x),
                Ok((bits, c)) => {
                    let sum = gathered("ff.add"@, bits);
                    let part = if i == 0 {
                        sum
                    } else {
                        scaled(pow2((8 * i) as nat) as int, sum)
                    };
                    c.bytes_from(id, i + 1, remaining - n, parts.push(part))
                },
            }
        }
    }

    /// The condition that an encoded term is a number of a width: the sum of its bytes. The width is
    /// a hint from there on.
    pub open spec fn decomposed(self, target: Seq<char>, bits: usize) -> FfWritten {
        if self.fresh == usize::MAX {
            Err(SolveError::FreshExhausted)
        } else {
            let c = Cvc5V {
                hints: self.hints.insert(target, bits),
                fresh: (self.fresh + 1) as usize,
                ..self
            };
            match c.bytes_from(self.fresh as int, 0, bits as int, seq![]) {
                Err(x) => Err(x),
                Ok((parts, c2)) => Ok((applied_two("="@, target, gathered("ff.add"@, parts)), c2)),
            }
        }
    }

    /// The text of a term.
    pub open spec fn term(self, t: Term) -> FfWritten
        decreases t, 0int,
    {
        match t {
            Term::Int(k) => Ok((field_const(k), self)),
            Term::Var(name, sort) => match self.ensured(name, sort) {
                Err(x) => Err(x),
                Ok(c) => Ok((name, c)),
            },
            Term::Neg(a) => with_op("ff.neg"@, self.term(*a)),
            Term::Add(xs) => if xs.len() == 0 {
                Ok((field_const(0), self))
            } else {
                with_op_list("ff.add"@, self.terms(xs, 0, seq![]))
            },
            Term::Mul(xs) => if xs.len() == 0 {
                Ok((field_const(1), self))
            } else {
                with_op_list("ff.mul"@, self.terms(xs, 0, seq![]))
            },
            Term::Sub(a, b) => match self.term(*a) {
                Err(x) => Err(x),
                Ok((s, c)) => with_op_two("ff.add"@, s, with_op("ff.neg"@, c.term(*b))),
            },
            Term::Div(a, b) => match self.term(*a) {
                Err(x) => Err(x),
                Ok((s, c)) => with_op_two("ff.mul"@, s, with_op("ff.inv"@, c.term(*b))),
            },
            Term::Mod(a, m) => if *m == Term::Int(self.modulus) {
                self.term(*a)
            } else {
                Err(SolveError::ModUnsupported)
            },
            Term::Ite(f, a, b) => match with_hints(self.hints, self.formula(*f)) {
                Err(x) => Err(x),
                Ok((cs, c1)) => match c1.term(*a) {
                    Err(x) => Err(x),
                    Ok((s1, c2)) => match c2.term(*b) {
                        Err(x) => Err(x),
                        Ok((s2, c3)) => Ok((conditional(cs, s1, s2), c3)),
                    },
                },
            },
        }
    }

    /// The texts of the terms from `i` on, behind `parts`.
    pub open spec fn terms(self, xs: Seq<Term>, i: int, parts: Seq<Seq<char>>) -> FfList
        decreases xs, xs.len() - i,
    {
        if i < 0 || i >= xs.len() {
            Ok((parts, self))
        } else {
            match self.term(xs[i]) {
                Err(x) => Err(x),
                Ok((s, c)) => c.terms(xs, i + 1, parts.push(s)),
            }
        }
    }

    /// The condition that a term is a number of a width above a start.
    pub open spec fn range(self, t: Term, start: Option<int>, bits: usize) -> FfWritten
        decreases t, 1int,
    {
        if bits == 0 || bits > MAX_RANGE_BITS {
            Err(SolveError::RangeBits)
        } else {
            match self.term(t) {
                Err(x) => Err(x),
                Ok((s, c)) => c.decomposed(
                    match start {
                        None => s,
                        Some(k) => offset(s, k),
                    },
                    bits,
                ),
            }
        }
    }

    /// The condition that a term and its distance from a bound are numbers of a width.
    pub open spec fn between(self, t: Term, bound: int, bits: usize) -> FfWritten
        decreases t, 1int,
    {
        if bits == 0 || bits > MAX_RANGE_BITS {
            Err(SolveError::RangeBits)
        } else {
            match self.term(t) {
                Err(x) => Err(x),
                Ok((s, c)) => match c.decomposed(offset(s, 0), bits) {
                    Err(x) => Err(x),
                    Ok((low, c1)) => match c1.decomposed(remainder_to(bound, s), bits) {
                        Err(x) => Err(x),
                        Ok((high, c2)) => Ok((applied_two("and"@, low, high), c2)),
                    },
                },
            }
        }
    }

    /// The text of a comparison of a term with a constant.
    pub open spec fn order(self, op: Order, t: Term, k: int) -> FfWritten
        decreases t, 2int,
    {
        if self.modulus <= 0 || k >= self.modulus / 2 {
            Err(SolveError::OrderConstant)
        } else {
            match self.term(t) {
                Err(x) => Err(x),
                Ok((s, c)) => {
                    let hint = if c.hints.contains_key(s) {
                        Some(c.hints[s])
                    } else {
                        None
                    };
                    match order_plan(op, k, hint) {
                        OrderPlan::Always => Ok(("true"@, c)),
                        OrderPlan::Never => Ok(("false"@, c)),
                        OrderPlan::Within { start, bits } => c.range(t, Some(start as int), bits),
                        OrderPlan::Between { bound, bits } => c.between(t, bound as int, bits),
                    }
                },
            }
        }
    }

    /// The text of a formula. What it says of the width of a term is a hint as long as the formula
    /// is relied on: through the rest of a conjunction, but not behind a negation, an alternative or
    /// the condition of a term.
    ///
    /// The bits of a decomposition are free: under a negation, what is written for a range or a
    /// comparison denies one choice of them, which is weaker than to deny the range.
    pub open spec fn formula(self, f: Formula) -> FfWritten
        decreases f, 0int,
    {
        match f {
            Formula::Bool(b) => Ok(
                (
                    if b {
                        "true"@
                    } else {
                        "false"@
                    },
                    self,
                ),
            ),
            Formula::Not(a) => with_op("not"@, with_hints(self.hints, self.formula(*a))),
            Formula::And(fs) => if fs.len() == 0 {
                Ok(("true"@, self))
            } else {
                with_op_list("and"@, self.formulas(fs, 0, seq![]))
            },
            Formula::Or(fs) => if fs.len() == 0 {
                Ok(("false"@, self))
            } else {
                with_op_list("or"@, self.alternatives(fs, 0, seq![]))
            },
            Formula::Eq(a, b) => match self.term(a) {
                Err(x) => Err(x),
                Ok((s, c)) => with_op_two("="@, s, c.term(b)),
            },
            Formula::Ne(a, b) => match self.term(a) {
                Err(x) => Err(x),
                Ok((s, c)) => with_op("not"@, with_op_two("="@, s, c.term(b))),
            },
            Formula::Le(a, b) => if plain_const(b) is Some {
                self.order(Order::Le, a, plain_const(b)->0)
            } else if plain_const(a) is Some {
                self.order(Order::Ge, b, plain_const(a)->0)
            } else {
                Err(SolveError::OrderUnsupported)
            },
            Formula::Lt(_, _) => Err(SolveError::OrderUnsupported),
            Formula::Ge(a, b) => if plain_const(b) is Some {
                self.order(Order::Ge, a, plain_const(b)->0)
            } else if plain_const(a) is Some {
                self.order(Order::Le, b, plain_const(a)->0)
            } else {
                Err(SolveError::OrderUnsupported)
            },
            Formula::Gt(a, b) => if plain_const(b) is Some {
                self.order(Order::Gt, a, plain_const(b)->0)
            } else if plain_const(a) is Some {
                self.order(Order::Lt, b, plain_const(a)->0)
            } else {
                Err(SolveError::OrderUnsupported)
            },
            Formula::Range { value, min, max, bits } => if min != 0 {
                Err(SolveError::NegativeRange)
            } else {
                match bits {
                    None => Err(SolveError::MissingBits),
                    Some(w) => if w >= 127 || max != pow2(w as nat) - 1 {
                        Err(SolveError::RangeBound)
                    } else {
                        self.range(value, None, w)
                    },
                }
            },
        }
    }

    /// The texts of the formulas from `i` on, behind `parts`.
    pub open spec fn formulas(self, fs: Seq<Formula>, i: int, parts: Seq<Seq<char>>) -> FfList
        decreases fs, fs.len() - i,
    {
        if i < 0 || i >= fs.len() {
            Ok((parts, self))
        } else {
            match self.formula(fs[i]) {
                Err(x) => Err(x),
                Ok((s, c)) => c.formulas(fs, i + 1, parts.push(s)),
            }
        }
    }

    /// The texts of the alternatives from `i` on, behind `parts`.
    pub open spec fn alternatives(self, fs: Seq<Formula>, i: int, parts: Seq<Seq<char>>) -> FfList
        decreases fs, fs.len() - i,
    {
        if i < 0 || i >= fs.len() {
            Ok((parts, self))
        } else {
            match with_hints(self.hints, self.formula(fs[i])) {
                Err(x) => Err(x),
                Ok((s, c)) => c.alternatives(fs, i + 1, parts.push(s)),
            }
        }
    }

    /// The back end after the clauses of a formula have been asserted, one by one.
    pub open spec fn asserting(self, f: Formula) -> Result<Cvc5V, SolveError>
        decreases f,
    {
        match f {
            Formula::And(fs) => self.asserting_from(fs, 0),
            _ => match self.formula(f) {
                Err(x) => Err(x),
                Ok((s, c)) => Ok(Cvc5V { asserts: c.asserts.push(s), ..c }),
            },
        }
    }

    /// The back end after the formulas from `i` on have been asserted.
    pub open spec fn asserting_from(self, fs: Seq<Formula>, i: int) -> Result<Cvc5V, SolveError>
        decreases fs, fs.len() - i,
    {
        if i < 0 || i >= fs.len() {
            Ok(self)
        } else {
            match self.asserting(fs[i]) {
                Err(x) => Err(x),
                Ok(c) => c.asserting_from(fs, i + 1),
            }
        }
    }

    /// The script: the field, the declarations, the conditions and the question.
    pub open spec fn script(self) -> Seq<char> {
        let head = "(set-logic QF_FF)\n"@ + "(define-sort F () (_ FiniteField "@ + decimal_int(
            self.modulus,
        ) + "))\n\n"@;
        let decls = with_ff_decls(head, self.vars, self.vars.len() as int);
        let gap = if self.vars.len() > 0 {
            decls + "\n"@
        } else {
            decls
        };
        with_ff_asserts(gap, self.asserts, self.asserts.len() as int) + "(check-sat)\n(exit)\n"@
    }
}

/// `s` followed by the declarations of the first `n` variables.
pub open spec fn with_ff_decls(s: Seq<char>, vars: Seq<(Seq<char>, SymType)>, n: int) -> Seq<char>
    decreases n,
{
    if n <= 0 || n > vars.len() {
        s
    } else {
        with_ff_decls(s, vars, n - 1) + "(declare-fun "@ + vars[n - 1].0 + " () F)\n"@
    }
}

/// `s` followed by the first `n` conditions.
pub open spec fn with_ff_asserts(s: Seq<char>, asserts: Seq<Seq<char>>, n: int) -> Seq<char>
    decreases n,
{
    if n <= 0 || n > asserts.len() {
        s
    } else {
        with_ff_asserts(s, asserts, n - 1) + "(assert "@ + asserts[n - 1] + ")\n"@
    }
}

/// Nothing declared, nothing asserted.
pub open spec fn empty_cvc5(modulus: int) -> Cvc5V {
    Cvc5V { modulus, vars: seq![], asserts: seq![], fresh: 0, hints: Map::empty() }
}

/// The script that asks whether a formula is satisfiable.
pub open spec fn cvc5_script(modulus: int, f: Formula) -> Result<Seq<char>, SolveError> {
    match empty_cvc5(modulus).asserting(f) {
        Err(x) => Err(x),
        Ok(c) => Ok(c.script()),
    }
}

/// The outcome of writing a part of a script.
pub open spec fn ff_view(r: Result<(String, Cvc5ffBackend), SolveError>) -> FfWritten {
    match r {
        Ok((s, c)) => Ok((s@, c@)),
        Err(x) => Err(x),
    }
}

/// The outcome of writing a list of parts.
pub open spec fn ff_list_view(r: Result<(Vec<String>, Cvc5ffBackend), SolveError>) -> FfList {
    match r {
        Ok((v, c)) => Ok((texts(v@), c@)),
        Err(x) => Err(x),
    }
}

fn const_script(k: i128) -> (r: String)
    ensures
        r@ == field_const(k as int),
{
    let mut s = "(as ff".to_string();
    push_int(&mut s, k);
    s.append(" F)");
    s
}

fn bit_script(name: &str) -> (r: String)
    ensures
        r@ == bit_condition(name@),
{
    let mut s = "(or (= ".to_string();
    s.append(name);
    s.append(" (as ff0 F)) (= ");
    s.append(name);
    s.append(" (as ff1 F)))");
    s
}

fn apply(op: &str, a: &str) -> (r: String)
    ensures
        r@ == applied(op@, a@),
{
    let mut s = "(".to_string();
    s.append(op);
    s.append(" ");
    s.append(a);
    s.append(")");
    s
}

fn apply_two(op: &str, a: &str, b: &str) -> (r: String)
    ensures
        r@ == applied_two(op@, a@, b@),
{
    let mut s = "(".to_string();
    s.append(op);
    s.append(" ");
    s.append(a);
    s.append(" ");
    s.append(b);
    s.append(")");
    s
}

fn choose_script(c: &str, a: &str, b: &str) -> (r: String)
    ensures
        r@ == conditional(c@, a@, b@),
{
    let mut s = "(ite ".to_string();
    s.append(c);
    s.append(" ");
    s.append(a);
    s.append(" ");
    s.append(b);
    s.append(")");
    s
}

fn gather(op: &str, parts: &Vec<String>) -> (r: String)
    ensures
        r@ == gathered(op@, texts(parts@)),
{
    if parts.len() == 1 {
        proof {
            assert(texts(parts@)[0] == parts@[0]@);
        }
        return parts[0].clone();
    }
    apply(op, join_text(parts, " ").as_str())
}

fn scale(k: i128, a: &str) -> (r: String)
    ensures
        r@ == scaled(k as int, a@),
{
    apply_two("ff.mul", const_script(k).as_str(), a)
}

fn shift(a: &str, k: i128) -> (r: String)
    ensures
        r@ == offset(a@, k as int),
{
    apply_two("ff.add", a, apply("ff.neg", const_script(k).as_str()).as_str())
}

fn name_of_bit(id: usize, i: usize, j: usize) -> (r: String)
    ensures
        r@ == bit_name(id as int, i as int, j as int),
{
    let mut s = "__range_b".to_string();
    push_nat(&mut s, id as u128);
    s.append("_");
    push_nat(&mut s, i as u128);
    s.append("_");
    push_nat(&mut s, j as u128);
    s
}

/// A number below a power of two has no more digits than the exponent says.
pub proof fn lemma_digits(x: int, n: nat)
    requires
        0 <= x < pow2(n),
    ensures
        0 <= digits(x) <= n,
    decreases n,
{
    if x > 0 {
        if n == 0 {
            vstd::arithmetic::power2::lemma2_to64();
        } else {
            vstd::arithmetic::power2::lemma_pow2_unfold(n);
            lemma_digits(x / 2, (n - 1) as nat);
        }
    }
}

fn ceil_log2_u128(x: u128) -> (r: usize)
    requires
        x < 0x4000_0000_0000_0000_0000_0000_0000_0000,
    ensures
        r == width_of(x as int),
        1 <= r <= 126,
        x <= pow2(r as nat),
{
    proof {
        lemma_width_covers(x as int);
    }
    if x <= 2 {
        return 1;
    }
    let x = x - 1;
    let mut n: usize = 0;
    let mut rest: u128 = x;
    proof {
        vstd::arithmetic::power2::lemma2_to64();
        vstd::arithmetic::power2::lemma_pow2_adds(64, 62);
        assert(0x1_0000_0000_0000_0000int * 0x4000_0000_0000_0000int
            == 0x4000_0000_0000_0000_0000_0000_0000_0000int) by (nonlinear_arith);
        vstd::arithmetic::power2::lemma2_to64_rest();
        lemma_digits(x as int, 126);
    }
    while rest > 0
        invariant
            digits(x as int) == n + digits(rest as int),
            digits(x as int) <= 126,
            n <= 126,
        decreases rest,
    {
        proof {
            lemma_digits_positive((rest / 2) as int);
        }
        rest = rest / 2;
        n = n + 1;
    }
    n
}

/// A number has no more than the digits that are counted.
pub proof fn lemma_digits_cover(x: int)
    requires
        0 <= x,
    ensures
        0 <= digits(x),
        x < pow2(digits(x) as nat),
    decreases x,
{
    if x > 0 {
        lemma_digits_cover(x / 2);
        vstd::arithmetic::power2::lemma_pow2_unfold(digits(x) as nat);
    } else {
        vstd::arithmetic::power2::lemma2_to64();
    }
}

/// There are enough numbers of the width.
pub proof fn lemma_width_covers(x: int)
    ensures
        1 <= width_of(x),
        x <= pow2(width_of(x) as nat),
{
    vstd::arithmetic::power2::lemma2_to64();
    if x > 2 {
        lemma_digits_cover(x - 1);
        lemma_digits_cover((x - 1) / 2);
    }
}

proof fn lemma_digits_positive(x: int)
    ensures
        digits(x) >= 0,
    decreases x,
{
    if x > 0 {
        lemma_digits_positive(x / 2);
    }
}

fn max_of_hint(h: usize) -> (r: i128)
    ensures
        r == hint_max(h),
        0 <= r < 0x100_0000,
{
    let w = if h < MAX_RANGE_BITS {
        h
    } else {
        MAX_RANGE_BITS
    };
    proof {
        vstd::arithmetic::power2::lemma2_to64();
        vstd::arithmetic::power2::lemma_pow2_pos(w as nat);
        if w < 24 {
            vstd::arithmetic::power2::lemma_pow2_strictly_increases(w as nat, 24);
        }
    }
    power_of_two(w) - 1
}

fn width_of_gap(start: i128, h: usize) -> (r: usize)
    requires
        start >= 0,
    ensures
        r == limited(gap_width(start as int, h)),
        1 <= r <= MAX_RANGE_BITS,
{
    let top = max_of_hint(h);
    let gap: i128 = if top > start {
        top - start
    } else {
        0
    };
    let w = ceil_log2_u128((gap + 1) as u128);
    if w > MAX_RANGE_BITS {
        MAX_RANGE_BITS
    } else {
        w
    }
}

fn plan_lower(start: i128, hint: Option<usize>) -> (r: OrderPlan)
    requires
        0 <= start,
    ensures
        r == lower_plan(start as int, hint),
{
    match hint {
        None => OrderPlan::Within { start, bits: MAX_RANGE_BITS },
        Some(h) => OrderPlan::Within { start, bits: width_of_gap(start, h) },
    }
}

fn plan_upper(bound: i128) -> (r: OrderPlan)
    requires
        0 <= bound < 0x3fff_ffff_ffff_ffff_ffff_ffff_ffff_ffff,
    ensures
        r == upper_plan(bound as int),
{
    let bits = ceil_log2_u128((bound + 1) as u128);
    if power_of_two(bits) == bound + 1 {
        OrderPlan::Within { start: 0, bits }
    } else {
        OrderPlan::Between { bound, bits }
    }
}

fn plan_order(op: Order, k: i128, hint: Option<usize>) -> (r: OrderPlan)
    requires
        0 <= k < 0x3fff_ffff_ffff_ffff_ffff_ffff_ffff_ffff,
    ensures
        r == order_plan(op, k as int, hint),
{
    proof {
        reveal(order_plan);
    }
    match op {
        Order::Gt => plan_lower(k + 1, hint),
        Order::Ge => plan_lower(k, hint),
        Order::Le => {
            if let Some(h) = hint {
                if k >= max_of_hint(h) {
                    return OrderPlan::Always;
                }
            }
            plan_upper(k)
        },
        Order::Lt => if k == 0 {
            OrderPlan::Never
        } else {
            plan_upper(k - 1)
        },
    }
}

fn nonnegative_const(e: &SymExpr) -> (r: Option<i128>)
    ensures
        match r {
            Some(k) => plain_const(e@) == Some(k as int) && k >= 0,
            None => plain_const(e@) is None,
        },
{
    if let SymExpr::Int(k) = e {
        if *k >= 0 {
            return Some(*k);
        }
    }
    None
}

fn sorts_mix(prev: SymType, sort: SymType) -> (r: bool)
    ensures
        r == compatible(prev, sort),
{
    match (prev, sort) {
        (SymType::Bool, SymType::Bool) => true,
        (SymType::F, SymType::Bool) => false,
        (SymType::F, _) => true,
        (SymType::Uint(_), SymType::F) => true,
        (SymType::Uint(_), SymType::Uint(_)) => true,
        (SymType::Int(_), SymType::F) => true,
        (SymType::Int(_), SymType::Int(_)) => true,
        _ => false,
    }
}

fn copy_hints(hints: &NameMap<usize>) -> (r: NameMap<usize>)
    ensures
        r@ == hints@,
{
    let mut r: NameMap<usize> = NameMap::new();
    #[verifier::loop_isolation(false)]
    for i in 0..hints.entries.len()
        invariant
            r.pairs() == hints.pairs().take(i as int),
    {
        r.entries.push((hints.entries[i].0.clone(), hints.entries[i].1));
        proof {
            assert(r.pairs() =~= hints.pairs().take(i + 1));
        }
    }
    proof {
        assert(hints.pairs().take(hints.entries@.len() as int) =~= hints.pairs());
    }
    r
}

impl Cvc5ffBackend {
    /// A back end for a field, with nothing declared and nothing asserted.
    pub fn new(field_modulus: i128) -> (r: Self)
        ensures
            r@ == empty_cvc5(field_modulus as int),
    {
        let r = Cvc5ffBackend {
            field_modulus,
            vars: NameMap::new(),
            asserts: Vec::new(),
            range_fresh: 0,
            range_hints: NameMap::new(),
        };
        proof {
            assert(r@.vars =~= seq![]);
            assert(r@.asserts =~= seq![]);
        }
        r
    }

    fn push_assert(self, text: String) -> (r: Self)
        ensures
            r@ == (Cvc5V { asserts: self@.asserts.push(text@), ..self@ }),
    {
        let mut c = self;
        let ghost before = c.asserts@;
        c.asserts.push(text);
        proof {
            assert(texts(c.asserts@) =~= texts(before).push(text@));
        }
        c
    }

    /// Register a symbolic variable and enforce basic sort-specific constraints.
    fn ensure_var(self, name: &str, sort: SymType) -> (r: Result<Self, SolveError>)
        ensures
            crate::view::ok_view(r) == self@.ensured(name@, sort),
    {
        if let Some(prev) = self.vars.get(name) {
            if sorts_mix(*prev, sort) {
                return Ok(self);
            }
            return Err(SolveError::InconsistentSort);
        }
        let mut c = self;
        if sort == SymType::Bool {
            c.vars.set(name.to_string(), SymType::Bool);
            return Ok(c.push_assert(bit_script(name)));
        }
        c.vars.set(name.to_string(), SymType::F);
        Ok(c)
    }

    fn encode_bits(self, id: usize, i: usize, n: usize) -> (r: Result<(Vec<String>, Self), SolveError>)
        requires
            n <= 8,
        ensures
            ff_list_view(r) == self@.bits_from(id as int, i as int, 0, n as int, seq![]),
    {
        let ghost start = self@;
        let mut c = self;
        let mut parts: Vec<String> = Vec::new();
        proof {
            assert(texts(parts@) =~= seq![]);
        }
        #[verifier::loop_isolation(false)]
        for j in 0..n
            invariant
                start.bits_from(id as int, i as int, 0, n as int, seq![]) == c@.bits_from(
                    id as int,
                    i as int,
                    j as int,
                    n as int,
                    texts(parts@),
                ),
        {
            let name = name_of_bit(id, i, j);
            c = c.ensure_var(name.as_str(), SymType::Bool)?;
            let ghost before = parts@;
            let part = scale(power_of_two(j), name.as_str());
            parts.push(part);
            proof {
                assert(texts(parts@) =~= texts(before).push(part@));
            }
        }
        Ok((parts, c))
    }

    fn encode_bytes(self, id: usize, bits: usize) -> (r: Result<(Vec<String>, Self), SolveError>)
        requires
            bits <= MAX_RANGE_BITS,
        ensures
            ff_list_view(r) == self@.bytes_from(id as int, 0, bits as int, seq![]),
    {
        let ghost start = self@;
        let mut c = self;
        let mut parts: Vec<String> = Vec::new();
        proof {
            assert(texts(parts@) =~= seq![]);
        }
        let mut remaining: usize = bits;
        let mut i: usize = 0;
        #[verifier::loop_isolation(false)]
        while remaining > 0
            invariant
                remaining > 0 ==> 8 * i + remaining == bits,
                start.bytes_from(id as int, 0, bits as int, seq![]) == c@.bytes_from(
                    id as int,
                    i as int,
                    remaining as int,
                    texts(parts@),
                ),
            decreases remaining,
        {
            let n = if remaining < 8 {
                remaining
            } else {
                8
            };
            let (terms, c2) = c.encode_bits(id, i, n)?;
            let sum = gather("ff.add", &terms);
            let part = if i == 0 {
                sum
            } else {
                scale(power_of_two(8 * i), sum.as_str())
            };
            let ghost before = parts@;
            parts.push(part);
            c = c2;
            remaining = remaining - n;
            i = i + 1;
            proof {
                assert(texts(parts@) =~= texts(before).push(part@));
            }
        }
        Ok((parts, c))
    }

    /// Encode a byte-wise range decomposition in the finite field backend.
    /// This enforces `target` to lie in `[0, 2^{bits}-1]` by expressing it
    /// as the sum of little-endian bytes composed from Boolean bits.
    fn decompose(self, target: String, bits: usize) -> (r: Result<(String, Self), SolveError>)
        requires
            bits <= MAX_RANGE_BITS,
        ensures
            ff_view(r) == self@.decomposed(target@, bits),
    {
        if self.range_fresh == usize::MAX {
            return Err(SolveError::FreshExhausted);
        }
        let mut c = self;
        c.range_hints.set(target.clone(), bits);
        let id = c.range_fresh;
        c.range_fresh = id + 1;
        let (parts, c) = c.encode_bytes(id, bits)?;
        Ok((apply_two("=", target.as_str(), gather("ff.add", &parts).as_str()), c))
    }

    fn encode_terms(self, xs: &Vec<SymExpr>) -> (r: Result<(Vec<String>, Self), SolveError>)
        ensures
            ff_list_view(r) == self@.terms(terms_of(xs@), 0, seq![]),
        decreases xs, 0int,
    {
        let ghost ts = terms_of(xs@);
        let ghost start = self@;
        let mut c = self;
        let mut parts: Vec<String> = Vec::new();
        proof {
            assert(texts(parts@) =~= seq![]);
        }
        #[verifier::loop_isolation(false)]
        for i in 0..xs.len()
            invariant
                start.terms(ts, 0, seq![]) == c@.terms(ts, i as int, texts(parts@)),
        {
            proof {
                assert(ts[i as int] == xs@[i as int]@);
            }
            let ghost before = parts@;
            let (s, c2) = c.encode_term(&xs[i])?;
            parts.push(s);
            c = c2;
            proof {
                assert(texts(parts@) =~= texts(before).push(s@));
            }
        }
        Ok((parts, c))
    }

    fn encode_term(self, e: &SymExpr) -> (r: Result<(String, Self), SolveError>)
        ensures
            ff_view(r) == self@.term(e@),
        decreases e, 0int,
    {
        match e {
            SymExpr::Int(k) => Ok((const_script(*k), self)),
            SymExpr::Var(name, sort) => {
                let c = self.ensure_var(name.as_str(), *sort)?;
                Ok((name.clone(), c))
            },
            SymExpr::Neg(a) => {
                let (s, c) = self.encode_term(a)?;
                Ok((apply("ff.neg", s.as_str()), c))
            },
            SymExpr::Add(xs) => {
                proof {
                    assert(terms_of(xs@).len() == xs@.len());
                }
                if xs.len() == 0 {
                    return Ok((const_script(0), self));
                }
                let (parts, c) = self.encode_terms(xs)?;
                Ok((gather("ff.add", &parts), c))
            },
            SymExpr::Mul(xs) => {
                proof {
                    assert(terms_of(xs@).len() == xs@.len());
                }
                if xs.len() == 0 {
                    return Ok((const_script(1), self));
                }
                let (parts, c) = self.encode_terms(xs)?;
                Ok((gather("ff.mul", &parts), c))
            },
            SymExpr::Sub(a, b) => {
                let (s1, c) = self.encode_term(a)?;
                let (s2, c) = c.encode_term(b)?;
                let neg = apply("ff.neg", s2.as_str());
                Ok((apply_two("ff.add", s1.as_str(), neg.as_str()), c))
            },
            SymExpr::Div(a, b) => {
                let (s1, c) = self.encode_term(a)?;
                let (s2, c) = c.encode_term(b)?;
                let inv = apply("ff.inv", s2.as_str());
                Ok((apply_two("ff.mul", s1.as_str(), inv.as_str()), c))
            },
            SymExpr::Mod(a, m) => {
                proof {
                    assert(m@ == crate::checker::symbolic::expr::term_of(**m));
                }
                if let SymExpr::Int(k) = &**m {
                    if *k == self.field_modulus {
                        return self.encode_term(a);
                    }
                }
                Err(SolveError::ModUnsupported)
            },
            SymExpr::Ite(f, a, b) => {
                let (cs, c) = self.encode_apart(f)?;
                let (s1, c) = c.encode_term(a)?;
                let (s2, c) = c.encode_term(b)?;
                Ok((choose_script(cs.as_str(), s1.as_str(), s2.as_str()), c))
            },
        }
    }

    fn encode_range(self, e: &SymExpr, start: Option<i128>, bits: usize) -> (r: Result<
        (String, Self),
        SolveError,
    >)
        ensures
            ff_view(r) == self@.range(
                e@,
                match start {
                    Some(k) => Some(k as int),
                    None => None,
                },
                bits,
            ),
        decreases e, 1int,
    {
        if bits == 0 || bits > MAX_RANGE_BITS {
            return Err(SolveError::RangeBits);
        }
        let (s, c) = self.encode_term(e)?;
        let target = match start {
            None => s,
            Some(k) => shift(s.as_str(), k),
        };
        c.decompose(target, bits)
    }

    fn encode_between(self, e: &SymExpr, bound: i128, bits: usize) -> (r: Result<
        (String, Self),
        SolveError,
    >)
        ensures
            ff_view(r) == self@.between(e@, bound as int, bits),
        decreases e, 1int,
    {
        if bits == 0 || bits > MAX_RANGE_BITS {
            return Err(SolveError::RangeBits);
        }
        let (s, c) = self.encode_term(e)?;
        let (low, c) = c.decompose(shift(s.as_str(), 0), bits)?;
        let minus = apply("ff.neg", s.as_str());
        let gap = apply_two("ff.add", const_script(bound).as_str(), minus.as_str());
        let (high, c) = c.decompose(gap, bits)?;
        Ok((apply_two("and", low.as_str(), high.as_str()), c))
    }

    /// General order encoding: require one side to be a non-negative constant.
    /// Encodes `val ? k` as a bounded offset `val = k + c` with a small bit-width for `c`.
    /// Gives an error where the constant is too close to the modulus.
    fn encode_order_with_const(self, op: Order, e: &SymExpr, k: i128) -> (r: Result<
        (String, Self),
        SolveError,
    >)
        requires
            k >= 0,
        ensures
            ff_view(r) == self@.order(op, e@, k as int),
        decreases e, 2int,
    {
        if self.field_modulus <= 0 || k >= self.field_modulus / 2 {
            return Err(SolveError::OrderConstant);
        }
        proof {
            assert(k < 0x3fff_ffff_ffff_ffff_ffff_ffff_ffff_ffff);
        }
        let (s, c) = self.encode_term(e)?;
        let hint = match c.range_hints.get(s.as_str()) {
            Some(h) => Some(*h),
            None => None,
        };
        match plan_order(op, k, hint) {
            OrderPlan::Always => Ok(("true".to_string(), c)),
            OrderPlan::Never => Ok(("false".to_string(), c)),
            OrderPlan::Within { start, bits } => c.encode_range(e, Some(start), bits),
            OrderPlan::Between { bound, bits } => c.encode_between(e, bound, bits),
        }
    }

    fn encode_bools(self, fs: &Vec<BoolExpr>) -> (r: Result<(Vec<String>, Self), SolveError>)
        ensures
            ff_list_view(r) == self@.formulas(formulas_of(fs@), 0, seq![]),
        decreases fs, 0int,
    {
        let ghost all = formulas_of(fs@);
        let ghost start = self@;
        let mut c = self;
        let mut parts: Vec<String> = Vec::new();
        proof {
            assert(texts(parts@) =~= seq![]);
        }
        #[verifier::loop_isolation(false)]
        for i in 0..fs.len()
            invariant
                start.formulas(all, 0, seq![]) == c@.formulas(all, i as int, texts(parts@)),
        {
            proof {
                assert(all[i as int] == fs@[i as int]@);
            }
            let ghost before = parts@;
            let (s, c2) = c.encode_bool(&fs[i])?;
            parts.push(s);
            c = c2;
            proof {
                assert(texts(parts@) =~= texts(before).push(s@));
            }
        }
        Ok((parts, c))
    }

    fn encode_alternatives(self, fs: &Vec<BoolExpr>) -> (r: Result<(Vec<String>, Self), SolveError>)
        ensures
            ff_list_view(r) == self@.alternatives(formulas_of(fs@), 0, seq![]),
        decreases fs, 0int,
    {
        let ghost all = formulas_of(fs@);
        let ghost start = self@;
        let mut c = self;
        let mut parts: Vec<String> = Vec::new();
        proof {
            assert(texts(parts@) =~= seq![]);
        }
        #[verifier::loop_isolation(false)]
        for i in 0..fs.len()
            invariant
                start.alternatives(all, 0, seq![]) == c@.alternatives(all, i as int, texts(parts@)),
        {
            proof {
                assert(all[i as int] == fs@[i as int]@);
            }
            let ghost before = parts@;
            let (s, c2) = c.encode_apart(&fs[i])?;
            parts.push(s);
            c = c2;
            proof {
                assert(texts(parts@) =~= texts(before).push(s@));
            }
        }
        Ok((parts, c))
    }

    /// Encode a formula that what follows cannot rely on.
    fn encode_apart(self, f: &BoolExpr) -> (r: Result<(String, Self), SolveError>)
        ensures
            ff_view(r) == with_hints(self@.hints, self@.formula(f@)),
        decreases f, 1int,
    {
        let hints = copy_hints(&self.range_hints);
        let (s, c) = self.encode_bool(f)?;
        let mut c = c;
        c.range_hints = hints;
        Ok((s, c))
    }

    fn encode_bool(self, f: &BoolExpr) -> (r: Result<(String, Self), SolveError>)
        ensures
            ff_view(r) == self@.formula(f@),
        decreases f, 0int,
    {
        match f {
            BoolExpr::Bool(b) => Ok(
                (
                    if *b {
                        "true".to_string()
                    } else {
                        "false".to_string()
                    },
                    self,
                ),
            ),
            BoolExpr::Not(a) => {
                let (s, c) = self.encode_apart(a)?;
                Ok((apply("not", s.as_str()), c))
            },
            BoolExpr::And(fs) => {
                proof {
                    assert(formulas_of(fs@).len() == fs@.len());
                }
                if fs.len() == 0 {
                    return Ok(("true".to_string(), self));
                }
                let (parts, c) = self.encode_bools(fs)?;
                Ok((gather("and", &parts), c))
            },
            BoolExpr::Or(fs) => {
                proof {
                    assert(formulas_of(fs@).len() == fs@.len());
                }
                if fs.len() == 0 {
                    return Ok(("false".to_string(), self));
                }
                let (parts, c) = self.encode_alternatives(fs)?;
                Ok((gather("or", &parts), c))
            },
            BoolExpr::Eq(a, b) => {
                let (s1, c) = self.encode_term(a)?;
                let (s2, c) = c.encode_term(b)?;
                Ok((apply_two("=", s1.as_str(), s2.as_str()), c))
            },
            BoolExpr::Ne(a, b) => {
                let (s1, c) = self.encode_term(a)?;
                let (s2, c) = c.encode_term(b)?;
                let eq = apply_two("=", s1.as_str(), s2.as_str());
                Ok((apply("not", eq.as_str()), c))
            },
            BoolExpr::Le(a, b) => if let Some(k) = nonnegative_const(b) {
                self.encode_order_with_const(Order::Le, a, k)
            } else if let Some(k) = nonnegative_const(a) {
                self.encode_order_with_const(Order::Ge, b, k)
            } else {
                Err(SolveError::OrderUnsupported)
            },
            BoolExpr::Lt(_, _) => Err(SolveError::OrderUnsupported),
            BoolExpr::Ge(a, b) => if let Some(k) = nonnegative_const(b) {
                self.encode_order_with_const(Order::Ge, a, k)
            } else if let Some(k) = nonnegative_const(a) {
                self.encode_order_with_const(Order::Le, b, k)
            } else {
                Err(SolveError::OrderUnsupported)
            },
            BoolExpr::Gt(a, b) => if let Some(k) = nonnegative_const(b) {
                self.encode_order_with_const(Order::Gt, a, k)
            } else if let Some(k) = nonnegative_const(a) {
                self.encode_order_with_const(Order::Lt, b, k)
            } else {
                Err(SolveError::OrderUnsupported)
            },
            BoolExpr::Range { value, min, max, bits } => {
                if *min != 0 {
                    return Err(SolveError::NegativeRange);
                }
                match *bits {
                    None => Err(SolveError::MissingBits),
                    Some(w) => {
                        if w >= 127 || *max != power_of_two(w) - 1 {
                            return Err(SolveError::RangeBound);
                        }
                        self.encode_range(value, None, w)
                    },
                }
            },
        }
    }

    fn assert_list(self, fs: &Vec<BoolExpr>) -> (r: Result<Self, SolveError>)
        ensures
            crate::view::ok_view(r) == self@.asserting_from(formulas_of(fs@), 0),
        decreases fs, 0int,
    {
        let ghost all = formulas_of(fs@);
        let ghost start = self@;
        let mut c = self;
        #[verifier::loop_isolation(false)]
        for i in 0..fs.len()
            invariant
                start.asserting_from(all, 0) == c@.asserting_from(all, i as int),
        {
            proof {
                assert(all[i as int] == fs@[i as int]@);
            }
            c = c.assert_bool(&fs[i])?;
        }
        Ok(c)
    }

    /// Assert a formula; a conjunction is split into its clauses for readability.
    pub fn assert_bool(self, f: &BoolExpr) -> (r: Result<Self, SolveError>)
        ensures
            crate::view::ok_view(r) == self@.asserting(f@),
        decreases f, 0int,
    {
        match f {
            BoolExpr::And(fs) => self.assert_list(fs),
            _ => {
                let (s, c) = self.encode_bool(f)?;
                Ok(c.push_assert(s))
            },
        }
    }

    /// The script: the field, the declarations, the conditions and the question.
    pub fn build_script(&self) -> (r: String)
        ensures
            r@ == self@.script(),
    {
        let mut out = "(set-logic QF_FF)\n".to_string();
        out.append("(define-sort F () (_ FiniteField ");
        push_int(&mut out, self.field_modulus);
        out.append("))\n\n");
        let ghost head = out@;
        let ghost vs = self.vars.pairs();
        #[verifier::loop_isolation(false)]
        for i in 0..self.vars.entries.len()
            invariant
                out@ == with_ff_decls(head, vs, i as int),
        {
            proof {
                assert(vs[i as int].0 == self.vars.entries@[i as int].0@);
            }
            out.append("(declare-fun ");
            out.append(self.vars.entries[i].0.as_str());
            out.append(" () F)\n");
        }
        if self.vars.entries.len() > 0 {
            out.append("\n");
        }
        let ghost gap = out@;
        #[verifier::loop_isolation(false)]
        for i in 0..self.asserts.len()
            invariant
                out@ == with_ff_asserts(gap, self@.asserts, i as int),
        {
            proof {
                assert(self@.asserts[i as int] == self.asserts@[i as int]@);
            }
            out.append("(assert ");
            out.append(self.asserts[i].as_str());
            out.append(")\n");
        }
        out.append("(check-sat)\n(exit)\n");
        out
    }

    /// The script that asks whether a formula is satisfiable.
    pub fn script_for(self, phi: &BoolExpr) -> (r: Result<String, SolveError>)
        ensures
            match self@.asserting(phi@) {
                Err(x) => r == Err::<String, SolveError>(x),
                Ok(c) => r is Ok && r->Ok_0@ == c.script(),
            },
    {
        let c = self.assert_bool(phi)?;
        Ok(c.build_script())
    }
}

/// The answer that a line of output gives.
pub open spec fn line_answer(line: Seq<char>) -> Option<Result<bool, SolveError>> {
    if trimmed(line) == "sat"@ {
        Some(Ok(true))
    } else if trimmed(line) == "unsat"@ {
        Some(Ok(false))
    } else if trimmed(line) == "unknown"@ {
        Some(Err(SolveError::Unknown))
    } else {
        None
    }
}

/// The first answer in the output from `i` on, the current line having begun with `line`.
pub open spec fn answer_from(out: Seq<char>, i: int, line: Seq<char>) -> Result<bool, SolveError>
    decreases out.len() - i,
{
    if i < 0 || i >= out.len() {
        match line_answer(line) {
            Some(a) => a,
            None => Err(SolveError::NoVerdict),
        }
    } else if out[i] == '\n' {
        match line_answer(line) {
            Some(a) => a,
            None => answer_from(out, i + 1, seq![]),
        }
    } else {
        answer_from(out, i + 1, line.push(out[i]))
    }
}

/// What the run of a solver process says about satisfiability.
pub open spec fn process_answer(success: bool, out: Seq<char>) -> Result<bool, SolveError> {
    if !success {
        Err(SolveError::ProcessFailed)
    } else {
        answer_from(out, 0, seq![])
    }
}

fn answer_of_line(line: &str) -> (r: Option<Result<bool, SolveError>>)
    ensures
        r == line_answer(line@),
{
    let t = trimmed_text(line);
    if same_text(t.as_str(), "sat") {
        Some(Ok(true))
    } else if same_text(t.as_str(), "unsat") {
        Some(Ok(false))
    } else if same_text(t.as_str(), "unknown") {
        Some(Err(SolveError::Unknown))
    } else {
        None
    }
}

/// What the run of a solver process says about satisfiability: its exit status and its output, in
/// which the first line that is an answer counts.
pub fn read_answer(success: bool, stdout: &str) -> (r: Result<bool, SolveError>)
    ensures
        r == process_answer(success, stdout@),
{
    if !success {
        return Err(SolveError::ProcessFailed);
    }
    let n = stdout.unicode_len();
    let mut line = String::new();
    proof {
        assert(line@ =~= seq![]);
    }
    #[verifier::loop_isolation(false)]
    for i in 0..n
        invariant
            answer_from(stdout@, 0, seq![]) == answer_from(stdout@, i as int, line@),
    {
        let ch = stdout.get_char(i);
        if ch == '\n' {
            if let Some(a) = answer_of_line(line.as_str()) {
                return a;
            }
            line = String::new();
            proof {
                assert(line@ =~= seq![]);
            }
        } else {
            line.push(ch);
        }
    }
    match answer_of_line(line.as_str()) {
        Some(a) => a,
        None => Err(SolveError::NoVerdict),
    }
}

} // verus!
