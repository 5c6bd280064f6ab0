//! What the solvers are asked, and what their answers mean.

use ziver::checker::solver::cvc5::{read_answer, Cvc5ffBackend};
use ziver::checker::solver::z3::{verdict, SolveStatus, Z3NiaBackend};
use ziver::checker::solver::{
    backend_from_config, check_with_solver, cvc5_question, SmtBackend, SolveError,
};
use ziver::checker::symbolic::expr::{BoolExpr, SymExpr, SymType, FIELD_MODULUS};
use ziver::utils::derive_config;

fn var(name: &str, ty: SymType) -> SymExpr {
    SymExpr::Var(name.to_string(), ty)
}

fn field(name: &str) -> SymExpr {
    var(name, SymType::F)
}

fn byte(name: &str) -> SymExpr {
    var(name, SymType::Uint(8))
}

fn num(k: i128) -> SymExpr {
    SymExpr::Int(k)
}

fn sat(f: BoolExpr) -> Result<bool, SolveError> {
    check_with_solver(&f, &SmtBackend::Z3Nia)
}

fn script(f: BoolExpr) -> Result<String, SolveError> {
    Z3NiaBackend::new().script_for(&f)
}

#[test]
fn z3_decides_formulas() {
    assert_eq!(sat(BoolExpr::Bool(true)), Ok(true));
    assert_eq!(sat(BoolExpr::Bool(false)), Ok(false));
    assert_eq!(sat(BoolExpr::Eq(byte("x"), num(255))), Ok(true));
    assert_eq!(sat(BoolExpr::Gt(byte("x"), num(255))), Ok(false));
    assert_eq!(sat(BoolExpr::Lt(byte("x"), num(0))), Ok(false));
    assert_eq!(sat(BoolExpr::Ge(field("x"), num(FIELD_MODULUS))), Ok(false));
    let both = BoolExpr::And(vec![
        BoolExpr::Eq(byte("x") + byte("y"), num(510)),
        BoolExpr::Ne(byte("x"), byte("y")),
    ]);
    assert_eq!(sat(both), Ok(false));
}

#[test]
fn z3_reasons_modulo_the_field() {
    let sum = (field("x") + field("y")).mod_field();
    let f = BoolExpr::And(vec![
        BoolExpr::Eq(field("x"), num(FIELD_MODULUS - 1)),
        BoolExpr::Eq(field("y"), num(2)),
        BoolExpr::Ne(sum, num(1)),
    ]);
    assert_eq!(sat(f), Ok(false));
    let q = BoolExpr::And(vec![
        BoolExpr::Eq(byte("x"), num(7)),
        BoolExpr::Ne(byte("x") / num(2), num(3)),
    ]);
    assert_eq!(sat(q), Ok(false));
}

#[test]
fn a_second_question_starts_afresh() {
    assert_eq!(sat(BoolExpr::Eq(byte("x"), num(1))), Ok(true));
    assert_eq!(sat(BoolExpr::Eq(byte("x"), num(2))), Ok(true));
    assert_eq!(sat(BoolExpr::Eq(field("x"), num(300))), Ok(true));
}

#[test]
fn z3_scripts_declare_bound_and_assert() {
    assert_eq!(
        script(BoolExpr::Eq(byte("x"), num(-3))).unwrap(),
        "(declare-const v0 Int)\n(assert (>= v0 (- 3)))\n(assert (<= v0 (- 3)))\n\
         (assert (= v0 (- 3)))\n"
            .replace("(>= v0 (- 3))", "(>= v0 0)")
    );
    assert_eq!(
        script(BoolExpr::Le(byte("x"), var("y", SymType::Bool))).unwrap(),
        "(declare-const v0 Int)\n(declare-const v1 Int)\n(assert (>= v0 0))\n\
         (assert (<= v0 255))\n(assert (>= v1 0))\n(assert (<= v1 1))\n(assert (<= v0 v1))\n"
    );
}

#[test]
fn an_idle_reduction_is_not_written() {
    let small = BoolExpr::Eq(byte("x").mod_field(), num(1));
    assert!(!script(small).unwrap().contains("mod"));
    let large = BoolExpr::Eq((field("x") + field("y")).mod_field(), num(1));
    assert!(script(large).unwrap().contains("(mod (+ v0 v1) 2013265921)"));
    let bounded = BoolExpr::And(vec![
        BoolExpr::Eq((field("x") + field("y")).mod_field(), num(1)),
        BoolExpr::Range { value: field("x"), min: 0, max: 255, bits: Some(8) },
        BoolExpr::Range { value: field("y"), min: 0, max: 255, bits: Some(8) },
    ]);
    assert!(!script(bounded).unwrap().contains("mod"));
}

#[test]
fn negations_and_branches_give_no_hints() {
    let is = |k: i128| BoolExpr::Eq(byte("x"), num(k));
    assert_eq!(sat(is(1).not()), Ok(true));
    assert_eq!(sat(BoolExpr::And(vec![is(1).not(), is(0)])), Ok(true));
    assert_eq!(sat(BoolExpr::And(vec![is(1).not(), is(1)])), Ok(false));
    let range = || BoolExpr::Range { value: byte("x"), min: 0, max: 3, bits: Some(2) };
    let either = || BoolExpr::Or(vec![range(), is(9)]);
    assert_eq!(sat(BoolExpr::And(vec![either(), BoolExpr::Gt(byte("x"), num(5))])), Ok(true));
    assert_eq!(sat(BoolExpr::And(vec![either(), BoolExpr::Gt(byte("x"), num(9))])), Ok(false));
    assert_eq!(sat(range().not()), Ok(true));
    assert!(script(either()).unwrap().contains("(assert (<= v0 255))"));
    assert!(script(range()).unwrap().contains("(assert (<= v0 3))"));
}

#[test]
fn wide_sorts_are_bounded_too() {
    let wide = |name: &str| var(name, SymType::Uint(64));
    let square = BoolExpr::And(vec![
        BoolExpr::Eq(wide("y"), num(1i128 << 32)),
        BoolExpr::Eq(wide("x"), wide("y") * wide("y")),
    ]);
    assert_eq!(sat(square), Ok(false));
    let s = script(BoolExpr::Eq(wide("x"), wide("y"))).unwrap();
    assert!(s.contains("(assert (<= v0 18446744073709551615))"), "{}", s);
}

#[test]
fn an_asserted_range_is_a_hint() {
    let range = BoolExpr::Range { value: field("x"), min: 0, max: 9, bits: Some(4) };
    let z = Z3NiaBackend::new().assert_bool(&range).unwrap();
    assert_eq!(
        z.build_script(),
        "(declare-const v0 Int)\n(assert (>= v0 0))\n(assert (<= v0 9))\n\
         (assert (and (>= v0 0) (<= v0 9)))\n"
    );
    assert_eq!(z.check(&BoolExpr::Gt(field("x"), num(9))), Ok(false));
}

#[test]
fn z3_refuses_what_it_cannot_write() {
    let f = BoolExpr::Eq(byte("x"), field("x"));
    assert_eq!(script(f), Err(SolveError::InconsistentSort));
    let f = BoolExpr::Eq(byte("x"), num(1i128 << 70));
    assert_eq!(sat(f), Err(SolveError::ConstantTooLarge));
    let f = BoolExpr::Range { value: field("x"), min: 0, max: 1i128 << 70, bits: None };
    assert_eq!(sat(f), Err(SolveError::BoundTooLarge));
}

#[test]
fn answers_have_a_meaning() {
    assert_eq!(verdict(SolveStatus::Sat), Ok(true));
    assert_eq!(verdict(SolveStatus::Unsat), Ok(false));
    assert_eq!(verdict(SolveStatus::Unknown), Err(SolveError::Unknown));
}

#[test]
fn configurations_select_back_ends() {
    let z3 = backend_from_config(&derive_config("z3", true, "cmd".to_string()));
    assert!(matches!(z3, SmtBackend::Z3Nia));
    let cvc5 = backend_from_config(&derive_config("cvc5", true, "cmd".to_string()));
    assert!(matches!(&cvc5, SmtBackend::Cvc5Ff { cmd, relaxed: false } if cmd == "cmd"));
    assert_eq!(check_with_solver(&BoolExpr::Bool(true), &cvc5), Err(SolveError::External));
}

fn ff(f: BoolExpr) -> Result<String, SolveError> {
    Cvc5ffBackend::new(17).script_for(&f)
}

/// The conditions of a script.
fn asserts(f: BoolExpr) -> Vec<String> {
    ff(f)
        .unwrap()
        .lines()
        .filter(|l| l.starts_with("(assert "))
        .map(|l| l.to_string())
        .collect()
}

#[test]
fn cvc5_scripts_are_over_a_finite_field() {
    assert_eq!(
        ff(BoolExpr::Eq(field("x"), num(3))).unwrap(),
        "(set-logic QF_FF)\n(define-sort F () (_ FiniteField 17))\n\n(declare-fun x () F)\n\n\
         (assert (= x (as ff3 F)))\n(check-sat)\n(exit)\n"
    );
    assert_eq!(
        ff(BoolExpr::Bool(true)).unwrap(),
        "(set-logic QF_FF)\n(define-sort F () (_ FiniteField 17))\n\n(assert true)\n\
         (check-sat)\n(exit)\n"
    );
    assert!(cvc5_question(&BoolExpr::Bool(true)).unwrap().contains("FiniteField 2013265921"));
}

#[test]
fn cvc5_terms_use_field_operations() {
    let one = |f: BoolExpr| asserts(f).remove(0);
    let eq = |t: SymExpr| BoolExpr::Eq(t, num(0));
    assert_eq!(one(eq(field("x") + field("y"))), "(assert (= (ff.add x y) (as ff0 F)))");
    assert_eq!(one(eq(field("x") * field("y"))), "(assert (= (ff.mul x y) (as ff0 F)))");
    assert_eq!(
        one(eq(field("x") - field("y"))),
        "(assert (= (ff.add x (ff.neg y)) (as ff0 F)))"
    );
    assert_eq!(
        one(eq(field("x") / field("y"))),
        "(assert (= (ff.mul x (ff.inv y)) (as ff0 F)))"
    );
    assert_eq!(
        one(eq(SymExpr::Neg(Box::new(field("x"))))),
        "(assert (= (ff.neg x) (as ff0 F)))"
    );
    assert_eq!(
        one(eq(SymExpr::Mod(Box::new(field("x")), Box::new(num(17))))),
        "(assert (= x (as ff0 F)))"
    );
    assert_eq!(
        one(BoolExpr::Ne(field("x"), num(1))),
        "(assert (not (= x (as ff1 F))))"
    );
    assert_eq!(
        one(eq(SymExpr::ite(BoolExpr::Bool(true), num(1), num(2)))),
        "(assert (= (ite true (as ff1 F) (as ff2 F)) (as ff0 F)))"
    );
    assert_eq!(
        one(BoolExpr::Or(vec![BoolExpr::Bool(true), BoolExpr::Bool(false)])),
        "(assert (or true false))"
    );
    assert_eq!(one(BoolExpr::Bool(true).not()), "(assert (not true))");
}

#[test]
fn cvc5_conjunctions_are_split() {
    let f = BoolExpr::And(vec![
        BoolExpr::Bool(true),
        BoolExpr::And(vec![BoolExpr::Bool(false), BoolExpr::Bool(true)]),
    ]);
    assert_eq!(asserts(f), vec!["(assert true)", "(assert false)", "(assert true)"]);
    assert!(asserts(BoolExpr::And(vec![])).is_empty());
}

#[test]
fn cvc5_bits_are_zero_or_one() {
    let f = BoolExpr::Eq(var("s", SymType::Bool), num(1));
    assert_eq!(
        asserts(f),
        vec!["(assert (or (= s (as ff0 F)) (= s (as ff1 F))))", "(assert (= s (as ff1 F)))"]
    );
}

#[test]
fn cvc5_ranges_are_sums_of_bits() {
    let f = BoolExpr::Range { value: field("x"), min: 0, max: 3, bits: Some(2) };
    let a = asserts(f);
    assert_eq!(a.len(), 3);
    assert_eq!(
        a[2],
        "(assert (= x (ff.add (ff.mul (as ff1 F) __range_b0_0_0) (ff.mul (as ff2 F) \
         __range_b0_0_1))))"
    );
    let f = BoolExpr::Range { value: field("x"), min: 0, max: 511, bits: Some(9) };
    let a = asserts(f);
    assert_eq!(a.len(), 10);
    assert!(a[9].contains("(ff.mul (as ff256 F) (ff.mul (as ff1 F) __range_b0_1_0))"));
}

#[test]
fn cvc5_comparisons_are_offsets() {
    let f = |b: BoolExpr| Cvc5ffBackend::new(FIELD_MODULUS).script_for(&b).unwrap();
    let le = f(BoolExpr::Le(field("x"), num(7)));
    assert!(le.contains("(assert (= (ff.add x (ff.neg (as ff0 F))) "), "{}", le);
    assert!(le.contains("__range_b0_0_2"), "{}", le);
    assert!(!le.contains("__range_b0_0_3"), "{}", le);
    assert!(!le.contains("__range_b1"), "{}", le);
    let le = f(BoolExpr::Le(field("x"), num(3)));
    assert!(le.contains("__range_b0_0_1") && !le.contains("__range_b0_0_2"), "{}", le);
    let known = f(BoolExpr::And(vec![
        BoolExpr::Range { value: field("x"), min: 0, max: 255, bits: Some(8) },
        BoolExpr::Le(field("x"), num(300)),
    ]));
    assert!(known.ends_with("(assert true)\n(check-sat)\n(exit)\n"), "{}", known);
    let never = f(BoolExpr::Gt(num(0), field("x")));
    assert!(never.ends_with("(assert false)\n(check-sat)\n(exit)\n"), "{}", never);
}

#[test]
fn cvc5_bounds_within_a_width_take_two_decompositions() {
    let s = Cvc5ffBackend::new(FIELD_MODULUS)
        .script_for(&BoolExpr::Le(field("x"), num(5)))
        .unwrap();
    assert!(s.contains("(assert (and (= (ff.add x (ff.neg (as ff0 F))) "), "{}", s);
    assert!(s.contains("(= (ff.add (as ff5 F) (ff.neg x)) "), "{}", s);
    assert!(s.contains("__range_b0_0_2") && s.contains("__range_b1_0_2"), "{}", s);
    assert!(!s.contains("__range_b0_0_3") && !s.contains("__range_b2"), "{}", s);
    let small = Cvc5ffBackend::new(13).script_for(&BoolExpr::Le(field("x"), num(5))).unwrap();
    assert!(small.contains("(= (ff.add (as ff5 F) (ff.neg x)) "), "{}", small);
    let wide = Cvc5ffBackend::new(FIELD_MODULUS)
        .script_for(&BoolExpr::Le(field("x"), num(1 << 28)));
    assert_eq!(wide, Err(SolveError::RangeBits));
}

#[test]
fn cvc5_lower_bounds_follow_the_hint() {
    let f = |b: BoolExpr| Cvc5ffBackend::new(FIELD_MODULUS).script_for(&b).unwrap();
    let range = || BoolExpr::Range { value: field("x"), min: 0, max: 255, bits: Some(8) };
    let gt = f(BoolExpr::And(vec![range(), BoolExpr::Gt(field("x"), num(7))]));
    assert!(gt.contains("(assert (= (ff.add x (ff.neg (as ff8 F))) "), "{}", gt);
    assert!(gt.contains("__range_b1_0_7") && !gt.contains("__range_b1_1"), "{}", gt);
    let swapped = f(BoolExpr::And(vec![range(), BoolExpr::Le(num(250), field("x"))]));
    assert!(swapped.contains("(= (ff.add x (ff.neg (as ff250 F))) "), "{}", swapped);
    assert!(swapped.contains("__range_b1_0_2"), "{}", swapped);
    assert!(!swapped.contains("__range_b1_0_3"), "{}", swapped);
}

#[test]
fn cvc5_lower_bounds_without_a_hint_take_the_greatest_width() {
    let f = |b: BoolExpr| Cvc5ffBackend::new(FIELD_MODULUS).script_for(&b).unwrap();
    let gt = f(BoolExpr::Gt(field("x"), num(255)));
    assert!(gt.contains("(assert (= (ff.add x (ff.neg (as ff256 F))) "), "{}", gt);
    assert!(gt.contains("__range_b0_2_7") && !gt.contains("__range_b0_3"), "{}", gt);
    let ge = f(BoolExpr::Ge(field("x"), num(0)));
    assert!(ge.contains("(assert (= (ff.add x (ff.neg (as ff0 F))) "), "{}", ge);
    assert!(ge.contains("__range_b0_2_7"), "{}", ge);
    let small = Cvc5ffBackend::new(17).script_for(&BoolExpr::Ge(field("x"), num(3))).unwrap();
    assert!(small.contains("__range_b0_2_7"), "{}", small);
}

#[test]
fn cvc5_hints_last_through_a_conjunction() {
    let f = |b: BoolExpr| Cvc5ffBackend::new(FIELD_MODULUS).script_for(&b).unwrap();
    let range = || BoolExpr::Range { value: field("x"), min: 0, max: 255, bits: Some(8) };
    let more = || BoolExpr::Gt(field("x"), num(7));
    // Within an alternative, the rest of its conjunction knows the width.
    let inner = f(BoolExpr::Or(vec![
        BoolExpr::And(vec![range(), more()]),
        BoolExpr::Eq(field("y"), num(1)),
    ]));
    assert!(inner.contains("__range_b1_0_7") && !inner.contains("__range_b1_1"), "{}", inner);
    let nested = f(BoolExpr::And(vec![range(), more()]).not());
    assert!(nested.contains("__range_b1_0_7") && !nested.contains("__range_b1_1"), "{}", nested);
    // Behind an alternative, a negation or the condition of a term nothing is known.
    let branch = f(BoolExpr::And(vec![
        BoolExpr::Or(vec![range(), BoolExpr::Bool(true)]),
        more(),
    ]));
    assert!(branch.contains("__range_b1_2_7"), "{}", branch);
    let other = f(BoolExpr::Or(vec![range(), more()]));
    assert!(other.contains("__range_b1_2_7"), "{}", other);
    let negated = f(BoolExpr::And(vec![range().not(), more()]));
    assert!(negated.contains("__range_b1_2_7"), "{}", negated);
    let chosen = SymExpr::Ite(Box::new(range()), Box::new(num(1)), Box::new(num(0)));
    let condition = f(BoolExpr::And(vec![BoolExpr::Eq(chosen, num(1)), more()]));
    assert!(condition.contains("__range_b1_2_7"), "{}", condition);
}

#[test]
fn cvc5_refuses_what_it_cannot_write() {
    let big = |b: BoolExpr| Cvc5ffBackend::new(FIELD_MODULUS).script_for(&b).err();
    let range = |min, max, bits| BoolExpr::Range { value: field("x"), min, max, bits };
    assert_eq!(
        big(BoolExpr::Eq(SymExpr::Mod(Box::new(field("x")), Box::new(num(5))), num(0))),
        Some(SolveError::ModUnsupported)
    );
    assert_eq!(big(range(1, 3, Some(2))), Some(SolveError::NegativeRange));
    assert_eq!(big(range(0, 3, None)), Some(SolveError::MissingBits));
    assert_eq!(big(range(0, 4, Some(2))), Some(SolveError::RangeBound));
    assert_eq!(big(range(0, (1 << 25) - 1, Some(25))), Some(SolveError::RangeBits));
    assert_eq!(big(BoolExpr::Lt(field("x"), num(3))), Some(SolveError::OrderUnsupported));
    assert_eq!(big(BoolExpr::Le(field("x"), field("y"))), Some(SolveError::OrderUnsupported));
    assert_eq!(
        big(BoolExpr::Le(field("x"), num(FIELD_MODULUS / 2))),
        Some(SolveError::OrderConstant)
    );
    assert_eq!(
        big(BoolExpr::Eq(var("s", SymType::Bool), field("s"))),
        Some(SolveError::InconsistentSort)
    );
}

#[test]
fn the_first_verdict_in_the_output_counts() {
    assert_eq!(read_answer(true, "sat\n"), Ok(true));
    assert_eq!(read_answer(true, "warning\n  unsat  \nsat"), Ok(false));
    assert_eq!(read_answer(true, "unknown"), Err(SolveError::Unknown));
    assert_eq!(read_answer(true, "saturated"), Err(SolveError::NoVerdict));
    assert_eq!(read_answer(true, ""), Err(SolveError::NoVerdict));
    assert_eq!(read_answer(false, "sat"), Err(SolveError::ProcessFailed));
}
