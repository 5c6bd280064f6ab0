//! Terms and formulas: folding, printing, canonical order, intervals and simplification.

use ziver::checker::symbolic::canonical::{canonicalize_bool_expr, canonicalize_symexpr};
use ziver::checker::symbolic::expr::{BoolExpr, SymExpr, SymType, FIELD_MODULUS};
use ziver::checker::symbolic::range::{symexpr_range, symtype_bit_width, symtype_range};
use ziver::checker::symbolic::simplify::{simplify_bool_expr, tighten_range, BoolSimplifyResult};
use ziver::checker::symbolic::state::project_var_name;
use ziver::name_map::NameMap;

fn field(name: &str) -> SymExpr {
    SymExpr::Var(name.to_string(), SymType::F)
}

fn byte(name: &str) -> SymExpr {
    SymExpr::Var(name.to_string(), SymType::Uint(8))
}

fn num(k: i128) -> SymExpr {
    SymExpr::Int(k)
}

fn in_byte(e: SymExpr) -> BoolExpr {
    BoolExpr::Range { value: e, min: 0, max: 255, bits: Some(8) }
}

#[test]
fn sums_are_flattened_and_folded() {
    let x = field("x");
    let y = field("y");
    assert_eq!(num(2) + num(3), num(5));
    assert_eq!(x.clone() + num(0), x.clone());
    assert_eq!(
        (num(1) + x.clone()) + (y.clone() + num(4)),
        SymExpr::Add(vec![field("x"), field("y"), num(5)])
    );
    assert_eq!(num(0) + num(0), num(0));
    assert_eq!(x.clone() + &y, SymExpr::Add(vec![field("x"), field("y")]));
}

#[test]
fn products_put_the_constant_first() {
    let x = field("x");
    assert_eq!(x.clone() * num(1), field("x"));
    assert_eq!(x.clone() * num(0), num(0));
    assert_eq!(
        (x.clone() * num(2)) * (num(3) * field("y")),
        SymExpr::Mul(vec![num(6), field("x"), field("y")])
    );
    assert_eq!(SymExpr::times(num(2), num(3)), num(6));
    assert_eq!(x * &num(2), SymExpr::Mul(vec![num(2), field("x")]));
}

#[test]
fn products_of_constants_saturate() {
    assert_eq!(SymExpr::times(num(i128::MAX), num(2)), num(i128::MAX));
    assert_eq!(SymExpr::times(num(i128::MAX), num(-2)), num(i128::MIN));
}

#[test]
fn differences_and_quotients_fold_constants() {
    let x = field("x");
    assert_eq!(num(7) - num(9), num(-2));
    assert_eq!(x.clone() - num(0), field("x"));
    assert_eq!(x.clone() - &num(1), SymExpr::Sub(Box::new(field("x")), Box::new(num(1))));
    assert_eq!(num(-7) / num(2), num(-4));
    assert_eq!(num(-7) / num(-2), num(4));
    assert_eq!(num(7) / &num(2), num(3));
    assert_eq!(num(1) / num(0), SymExpr::Div(Box::new(num(1)), Box::new(num(0))));
    assert_eq!(x / num(2), SymExpr::Div(Box::new(field("x")), Box::new(num(2))));
}

#[test]
fn folding_reports_overflow() {
    assert_eq!(SymExpr::try_add(num(i128::MAX), num(1)), None);
    assert_eq!(SymExpr::try_sub(num(i128::MIN), num(1)), None);
    assert_eq!(SymExpr::try_div(num(i128::MIN), num(-1)), None);
    assert_eq!(SymExpr::try_add(num(i128::MAX), num(-1)), Some(num(i128::MAX - 1)));
    assert_eq!(SymExpr::try_sub(num(3), num(1)), Some(num(2)));
    assert_eq!(SymExpr::try_div(num(9), num(4)), Some(num(2)));
}

#[test]
fn numbers_become_terms() {
    assert_eq!(SymExpr::from(5i64), num(5));
    assert_eq!(SymExpr::from(-5i128), num(-5));
}

#[test]
fn comparisons_are_built_as_they_stand() {
    assert_eq!(field("x").eq_to(num(1)), BoolExpr::Eq(field("x"), num(1)));
    assert_eq!(SymExpr::ne(field("x"), num(1)), BoolExpr::Ne(field("x"), num(1)));
    assert_eq!(SymExpr::le(field("x"), num(1)), BoolExpr::Le(field("x"), num(1)));
    assert_eq!(SymExpr::lt(field("x"), num(1)), BoolExpr::Lt(field("x"), num(1)));
    assert_eq!(SymExpr::ge(field("x"), num(1)), BoolExpr::Ge(field("x"), num(1)));
    assert_eq!(SymExpr::gt(field("x"), num(1)), BoolExpr::Gt(field("x"), num(1)));
    assert_eq!(BoolExpr::Bool(true).not(), BoolExpr::Not(Box::new(BoolExpr::Bool(true))));
}

#[test]
fn conjunctions_and_disjunctions_are_flattened_one_level() {
    let a = BoolExpr::Eq(field("x"), num(0));
    let b = BoolExpr::Eq(field("x"), num(1));
    let c = BoolExpr::Eq(field("x"), num(2));
    assert_eq!(BoolExpr::and(vec![]), BoolExpr::Bool(true));
    assert_eq!(BoolExpr::or(vec![]), BoolExpr::Bool(false));
    assert_eq!(BoolExpr::and(vec![a.clone()]), a.clone());
    assert_eq!(
        BoolExpr::and(vec![BoolExpr::And(vec![a.clone(), b.clone()]), c.clone()]),
        BoolExpr::And(vec![a.clone(), b.clone(), c.clone()])
    );
    assert_eq!(
        BoolExpr::or(vec![a.clone(), BoolExpr::Or(vec![b.clone(), c.clone()])]),
        BoolExpr::Or(vec![a, b, c])
    );
}

#[test]
fn terms_print_in_prefix_notation() {
    let x = field("x");
    assert_eq!(SymType::F.to_text(), "F");
    assert_eq!(SymType::Uint(8).to_text(), "uint(8)");
    assert_eq!(SymType::Int(32).to_text(), "int(32)");
    assert_eq!(SymType::Bool.to_text(), "bool");
    assert_eq!(num(-3).to_text(), "-3");
    assert_eq!(x.to_text(), "x : F");
    assert_eq!(SymExpr::Add(vec![]).to_text(), "0");
    assert_eq!(SymExpr::Mul(vec![]).to_text(), "1");
    assert_eq!((field("x") + num(1)).to_text(), "(+ x : F 1)");
    assert_eq!((field("x") * num(2)).to_text(), "(* 2 x : F)");
    assert_eq!((field("x") - field("y")).to_text(), "(- x : F y : F)");
    assert_eq!((field("x") / num(2)).to_text(), "(div x : F 2)");
    assert_eq!(SymExpr::Neg(Box::new(field("x"))).to_text(), "(- x : F)");
    assert_eq!(
        SymExpr::ite(BoolExpr::Bool(true), num(1), num(0)).to_text(),
        "(ite true 1 0)"
    );
}

#[test]
fn formulas_print_in_prefix_notation() {
    let e = BoolExpr::Eq(field("x"), num(1));
    assert_eq!(e.to_text(), "(= x : F 1)");
    assert_eq!(BoolExpr::Ne(field("x"), num(1)).to_text(), "(not (= x : F 1))");
    assert_eq!(BoolExpr::Le(num(0), num(1)).to_text(), "(<= 0 1)");
    assert_eq!(BoolExpr::Lt(num(0), num(1)).to_text(), "(< 0 1)");
    assert_eq!(BoolExpr::Ge(num(0), num(1)).to_text(), "(>= 0 1)");
    assert_eq!(BoolExpr::Gt(num(0), num(1)).to_text(), "(> 0 1)");
    assert_eq!(BoolExpr::And(vec![]).to_text(), "true");
    assert_eq!(BoolExpr::Or(vec![]).to_text(), "false");
    assert_eq!(BoolExpr::And(vec![e.clone(), BoolExpr::Bool(false)]).to_text(), "(and (= x : F 1) false)");
    assert_eq!(BoolExpr::Or(vec![e.clone(), e.clone()]).to_text(), "(or (= x : F 1) (= x : F 1))");
    assert_eq!(e.not().to_text(), "(not (= x : F 1))");
}

#[test]
fn keys_tell_terms_apart() {
    let x = field("x");
    let terms = vec![
        num(-7),
        num(7),
        x.clone(),
        byte("x"),
        field("x,F"),
        x.clone() + num(1),
        num(1) + x.clone() + byte("y"),
        x.clone() * byte("y"),
        x.clone() - num(1),
        x.clone() / num(3),
        x.clone().mod_field(),
        SymExpr::Neg(Box::new(num(7))),
        SymExpr::ite(in_byte(byte("y")), num(1), num(0)),
        SymExpr::ite(in_byte(byte("z")), num(1), num(0)),
    ];
    for (i, a) in terms.iter().enumerate() {
        for (j, b) in terms.iter().enumerate() {
            assert_eq!(a.key() == b.key(), i == j);
        }
    }
    let formulas = vec![
        BoolExpr::Bool(true),
        BoolExpr::Bool(true).not(),
        BoolExpr::And(vec![in_byte(num(3)), BoolExpr::Bool(true)]),
        BoolExpr::Or(vec![in_byte(num(3)), BoolExpr::Bool(true)]),
        BoolExpr::Or(vec![]),
        BoolExpr::Eq(num(1), num(2)),
        BoolExpr::Ne(num(1), num(2)),
        BoolExpr::Range { value: num(1), min: -1, max: 1, bits: None },
        BoolExpr::Range { value: num(1), min: -1, max: 1, bits: Some(1) },
    ];
    for (i, a) in formulas.iter().enumerate() {
        for (j, b) in formulas.iter().enumerate() {
            assert_eq!(a.key() == b.key(), i == j);
        }
    }
}

#[test]
fn equality_is_structural() {
    let a = field("x") + byte("y");
    assert!(a.same_as(&a.clone()));
    assert!(!a.same_as(&(field("x") + byte("z"))));
    assert!(!field("x").same_as(&byte("x")));
    let f = BoolExpr::Eq(a.clone(), num(1));
    assert!(f.same_as(&f.clone()));
    assert!(!f.same_as(&BoolExpr::Ne(a, num(1))));
}

#[test]
fn truth_values_become_bits() {
    assert_eq!(
        BoolExpr::Bool(true).as_int(),
        SymExpr::ite(BoolExpr::Bool(true), num(1), num(0))
    );
    assert_eq!(
        field("x").mod_field(),
        SymExpr::Mod(Box::new(field("x")), Box::new(num(FIELD_MODULUS)))
    );
}

#[test]
fn canonical_order_ignores_the_order_of_operands() {
    let a = field("x") + byte("y");
    let b = byte("y") + field("x");
    assert_ne!(a, b);
    assert_eq!(canonicalize_symexpr(&a), canonicalize_symexpr(&b));
    let p = field("x") * (byte("y") + field("z"));
    let q = (field("z") + byte("y")) * field("x");
    assert_eq!(canonicalize_symexpr(&p), canonicalize_symexpr(&q));
    assert_eq!(canonicalize_symexpr(&SymExpr::Add(vec![])), num(0));
    assert_eq!(canonicalize_symexpr(&SymExpr::Mul(vec![])), num(1));
    assert_eq!(canonicalize_symexpr(&SymExpr::Add(vec![field("x")])), field("x"));
    let f = BoolExpr::And(vec![BoolExpr::Bool(true), BoolExpr::Eq(a, num(0))]);
    let g = BoolExpr::And(vec![BoolExpr::Eq(b, num(0)), BoolExpr::Bool(true)]);
    assert_eq!(canonicalize_bool_expr(&f), canonicalize_bool_expr(&g));
    assert_eq!(canonicalize_bool_expr(&BoolExpr::And(vec![])), BoolExpr::Bool(true));
    assert_eq!(canonicalize_bool_expr(&BoolExpr::Or(vec![])), BoolExpr::Bool(false));
}

#[test]
fn sorts_have_intervals_and_widths() {
    assert_eq!(symtype_range(&SymType::Bool), Some((0, 1)));
    assert_eq!(symtype_range(&SymType::Uint(8)), Some((0, 255)));
    assert_eq!(symtype_range(&SymType::Int(8)), Some((-128, 127)));
    assert_eq!(symtype_range(&SymType::F), Some((0, FIELD_MODULUS - 1)));
    assert_eq!(symtype_range(&SymType::Uint(0)), None);
    assert_eq!(symtype_range(&SymType::Uint(126)), Some((0, (1i128 << 126) - 1)));
    assert_eq!(symtype_range(&SymType::Uint(127)), None);
    assert_eq!(symtype_bit_width(&SymType::Bool), Some(1));
    assert_eq!(symtype_bit_width(&SymType::Uint(24)), Some(24));
    assert_eq!(symtype_bit_width(&SymType::Int(32)), Some(32));
    assert_eq!(symtype_bit_width(&SymType::F), None);
    assert_eq!(symtype_bit_width(&SymType::Uint(128)), None);
}

#[test]
fn intervals_of_terms_are_conservative() {
    let none: NameMap<(i128, i128)> = NameMap::new();
    let mut hints: NameMap<(i128, i128)> = NameMap::new();
    hints.set("x".to_string(), (3, 5));
    assert_eq!(symexpr_range(&num(4), &none), Some((4, 4)));
    assert_eq!(symexpr_range(&field("x"), &hints), Some((3, 5)));
    assert_eq!(symexpr_range(&byte("y"), &hints), Some((0, 255)));
    assert_eq!(symexpr_range(&(byte("y") + field("x")), &hints), Some((3, 260)));
    assert_eq!(symexpr_range(&(byte("y") * field("x")), &hints), Some((0, 1275)));
    assert_eq!(symexpr_range(&(byte("y") - field("x")), &hints), Some((-5, 252)));
    assert_eq!(symexpr_range(&(byte("y") / field("x")), &hints), Some((0, 85)));
    assert_eq!(symexpr_range(&(byte("y") / byte("z")), &hints), None);
    let div = |a: SymExpr, b: SymExpr| SymExpr::Div(Box::new(a), Box::new(b));
    assert_eq!(symexpr_range(&div(num(-7), num(2)), &none), Some((-4, -4)));
    assert_eq!(symexpr_range(&div(num(-7), num(-2)), &none), Some((4, 4)));
    assert_eq!(symexpr_range(&div(num(7), num(-2)), &none), Some((-3, -3)));
    let signed = SymExpr::Var("s".to_string(), SymType::Int(8));
    assert_eq!(symexpr_range(&div(signed, field("x")), &hints), Some((-43, 42)));
    assert_eq!(symexpr_range(&div(num(i128::MIN), num(-1)), &none), None);
    assert_eq!(symexpr_range(&div(num(i128::MIN), num(i128::MIN)), &none), Some((1, 1)));
    assert_eq!(symexpr_range(&div(num(5), num(i128::MIN)), &none), Some((0, 0)));
    assert_eq!(symexpr_range(&div(num(-5), num(i128::MIN)), &none), Some((1, 1)));
    assert_eq!(symexpr_range(&SymExpr::Neg(Box::new(field("x"))), &hints), Some((-5, -3)));
    assert_eq!(symexpr_range(&byte("y").mod_field(), &none), Some((0, FIELD_MODULUS - 1)));
    assert_eq!(
        symexpr_range(&SymExpr::ite(BoolExpr::Bool(true), field("x"), num(9)), &hints),
        Some((3, 9))
    );
    assert_eq!(symexpr_range(&SymExpr::Mul(vec![]), &none), None);
    assert_eq!(symexpr_range(&SymExpr::Add(vec![]), &none), Some((0, 0)));
}

fn decided(cond: BoolExpr, hints: &mut NameMap<(i128, i128)>) -> Option<bool> {
    match simplify_bool_expr(cond, hints) {
        BoolSimplifyResult::Known(b) => Some(b),
        BoolSimplifyResult::Open(_) => None,
    }
}

fn rest(cond: BoolExpr, hints: &mut NameMap<(i128, i128)>) -> Option<BoolExpr> {
    match simplify_bool_expr(cond, hints) {
        BoolSimplifyResult::Known(_) => None,
        BoolSimplifyResult::Open(f) => Some(f),
    }
}

#[test]
fn simplification_decides_what_the_intervals_decide() {
    let mut hints: NameMap<(i128, i128)> = NameMap::new();
    assert_eq!(decided(in_byte(num(256)), &mut hints), Some(false));
    assert_eq!(decided(in_byte(num(255)), &mut hints), Some(true));
    assert_eq!(rest(in_byte(field("x")), &mut hints), Some(in_byte(field("x"))));
    assert_eq!(hints.get("x"), Some(&(0, 255)));
    assert_eq!(decided(in_byte(field("x")), &mut hints), Some(true));
    let out = BoolExpr::Range { value: field("x"), min: 256, max: 300, bits: None };
    assert_eq!(decided(out, &mut hints), Some(false));
    assert_eq!(decided(BoolExpr::Le(num(1), num(2)), &mut hints), Some(true));
    assert_eq!(decided(BoolExpr::Lt(num(2), num(2)), &mut hints), Some(false));
    assert_eq!(decided(BoolExpr::Ge(num(2), num(2)), &mut hints), Some(true));
    assert_eq!(decided(BoolExpr::Gt(num(2), num(2)), &mut hints), Some(false));
    assert_eq!(decided(BoolExpr::Eq(num(2), num(2)), &mut hints), Some(true));
    assert_eq!(decided(BoolExpr::Ne(num(2), num(2)), &mut hints), Some(false));
}

#[test]
fn simplification_drops_decided_parts() {
    let mut hints: NameMap<(i128, i128)> = NameMap::new();
    let open = BoolExpr::Eq(field("x"), field("y"));
    let t = BoolExpr::Bool(true);
    let f = BoolExpr::Bool(false);
    assert_eq!(
        rest(BoolExpr::And(vec![t.clone(), open.clone()]), &mut hints),
        Some(open.clone())
    );
    assert_eq!(
        rest(BoolExpr::Or(vec![f.clone(), open.clone()]), &mut hints),
        Some(open.clone())
    );
    assert_eq!(decided(BoolExpr::And(vec![]), &mut hints), Some(true));
    assert_eq!(decided(BoolExpr::Or(vec![]), &mut hints), Some(false));
    assert_eq!(decided(t.not(), &mut hints), Some(false));
    assert_eq!(decided(BoolExpr::And(vec![open, f]), &mut hints), Some(false));
}

#[test]
fn intervals_narrow() {
    let mut hints: NameMap<(i128, i128)> = NameMap::new();
    let x = "x".to_string();
    assert_eq!(tighten_range(&mut hints, &x, 0, 10), (false, false));
    assert_eq!(tighten_range(&mut hints, &x, 0, 10), (false, true));
    assert_eq!(tighten_range(&mut hints, &x, 5, 20), (false, false));
    assert_eq!(hints.get("x"), Some(&(5, 10)));
    assert_eq!(tighten_range(&mut hints, &x, 11, 20), (true, false));
    assert_eq!(tighten_range(&mut hints, &x, 1, 0), (true, false));
}

#[test]
fn sorts_of_variables_are_rewritten() {
    let e = field("x") + field("y");
    assert_eq!(
        e.rewrite_var_sort("x", &SymType::Uint(8)),
        SymExpr::Add(vec![byte("x"), field("y")])
    );
    let f = BoolExpr::Eq(field("x"), num(1));
    assert_eq!(f.rewrite_var_sort("x", &SymType::Uint(8)), BoolExpr::Eq(byte("x"), num(1)));
}

#[test]
fn projections_name_their_variable() {
    assert_eq!(project_var_name(&field("x")), Some("x".to_string()));
    assert_eq!(project_var_name(&SymExpr::Add(vec![field("x")])), Some("x".to_string()));
    assert_eq!(project_var_name(&SymExpr::Mul(vec![field("x")])), Some("x".to_string()));
    assert_eq!(
        project_var_name(&SymExpr::ite(BoolExpr::Bool(true), field("x"), field("x"))),
        Some("x".to_string())
    );
    assert_eq!(
        project_var_name(&SymExpr::ite(BoolExpr::Bool(true), field("x"), field("y"))),
        None
    );
    assert_eq!(project_var_name(&num(1)), None);
}
