//! Contexts, scopes, stores and symbolic states.

use std::rc::Rc;
use ziver::ast::helpers::QueryPathError;
use ziver::ast::{BinOp, Expr, Func, IOType, Item, LValue, LvTail, Stmt, Type};
use ziver::checker::solver::{check_with_solver, SmtBackend};
use ziver::checker::symbolic::builtins::{
    condition_of, mod_if_needed, product_safe_without_mod, split_on_bool_mul_eq_zero, sym_bounds,
    symtype_max_abs,
};
use ziver::checker::symbolic::context::{Context, MemoryEventKind, PathKind};
use ziver::checker::symbolic::error::ExecError;
use ziver::checker::symbolic::expr::{BoolExpr, SymExpr, SymType, FIELD_MODULUS};
use ziver::checker::symbolic::index::eval_index_const_or_err;
use ziver::checker::symbolic::init::init_context;
use ziver::checker::symbolic::place::{lvalue_to_expr, write_to_lvalue};
use ziver::checker::symbolic::resolve::InitError;
use ziver::checker::symbolic::scope::Scope;
use ziver::checker::symbolic::state::SymState;
use ziver::checker::symbolic::state_ops::{add_terms, symexpr_sort};
use ziver::checker::symbolic::store::{ShapeError, Store, StoreNode};
use ziver::checker::symbolic::value::SymValue;
use ziver::parser::parse_file;
use ziver::utils::module_resolver::Module;

fn program(src: &str) -> (Vec<Module>, Rc<Context>) {
    let file = parse_file(src).unwrap();
    let (mods, ctx) =
        init_context(vec![Module { path: "main.cz".to_string(), file }]).unwrap();
    (mods, Rc::new(ctx))
}

fn fresh() -> SymState {
    SymState::new(program("Struct S { a: field, }").1)
}

fn var(name: &str, ty: SymType) -> SymExpr {
    SymExpr::Var(name.to_string(), ty)
}

fn num(k: i128) -> SymExpr {
    SymExpr::Int(k)
}

fn builtin(name: &str) -> Type {
    Type::Path { segments: vec![name.to_string()], ref_id: None }
}

fn eq(a: SymExpr, k: i128) -> BoolExpr {
    BoolExpr::Eq(a, num(k))
}

#[test]
fn inner_bindings_shadow_outer_ones() {
    let mut s = Scope::new();
    s.insert_global("x".to_string(), 1);
    assert_eq!(s.resolve_name("x"), Some(1));
    s.push();
    s.insert_local("x".to_string(), 2);
    assert_eq!(s.resolve_name("x"), Some(2));
    s.push();
    s.insert_local("x".to_string(), 3);
    assert_eq!(s.resolve_name("x"), Some(3));
    s.pop();
    assert_eq!(s.resolve_name("x"), Some(2));
    s.pop();
    assert_eq!(s.resolve_name("x"), Some(1));
    assert_eq!(s.resolve_name("y"), None);
}

#[test]
fn programs_are_resolved() {
    let (mods, ctx) = program(
        "const u32 N = 3;
         Struct S { input a: field, b: [u8; 3], }
         Component S { Computation f(self, x: field) -> field { field y = x; return y; } }",
    );
    let sid = ctx.struct_id_by_name("S").unwrap();
    assert!(ctx.field_id_of(sid, "a").is_some());
    assert_eq!(ctx.field_id_of(sid, "nosuch"), None);
    let fid = ctx.resolve_method_on_struct(sid, "f").unwrap();
    assert_eq!(ctx.method_owner(fid), Some(sid));
    assert!(ctx.is_method_of(fid, sid));
    assert_eq!(ctx.func_def(fid).unwrap().name, "f");
    assert!(ctx.fn_sig(fid).is_some());
    match &mods[0].file.items[0] {
        Item::Const { id, .. } => assert_eq!(ctx.const_int(id.unwrap()), Some(3)),
        _ => panic!("not a constant"),
    }
    let ty = ctx.struct_type(sid).unwrap();
    assert_eq!(ctx.classify_type(&ty), Ok(PathKind::Struct(sid)));
    assert_eq!(ctx.classify_type(&builtin("u8")), Ok(PathKind::Builtin));
    assert!(ctx.classify_type(&builtin("Nope")).is_err());
}

#[test]
fn a_free_function_is_found_by_its_name() {
    let mut file = parse_file(
        "Struct S { a: field, }
         Component S { Computation g(self) -> field { return f(); } }",
    )
    .unwrap();
    let body = vec![Stmt::Return(Expr::Int(5))];
    let func = Func { id: None, name: "f".to_string(), params: vec![], ret: None, body };
    file.items.insert(0, Item::Function { id: None, func });
    let (mods, ctx) =
        init_context(vec![Module { path: "main.cz".to_string(), file }]).unwrap();
    let id = match &mods[0].file.items[0] {
        Item::Function { id, func } => {
            assert_eq!(func.id, *id);
            id.unwrap()
        }
        _ => panic!("not a function"),
    };
    assert_eq!(ctx.func_def(id).unwrap().name, "f");
    assert!(ctx.fn_sig(id).is_some());
    assert!(ctx.query_type(id).is_none());
    let sid = ctx.struct_id_by_name("S").unwrap();
    let g = ctx.func_def(ctx.resolve_method_on_struct(sid, "g").unwrap()).unwrap();
    match &g.body[0] {
        Stmt::Return(Expr::Call(callee, _)) => match &**callee {
            Expr::Path { ref_id, .. } => assert_eq!(*ref_id, Some(id)),
            _ => panic!("not a path"),
        },
        _ => panic!("not a call"),
    }
}

#[test]
fn identifiers_are_numbered_from_zero() {
    let (mods, ctx) = program(
        "const u32 N = 3;
         Struct S { input a: field, b: field, }
         Component S { Computation f(self, x: field) -> field { field y = x; return y; } }",
    );
    let items = &mods[0].file.items;
    assert!(matches!(&items[0], Item::Const { id: Some(0), .. }));
    let sid = match &items[1] {
        Item::Struct { id, fields, .. } => {
            assert_eq!(*id, Some(1));
            assert_eq!((fields[0].id, fields[1].id), (Some(2), Some(3)));
            id.unwrap()
        }
        _ => panic!("not a struct"),
    };
    assert!(matches!(&items[2], Item::Component { id: None, .. }));
    assert_eq!(ctx.resolve_method_on_struct(sid, "f"), Some(4));
    match &ctx.func_def(4).unwrap().body[0] {
        Stmt::VarDecl { id, .. } => assert_eq!(*id, Some(7)),
        _ => panic!("not a declaration"),
    }
    assert!(ctx.query_type(4).is_none());
    assert!(ctx.query_type(7).is_some());
    assert!(ctx.query_type(2).is_some());
}

fn init_fault(src: &str) -> Option<InitError> {
    let file = parse_file(src).unwrap();
    init_context(vec![Module { path: "main.cz".to_string(), file }]).err()
}

#[test]
fn programs_that_cannot_be_resolved_are_refused() {
    assert_eq!(init_fault("const u32 N = 1 + 2;"), Some(InitError::NonLiteralConst));
    assert_eq!(
        init_fault("Component C { Computation f() { } }"),
        Some(InitError::ComponentWithoutStruct)
    );
    assert_eq!(init_fault("Struct C { a: field, } Component C { }"), None);
}

#[test]
fn type_names_have_sorts() {
    let (_, ctx) = program("");
    let sort = |n: &str| ctx.builtin_type_to_sym_type(&builtin(n));
    assert_eq!(sort("field"), Some(SymType::F));
    assert_eq!(sort("F"), Some(SymType::F));
    assert_eq!(sort("bool"), Some(SymType::Bool));
    assert_eq!(sort("selector"), Some(SymType::Bool));
    assert_eq!(sort("u24"), Some(SymType::Uint(24)));
    assert_eq!(sort("Word"), Some(SymType::Uint(32)));
    assert_eq!(sort("i64"), Some(SymType::Int(64)));
    assert_eq!(sort("timestamp"), Some(SymType::Uint(64)));
    assert_eq!(sort("Nope"), None);
}

#[test]
fn operands_have_a_common_sort() {
    let (_, ctx) = program("");
    let both = |op, a, b| ctx.combine_sym_types_for_binary(&op, a, b);
    assert_eq!(both(BinOp::Add, SymType::F, SymType::F), Some(SymType::F));
    assert_eq!(
        both(BinOp::Add, SymType::Uint(8), SymType::Uint(32)),
        both(BinOp::Add, SymType::Uint(32), SymType::Uint(8))
    );
    assert_eq!(both(BinOp::Eq, SymType::F, SymType::F), Some(SymType::Bool));
}

#[test]
fn memory_chips_come_in_pairs() {
    let (_, ctx) = program("");
    let send = ctx.memory_chip("send").unwrap();
    assert_eq!(send.kind, MemoryEventKind::Send);
    let receive = ctx.memory_chip("Receive").unwrap();
    assert_eq!(receive.kind, MemoryEventKind::Receive);
    assert!(ctx.memory_chip("SendInstruction").is_some());
    assert!(ctx.memory_chip("nosuch").is_none());
}

#[test]
fn a_store_returns_what_was_set() {
    let node = StoreNode::scalar(SymValue::plain(num(3)));
    let store = Store::default().set(7, node);
    assert!(matches!(store.get(7), Some(StoreNode::Scalar(v)) if v.surface == num(3)));
    assert!(store.get(8).is_none());
    let again = store.clone().set(7, StoreNode::structure());
    assert!(matches!(again.get(7), Some(StoreNode::Struct { .. })));
    assert!(matches!(store.get(7), Some(StoreNode::Scalar(_))));
}

#[test]
fn shapes_are_compared() {
    let scalar = |k| StoreNode::scalar(SymValue::plain(num(k)));
    let mut pairs = Vec::new();
    assert_eq!(scalar(1).collect_scalar_pairs_with(&scalar(2), &mut pairs), Ok(()));
    assert_eq!(pairs, vec![(num(1), num(2))]);
    let mut pairs = Vec::new();
    assert_eq!(
        scalar(1).collect_scalar_pairs_with(&StoreNode::structure(), &mut pairs),
        Err(ShapeError::Kind)
    );
    assert_eq!(
        StoreNode::array(Some(1)).collect_scalar_pairs_with(&StoreNode::array(Some(2)), &mut pairs),
        Err(ShapeError::ArrayLength)
    );
}

#[test]
fn conditions_accumulate() {
    let x = var("x", SymType::Uint(8));
    let st = fresh().with_pc(eq(x.clone(), 3));
    assert_eq!(st.pc(), eq(x.clone(), 3));
    assert_eq!(st.symexpr_range(&x), Some((3, 3)));
    let same = st.clone().with_pc(eq(x.clone(), 3));
    assert_eq!(same.pc(), eq(x.clone(), 3));
    assert!(!same.is_inconsistent());
    let none = st.with_pc(eq(x, 4));
    assert!(none.is_inconsistent());
    assert!(!none.is_active());
}

#[test]
fn what_is_negated_is_no_hint() {
    let x = var("x", SymType::Uint(8));
    let c = BoolExpr::And(vec![eq(x.clone(), 1).not(), eq(x.clone(), 0)]);
    let st = fresh().with_pc(c);
    assert!(!st.is_inconsistent());
    assert_eq!(st.pc(), BoolExpr::And(vec![eq(x.clone(), 1).not(), eq(x.clone(), 0)]));
    let st = fresh().with_pc(eq(x.clone(), 1)).with_pc(eq(x, 1).not());
    assert!(st.is_inconsistent());
}

#[test]
fn bits_sum_to_the_value() {
    let w = var("w", SymType::Uint(32));
    let (bits, st) = fresh().decompose_u32_bits_cached(w.clone(), "b").unwrap();
    let backend = SmtBackend::Z3Nia;
    let ask = |conds: Vec<BoolExpr>| {
        let mut all = vec![st.pc()];
        all.extend(conds);
        check_with_solver(&BoolExpr::And(all), &backend)
    };
    let five = vec![eq(w.clone(), 5)];
    assert_eq!(ask(five.clone()), Ok(true));
    assert_eq!(ask(vec![five[0].clone(), eq(bits[0].clone(), 0)]), Ok(false));
    assert_eq!(ask(vec![five[0].clone(), eq(bits[1].clone(), 1)]), Ok(false));
    assert_eq!(ask(vec![five[0].clone(), eq(bits[2].clone(), 1)]), Ok(true));
}

#[test]
fn a_true_condition_changes_nothing() {
    let st = fresh().with_pc(BoolExpr::Bool(true));
    assert_eq!(st.pc(), BoolExpr::Bool(true));
    let st = fresh().with_pc(BoolExpr::Bool(false));
    assert!(st.is_inconsistent());
}

#[test]
fn fresh_symbols_differ() {
    let mut st = fresh();
    let a = st.fresh_sym("x", SymType::F).unwrap();
    let b = st.fresh_sym("x", SymType::F).unwrap();
    assert_ne!(a, b);
    assert_eq!(a, var("x_0", SymType::F));
    assert_eq!(b, var("x_1", SymType::F));
}

#[test]
fn bits_are_reused() {
    let w = var("w", SymType::Uint(32));
    let (a, st) = fresh().decompose_u32_bits_cached(w.clone(), "b").unwrap();
    assert_eq!(a.len(), 32);
    assert_eq!(st.fresh_index(), 32);
    let (b, st) = st.decompose_u32_bits_cached(w, "c").unwrap();
    assert_eq!(a, b);
    assert_eq!(st.fresh_index(), 32);
}

#[test]
fn map_reads_are_remembered() {
    let st = fresh();
    let (x, y) = (var("x", SymType::F), var("y", SymType::F));
    let clk = x.clone() + y.clone();
    let st = st.record_map_read(Some(1), "m".to_string(), clk, num(2), num(5), num(6));
    let swapped = y + x;
    assert_eq!(st.find_map_read(Some(1), "m", &swapped, &num(2)), Some((num(5), num(6))));
    assert_eq!(st.find_map_read(Some(2), "m", &swapped, &num(2)), None);
    assert_eq!(st.find_map_read(Some(1), "m", &swapped, &num(3)), None);
}

#[test]
fn words_get_bytes_and_field_elements_a_range() {
    let w = var("w", SymType::Uint(32));
    let (v, st) = fresh().pack_scalar_with_symtype(w, &SymType::Uint(32), "w").unwrap();
    assert_eq!(v.word_bytes().map(|b| b.len()), Some(4));
    assert_eq!(st.fresh_index(), 4);
    let k = num(3);
    let (v, st) = fresh().pack_scalar_with_symtype(k, &SymType::F, "k").unwrap();
    assert!(v.word_bytes().is_none());
    assert_eq!(st.pc(), BoolExpr::Bool(true));
}

#[test]
fn reduction_is_skipped_where_it_is_idle() {
    let st = fresh();
    let b = var("b", SymType::Uint(8));
    assert_eq!(mod_if_needed(b.clone(), &st), b);
    let f = var("f", SymType::F) + var("g", SymType::F);
    assert_eq!(mod_if_needed(f.clone(), &st), f.mod_field());
    assert!(product_safe_without_mod(&SymType::Uint(8), &SymType::Uint(8)));
    assert!(!product_safe_without_mod(&SymType::F, &SymType::Uint(8)));
    assert_eq!(symtype_max_abs(&SymType::Bool), Some(1));
    assert_eq!(symtype_max_abs(&SymType::Uint(8)), Some(255));
    assert_eq!(sym_bounds(&SymType::Uint(8)), Some((0, 255, 8)));
    assert_eq!(sym_bounds(&SymType::Uint(128)), None);
}

#[test]
fn a_zero_product_with_a_bit_is_split() {
    let s = var("s", SymType::Bool);
    let x = var("x", SymType::F);
    let states: Vec<SymState> =
        split_on_bool_mul_eq_zero(fresh(), eq(s.clone() * x.clone(), 0)).into_iter().collect();
    assert_eq!(states.len(), 2);
    assert_eq!(states[0].pc(), eq(s.clone(), 0));
    assert_eq!(states[1].pc(), BoolExpr::And(vec![eq(s, 1), eq(x.clone(), 0)]));
    assert_eq!(split_on_bool_mul_eq_zero(fresh(), eq(x, 0)).len(), 1);
}

#[test]
fn comparisons_of_numbers_are_decided() {
    assert_eq!(condition_of(BinOp::Lt, num(1), num(2)), Ok(BoolExpr::Bool(true)));
    assert_eq!(condition_of(BinOp::And, num(1), num(0)), Ok(BoolExpr::Bool(false)));
    assert_eq!(
        condition_of(BinOp::Add, num(1), num(2)),
        Err(ExecError::NonBooleanOperator)
    );
    let x = var("x", SymType::F);
    assert_eq!(
        condition_of(BinOp::Ge, x.clone(), num(2)),
        Ok(BoolExpr::Ge(x, num(2)))
    );
}

#[test]
fn terms_have_sorts() {
    assert_eq!(symexpr_sort(&var("x", SymType::Uint(8))), Some(SymType::Uint(8)));
    assert_eq!(add_terms(num(1), num(2)), Ok(num(3)));
    assert_eq!(add_terms(num(i128::MAX), num(1)), Err(ExecError::ConstantOverflow));
}

#[test]
fn indices_are_concrete() {
    let (_, ctx) = program("const u32 N = 3;");
    let at = |e: Expr| eval_index_const_or_err(&ctx, None, &e);
    assert_eq!(at(Expr::Int(4)), Ok(Some(4)));
    let sum = Expr::Binary {
        op: BinOp::Add,
        lhs: Box::new(Expr::Int(1)),
        rhs: Box::new(Expr::Int(2)),
    };
    assert_eq!(at(sum), Ok(None));
    assert_eq!(at(Expr::Paren(Box::new(Expr::Int(5)))), Ok(Some(5)));
    assert_eq!(
        at(Expr::Path { segments: vec!["x".to_string()], ref_id: None }),
        Ok(None)
    );
}

#[test]
fn places_can_be_read_and_written() {
    let (_, ctx) = program("");
    let lv = LValue { ref_id: None, head: vec!["x".to_string()], tails: vec![] };
    assert_eq!(
        write_to_lvalue(&ctx, Store::default(), &lv, num(1)).err(),
        Some(ExecError::UnresolvedId)
    );
    let lv = LValue {
        ref_id: Some(1),
        head: vec!["x".to_string()],
        tails: vec![LvTail::Field { name: "a".to_string() }, LvTail::Index(Expr::Int(2))],
    };
    assert!(matches!(lvalue_to_expr(&lv), Expr::Index(b, _) if matches!(&*b, Expr::Field { .. })));
}

#[test]
fn value_types_must_be_names() {
    let array = Type::Array(Box::new(builtin("u8")), Expr::Int(2));
    assert_eq!(array.assert_not_composite(), Err(ExecError::ArrayTypeUnsupported));
    let tuple = Type::Tuple(vec![]);
    assert_eq!(tuple.assert_not_composite(), Err(ExecError::TupleTypeUnsupported));
    let map = Type::Mapping {
        timestamp: Box::new(builtin("u8")),
        key: Box::new(builtin("u8")),
        value: Box::new(builtin("u8")),
    };
    assert_eq!(map.assert_not_composite(), Err(ExecError::MapTypeUnsupported));
    let f = Type::Function { ref_id: None };
    assert_eq!(f.assert_not_composite(), Err(ExecError::FunctionTypeUnsupported));
    assert_eq!(f.assert_not_function(), Err(ExecError::FunctionTypeNotAllowed));
    assert_eq!(builtin("u8").assert_not_composite(), Ok(()));
    assert_eq!(builtin("u8").assert_not_function(), Ok(()));
}

#[test]
fn query_paths_name_parameters() {
    let (mods, _) = program(
        "Struct S { a: field, } Component S { Computation f(self, output x: field) { } }",
    );
    let f = match &mods[0].file.items[1] {
        Item::Component { members, .. } => members[0].as_func().clone(),
        _ => panic!("not a component"),
    };
    let p = |s: &str| vec![s.to_string()];
    assert_eq!(f.param_io_for_query_path(&p("x")), Some(IOType::Output));
    assert_eq!(f.param_io_for_query_path(&p("self")), None);
    assert!(matches!(f.query_path_to_param_expr(&p("x")), Ok(Expr::Path { .. })));
    assert_eq!(f.query_path_to_param_expr(&p("y")).err(), Some(QueryPathError::NoParam));
    assert_eq!(f.query_root_exprs(&[p("self"), p("x")]).unwrap().len(), 2);
    assert_eq!(FIELD_MODULUS, 2013265921);
}
