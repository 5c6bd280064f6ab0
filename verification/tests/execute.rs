//! Symbolic execution of small programs.

use std::rc::Rc;
use ziver::ast::{Func, Item};
use ziver::checker::symbolic::context::Context;
use ziver::checker::symbolic::error::ExecError;
use ziver::checker::symbolic::execute::SymbolicExecutor;
use ziver::checker::symbolic::expr::{BoolExpr, SymExpr, SymType};
use ziver::checker::symbolic::init::init_context;
use ziver::checker::symbolic::state::SymState;
use ziver::parser::parse_file;
use ziver::utils::module_resolver::Module;

const DECLS: &str = "
const u32 N = 2;
Struct P { input x: field, output y: field, }
Struct C { input a: field, input w: u32, input inner: P, }
";

const MEMBERS: &str = "
Computation g(self, q: field) -> field { return q + 1; }
Computation quiet(self, q: field) { self.a = q; }
Computation again(self, q: field) -> field { return self.again(q); }
Computation put(self, q: field) { self.inner.y = q; }
Computation both(self, q: P) -> field { return q.x; }
";

fn program(src: &str) -> (Vec<Module>, Rc<Context>) {
    let file = parse_file(src).unwrap();
    let (mods, ctx) =
        init_context(vec![Module { path: "main.cz".to_string(), file }]).unwrap();
    (mods, Rc::new(ctx))
}

fn member(mods: &Vec<Module>, name: &str) -> Func {
    for it in &mods[0].file.items {
        if let Item::Component { members, .. } = it {
            for m in members {
                if m.name() == name {
                    return m.as_func().clone();
                }
            }
        }
    }
    panic!("no member {}", name)
}

fn source(body: &str) -> String {
    format!(
        "{} Component C {{ {} Computation f(self, x: field, y: field, w: u32, v: u8, s: bool, \
         t: bool, arr: [field; N], p: P, m: map<timestamp, u32, u32>) -> field {{ {} }} }}",
        DECLS, MEMBERS, body
    )
}

fn run_to(body: &str, depth: usize) -> Result<Vec<(Option<SymExpr>, SymState)>, ExecError> {
    let (mods, ctx) = program(&source(body));
    let f = member(&mods, "f");
    let mut st = SymState::new(ctx.clone());
    st.init_params_for_func(&f, ctx.method_owner(f.id.unwrap()))?;
    let rs = f.execute(st, depth)?;
    Ok(rs.into_iter().collect())
}

fn run(body: &str) -> Result<Vec<(Option<SymExpr>, SymState)>, ExecError> {
    run_to(body, 100)
}

fn fault(body: &str) -> ExecError {
    match run(body) {
        Ok(rs) => panic!("{} outcomes of {}", rs.len(), body),
        Err(x) => x,
    }
}

/// The values that a body returns, as text.
fn values(body: &str) -> Vec<String> {
    run(body).unwrap().into_iter().map(|(v, _)| v.unwrap().to_text()).collect()
}

/// The last conditions of the paths through a body, as text.
fn conditions(body: &str) -> Vec<String> {
    run(body)
        .unwrap()
        .into_iter()
        .map(|(_, s)| match s.pc() {
            BoolExpr::And(fs) => fs[fs.len() - 1].to_text(),
            f => f.to_text(),
        })
        .collect()
}

#[test]
fn literals_and_constants_have_values() {
    assert_eq!(values("return 7;"), vec!["7"]);
    assert_eq!(values("return N;"), vec!["2"]);
    assert_eq!(values("return one;"), vec!["1"]);
    assert_eq!(values("return true;"), vec!["(ite true 1 0)"]);
    assert_eq!(values("return (1 + 2) * 3;"), vec!["9"]);
}

#[test]
fn field_arithmetic_is_reduced() {
    let vs = values("return x + y;");
    assert_eq!(vs.len(), 1);
    assert!(vs[0].starts_with("(mod (+ x"), "{}", vs[0]);
    assert!(vs[0].ends_with(" 2013265921)"), "{}", vs[0]);
    assert!(values("return w + w;")[0].starts_with("(+ w"));
}

#[test]
fn assignments_are_seen_by_later_reads() {
    let vs = values("p.y = 5; return p.y;");
    assert_eq!(vs, vec!["5"]);
    assert_eq!(values("arr[1] = 3; return arr[1];"), vec!["3"]);
    assert_eq!(values("field z = 4; z = z * 2; return z;"), vec!["8"]);
    assert_eq!(values("self.inner.y = 6; return self.inner.y;"), vec!["6"]);
    assert_eq!(values("s = s; s &= true; return 1;"), vec!["1"]);
}

#[test]
fn both_branches_are_followed() {
    let vs = values("if x == y { return 1; } else { return 2; }");
    assert_eq!(vs, vec!["1", "2"]);
    assert_eq!(values("if 1 == 2 { return 1; } else { return 2; }"), vec!["2"]);
    assert_eq!(values("if 1 < 2 { return 1; } return 2;"), vec!["1"]);
    assert_eq!(values("field z = 0; if x == y { z = 1; } return z;"), vec!["1", "0"]);
}

#[test]
fn loops_are_unrolled() {
    assert_eq!(values("field z = 0; for i in 0..4 { z = z + i; } return z;"), vec!["6"]);
    assert_eq!(values("field z = 9; for i in 3..3 { z = 1; } return z;"), vec!["9"]);
    assert_eq!(values("field z = 0; for i in 0..N { z = z + arr[i]; } return z;").len(), 1);
    assert_eq!(values("for i in 0..4 { return i; } return 9;"), vec!["0"]);
}

#[test]
fn assertions_become_path_conditions() {
    assert!(conditions("assert_eq(w, 3); return 1;")[0].starts_with("(= w"));
    assert!(conditions("assert(w < 3); return 1;")[0].starts_with("(< w"));
    assert!(conditions("assert_zero(w); return 1;")[0].ends_with(" 0)"));
    assert!(conditions("assert_bool(x); return 1;")[0].starts_with("(or (= x"));
    assert!(conditions("assert_range(x, u8); return 1;")[0].contains("255"));
}

#[test]
fn a_product_with_a_bit_splits_the_path() {
    let rs = run("assert_zero(s * w); return 1;").unwrap();
    assert_eq!(rs.len(), 2);
    assert_eq!(run("assert_eq(s * t, 0); return 1;").unwrap().len(), 1);
    assert_eq!(run("assert_zero(x * y); return 1;").unwrap().len(), 1);
}

#[test]
fn contradictions_are_marked() {
    let rs = run("assert_eq(w, 3); assert_eq(w, 4);").unwrap();
    assert!(rs.iter().all(|r| r.1.is_inconsistent()));
    let rs = run("assert_eq(w, 3);").unwrap();
    assert!(rs.iter().all(|r| !r.1.is_inconsistent()));
}

#[test]
fn methods_see_and_write_their_receiver() {
    assert_eq!(values("return self.g(4);"), vec!["5"]);
    assert_eq!(values("self.quiet(8); return self.a;"), vec!["8"]);
    assert_eq!(values("self.put(3); return self.inner.y;"), vec!["3"]);
    let vs = values("p.x = 2; return self.both(p);");
    assert_eq!(vs, vec!["2"]);
}

#[test]
fn memory_accesses_are_recorded() {
    let rs = run("u32 q = m[1, w].value; return 1;").unwrap();
    assert_eq!(rs[0].1.memory_trace().len(), 2);
    let rs = run("u32 q = m[1, w].value; u32 r = m[1, w].clk_prev; return 1;").unwrap();
    assert_eq!(rs[0].1.memory_trace().len(), 2);
    let rs = run("lookup(Send, 0, w, w, w); lookup(Receive, 0, w, w, w); return 1;").unwrap();
    assert_eq!(rs[0].1.memory_trace().len(), 2);
    assert_eq!(rs[0].1.memory_trace()[0].value.to_text(), rs[0].1.memory_trace()[1].value.to_text());
}

#[test]
fn builtins_yield_fresh_symbols() {
    assert!(values("return to_field(w);")[0].starts_with("to_field_"));
    assert!(values("return from_u32(w);")[0].starts_with("from_u32_"));
    assert!(values("return and(v, v);")[0].starts_with("and_"));
    assert!(values("return extract_bit_u32(w, 3);")[0].starts_with("extract_bit_3_"));
    assert!(values("return x.inverse();")[0].starts_with("inverse_"));
    assert!(values("return to_word(w);")[0].starts_with("w"));
    assert!(values("return to_u32(v);")[0].starts_with("v"));
}

#[test]
fn the_byte_table_constrains_its_arguments() {
    let rs = run("lookup(ByteChip, 0, v, v); return 1;").unwrap();
    assert_eq!(rs.len(), 1);
    let before = run("return 1;").unwrap()[0].1.fresh_index();
    let rs = run("lookup(ByteChip, 1, v, v, v); return 1;").unwrap();
    assert_eq!(rs[0].1.fresh_index(), before + 24);
}

#[test]
fn the_bound_matters_only_when_it_is_hit() {
    let body = "field z = 0; for i in 0..4 { z = z + i; } return z;";
    assert_eq!(run_to(body, 0).err(), Some(ExecError::TooDeep));
    assert_eq!(run_to(body, 1).err(), Some(ExecError::TooDeep));
    let a = run_to(body, 10).unwrap();
    let b = run_to(body, 50).unwrap();
    assert_eq!(a[0].0, b[0].0);
    assert_eq!(run_to("return self.again(x);", 60).err(), Some(ExecError::TooDeep));
}

#[test]
fn execution_only_adds_to_the_state() {
    let (mods, ctx) = program(&source("assert(w < 9); u32 q = m[1, w].value; return x + 1;"));
    let f = member(&mods, "f");
    let mut st = SymState::new(ctx.clone());
    st.init_params_for_func(&f, ctx.method_owner(f.id.unwrap())).unwrap();
    let fresh = st.fresh_index();
    let events = st.memory_trace().len();
    for (_, s) in f.execute(st, 100).unwrap() {
        assert!(s.fresh_index() >= fresh);
        assert!(s.memory_trace().len() >= events);
    }
}

#[test]
fn names_must_be_bound() {
    assert_eq!(fault("nosuch = 1;"), ExecError::UnresolvedId);
    assert_eq!(fault("return nosuch;"), ExecError::UnresolvedPath);
    assert_eq!(fault("return P;"), ExecError::NoStaticType);
}

#[test]
fn values_must_be_scalars() {
    assert_eq!(fault("return arr;"), ExecError::ArrayAsScalar);
    assert_eq!(fault("return p;"), ExecError::StructAsScalar);
    assert_eq!(fault("return self.inner;"), ExecError::NotAScalar);
    assert_eq!(fault("P q = x;"), ExecError::NonScalarVariable);
    assert_eq!(fault("arr = x;"), ExecError::ArrayNeedsElement);
    assert_eq!(fault("p = 1;"), ExecError::StructNeedsSymbol);
}

#[test]
fn selections_must_fit() {
    assert_eq!(fault("return p.nosuch;"), ExecError::UnknownField);
    assert_eq!(fault("return x.y;"), ExecError::FieldOnNonStruct);
    assert_eq!(fault("return arr[w];"), ExecError::IndexNotConcrete);
    assert_eq!(fault("return arr[5];"), ExecError::ElementNotMaterialized);
    assert_eq!(fault("return x[0];"), ExecError::IndexOnNonArray);
    assert_eq!(fault("arr[5] = x;"), ExecError::IndexOutOfBounds);
    assert_eq!(fault("arr[0].x = x;"), ExecError::NestedArrayWrite);
    assert_eq!(fault("p.nosuch = x;"), ExecError::UnknownField);
    assert_eq!(fault("x.y = x;"), ExecError::ShapeMismatch);
    assert_eq!(fault("x[0] = x;"), ExecError::ShapeMismatch);
}

#[test]
fn maps_are_read_through_projections() {
    assert_eq!(fault("m[1, 2] = x;"), ExecError::MapAssignment);
    assert_eq!(fault("return m[1, 2];"), ExecError::MapNeedsProjection);
    assert_eq!(fault("return m[1, 2].nosuch;"), ExecError::UnknownProjection);
    assert_eq!(fault("return x[1, 2].value;"), ExecError::NotAMap);
}

#[test]
fn conditions_must_be_comparisons() {
    assert_eq!(fault("assert(x + y);"), ExecError::UnsupportedCondition);
    assert_eq!(fault("if x { return 1; }"), ExecError::UnsupportedCondition);
    assert_eq!(fault("if x + y { return 1; }"), ExecError::NonBooleanOperator);
    assert_eq!(fault("for i in 0..w { x = 1; }"), ExecError::BoundNotConcrete);
    assert_eq!(fault("assert_range(x, u128);"), ExecError::UnboundedType);
    assert_eq!(fault("assert_range(x, P);"), ExecError::UnmappableType);
}

#[test]
fn lookups_must_be_known() {
    assert_eq!(fault("lookup(ByteChip, 0, v);"), ExecError::LookupArity);
    assert_eq!(fault("lookup(ByteChip, 1, v, v);"), ExecError::LookupArity);
    assert_eq!(fault("lookup(ByteChip, 7, v, v);"), ExecError::UnsupportedOpcode);
    assert_eq!(fault("lookup(ByteChip, w, v, v);"), ExecError::OpcodeNotConcrete);
    assert_eq!(fault("lookup(NoChip, 0, v, v, v);"), ExecError::UnsupportedChip);
    assert_eq!(fault("lookup(Send, 0, v, v);"), ExecError::LookupArity);
    assert_eq!(fault("lookup(Send, w, v, v, v);"), ExecError::OpcodeNotConcrete);
}

#[test]
fn calls_must_fit_their_functions() {
    assert_eq!(fault("return self.g();"), ExecError::TooFewArguments);
    assert_eq!(fault("return self.g(x, x);"), ExecError::TooManyArguments);
    assert_eq!(fault("return self.nosuch(x);"), ExecError::UnknownMethod);
    assert_eq!(fault("return self.a(x);"), ExecError::NotAMethod);
    assert_eq!(fault("return self.quiet(x);"), ExecError::VoidValue);
    assert_eq!(fault("return self.both(1);"), ExecError::ArgumentNotAPlace);
    assert_eq!(fault("return self.inner(x);"), ExecError::NotAMethod);
    assert_eq!(fault("return nosuch(x);"), ExecError::UnsupportedCallee);
    assert_eq!(fault("return p.g(x);"), ExecError::UnknownMethod);
}

#[test]
fn builtins_check_their_arguments() {
    assert_eq!(fault("return to_field(x, x);"), ExecError::BuiltinArity);
    assert_eq!(fault("return x.nosuch();"), ExecError::UnsupportedBuiltin);
    assert_eq!(fault("return x.inverse(x);"), ExecError::BuiltinArity);
    assert_eq!(fault("return to_u32(w);"), ExecError::CastNotAllowed);
    assert_eq!(fault("return extract_bit_u32(w, 40);"), ExecError::BitIndex);
    assert_eq!(fault("return extract_bit_u32(w, w);"), ExecError::BitIndex);
    assert_eq!(fault("return to_word(x);"), ExecError::WordArgument);
    assert_eq!(fault("return to_word(1);"), ExecError::WordArgument);
}

fn params(list: &str) -> Option<ExecError> {
    let (mods, ctx) = program(&format!(
        "Struct R {{ r: R, }} Struct C {{ a: field, }} Component C {{ Computation f({}) {{ }} }}",
        list
    ));
    let f = member(&mods, "f");
    SymState::new(ctx).init_params_for_func(&f, None).err()
}

#[test]
fn parameters_must_have_values() {
    assert_eq!(params("x: R"), Some(ExecError::RecursiveStruct));
    assert_eq!(params("x: Nope"), Some(ExecError::InvalidTypeName));
    assert_eq!(params("x: (field, u8)"), None);
    assert_eq!(params("x: [u8; 3]"), None);
    assert_eq!(params("x: map<u8, u8, u8>"), None);
}

#[test]
fn symbols_run_out() {
    let (_, ctx) = program("Struct C { a: field, }");
    let mut st = SymState::new(ctx).with_fresh_start(usize::MAX);
    assert_eq!(st.fresh_sym("x", SymType::F).err(), Some(ExecError::FreshExhausted));
    let mut st = st.with_fresh_start(4);
    assert_eq!(
        st.fresh_sym("x", SymType::F),
        Ok(SymExpr::Var("x_4".to_string(), SymType::F))
    );
    assert_eq!(st.fresh_index(), 5);
}

#[test]
fn constants_must_stay_in_range() {
    assert_eq!(
        fault("return 18446744073709551615 * 18446744073709551615 * 18446744073709551615 + 1;"),
        ExecError::ConstantOverflow
    );
}
