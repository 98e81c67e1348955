use rusty_scheme::interpret;
use rusty_scheme::env::Environment;
use rusty_scheme::interpreter::apply_function;
use rusty_scheme::Function::SchemeFunction;
use rusty_scheme::Node::{self, NBoolean, NIdentifier, NInteger, NList, NString};
use rusty_scheme::Value::{self, VBoolean, VInteger, VList, VString, VSymbol};

fn id(s: &str) -> Node {
    NIdentifier(s.to_string())
}

fn sym(s: &str) -> Value {
    VSymbol(s.to_string())
}

fn run(nodes: Vec<Node>) -> Result<Value, String> {
    interpret(&nodes).map_err(|e| e.message)
}

#[test]
fn test_global_variables() {
    assert_eq!(interpret(&[NList(vec![NIdentifier("define".to_string()), NIdentifier("x".to_string()), NInteger(2)]), NList(vec![NIdentifier("+".to_string()), NIdentifier("x".to_string()), NIdentifier("x".to_string()), NIdentifier("x".to_string())])]).unwrap(),
               VInteger(6));
}

#[test]
fn test_global_function_definition() {
    assert_eq!(interpret(&[NList(vec![NIdentifier("define".to_string()), NIdentifier("double".to_string()), NList(vec![NIdentifier("lambda".to_string()), NList(vec![NIdentifier("x".to_string())]), NList(vec![NIdentifier("+".to_string()), NIdentifier("x".to_string()), NIdentifier("x".to_string())])])]), NList(vec![NIdentifier("double".to_string()), NInteger(8)])]).unwrap(),
               VInteger(16));
}

#[test]
fn atoms_evaluate_to_themselves() {
    assert_eq!(run(vec![NInteger(-7)]), Ok(VInteger(-7)));
    assert_eq!(run(vec![NBoolean(false)]), Ok(VBoolean(false)));
    assert_eq!(run(vec![NString("hi".to_string())]), Ok(VString("hi".to_string())));
}

#[test]
fn empty_program_and_empty_list_give_empty_list() {
    assert_eq!(run(vec![]), Ok(VList(vec![])));
    assert_eq!(run(vec![NList(vec![])]), Ok(VList(vec![])));
}

#[test]
fn inner_binding_shadows_outer() {
    let prog = vec![
        NList(vec![id("define"), id("x"), NInteger(1)]),
        NList(vec![id("define"), id("f"), NList(vec![id("lambda"), NList(vec![id("x")]), id("x")])]),
        NList(vec![id("f"), NInteger(2)]),
    ];
    assert_eq!(run(prog), Ok(VInteger(2)));
    let prog = vec![
        NList(vec![id("define"), id("x"), NInteger(1)]),
        NList(vec![id("define"), id("f"), NList(vec![id("lambda"), NList(vec![id("x")]), id("x")])]),
        NList(vec![id("f"), NInteger(2)]),
        id("x"),
    ];
    assert_eq!(run(prog), Ok(VInteger(1)));
}

#[test]
fn closure_sees_later_set() {
    let prog = vec![
        NList(vec![id("define"), id("x"), NInteger(1)]),
        NList(vec![id("define"), id("f"), NList(vec![id("lambda"), NList(vec![]), id("x")])]),
        NList(vec![id("set!"), id("x"), NInteger(2)]),
        NList(vec![id("f")]),
    ];
    assert_eq!(run(prog), Ok(VInteger(2)));
}

#[test]
fn closure_sees_later_define() {
    let prog = vec![
        NList(vec![id("define"), id("f"), NList(vec![id("lambda"), NList(vec![]), id("y")])]),
        NList(vec![id("define"), id("y"), NInteger(9)]),
        NList(vec![id("f")]),
    ];
    assert_eq!(run(prog), Ok(VInteger(9)));
}

#[test]
fn set_inside_closure_rebinds_outer_name() {
    let prog = vec![
        NList(vec![id("define"), id("x"), NInteger(1)]),
        NList(vec![id("define"), id("g"), NList(vec![id("lambda"), NList(vec![]), NList(vec![id("set!"), id("x"), NInteger(5)])])]),
        NList(vec![id("g")]),
        id("x"),
    ];
    assert_eq!(run(prog), Ok(VInteger(5)));
}

#[test]
fn only_false_is_falsy() {
    assert_eq!(run(vec![NList(vec![id("if"), NBoolean(false), NInteger(1), NInteger(2)])]), Ok(VInteger(2)));
    assert_eq!(run(vec![NList(vec![id("if"), NInteger(0), NInteger(1), NInteger(2)])]), Ok(VInteger(1)));
    let empty = NList(vec![id("quote"), NList(vec![])]);
    assert_eq!(run(vec![NList(vec![id("if"), empty, NInteger(1), NInteger(2)])]), Ok(VInteger(1)));
}

#[test]
fn and_or_short_circuit() {
    let boom = || NList(vec![id("error"), NString("boom".to_string())]);
    assert_eq!(run(vec![NList(vec![id("and"), NBoolean(false), boom()])]), Ok(VBoolean(false)));
    assert_eq!(run(vec![NList(vec![id("or"), NInteger(1), boom()])]), Ok(VInteger(1)));
    assert_eq!(run(vec![NList(vec![id("and")])]), Ok(VBoolean(true)));
    assert_eq!(run(vec![NList(vec![id("or")])]), Ok(VBoolean(false)));
    assert_eq!(run(vec![NList(vec![id("and"), NInteger(1), NInteger(2)])]), Ok(VInteger(2)));
    assert_eq!(run(vec![NList(vec![id("or"), NBoolean(false), NInteger(3)])]), Ok(VInteger(3)));
}

#[test]
fn quote_keeps_unquote_literal() {
    let form = NList(vec![id("a"), NList(vec![id("unquote"), id("b")])]);
    assert_eq!(run(vec![NList(vec![id("quote"), form])]),
               Ok(VList(vec![sym("a"), VList(vec![sym("unquote"), sym("b")])])));
}

#[test]
fn quasiquote_evaluates_unquote() {
    let form = NList(vec![id("a"), NList(vec![id("unquote"), id("b")])]);
    let prog = vec![
        NList(vec![id("define"), id("b"), NInteger(5)]),
        NList(vec![id("quasiquote"), form]),
    ];
    assert_eq!(run(prog), Ok(VList(vec![sym("a"), VInteger(5)])));
    let bad = NList(vec![id("unquote"), id("b"), id("b")]);
    assert_eq!(run(vec![NList(vec![id("quasiquote"), bad])]),
               Err("Must supply exactly one argument to unquote".to_string()));
}

#[test]
fn arity_is_enforced() {
    let prog = vec![
        NList(vec![id("define"), id("f"), NList(vec![id("lambda"), NList(vec![id("x")]), id("x")])]),
        NList(vec![id("f"), NInteger(1), NInteger(2)]),
    ];
    assert_eq!(run(prog), Err("Wrong number of arguments to function".to_string()));
    assert_eq!(run(vec![NList(vec![id("if"), NInteger(1), NInteger(2)])]),
               Err("Must supply exactly three arguments to if".to_string()));
    assert_eq!(run(vec![NList(vec![id("+"), NInteger(1)])]),
               Err("Must supply at least two arguments to +".to_string()));
    assert_eq!(run(vec![NList(vec![id("quote")])]),
               Err("Must supply exactly one argument to quote".to_string()));
    assert_eq!(run(vec![NList(vec![id("error")])]),
               Err("Must supply exactly one argument to error".to_string()));
}

#[test]
fn duplicate_define_and_unbound_set_fail() {
    let prog = vec![
        NList(vec![id("define"), id("x"), NInteger(1)]),
        NList(vec![id("define"), id("x"), NInteger(2)]),
    ];
    assert_eq!(run(prog), Err("Duplicate define: x".to_string()));
    assert_eq!(run(vec![NList(vec![id("set!"), id("y"), NInteger(1)])]),
               Err("Can't set! an undefined variable: y".to_string()));
}

#[test]
fn if_chooses_branch() {
    assert_eq!(run(vec![NList(vec![id("if"), NBoolean(false), NInteger(1), NInteger(2)])]), Ok(VInteger(2)));
    assert_eq!(run(vec![NList(vec![id("if"), NInteger(0), NInteger(1), NInteger(2)])]), Ok(VInteger(1)));
}

#[test]
fn quoted_list_renders_with_quote_mark() {
    let r = run(vec![NList(vec![id("quote"), NList(vec![NInteger(1), NInteger(2), NInteger(3)])])]).unwrap();
    assert_eq!(r, VList(vec![VInteger(1), VInteger(2), VInteger(3)]));
    assert_eq!(r.to_str(), "'(1 2 3)");
}

#[test]
fn error_propagates_message() {
    let e = interpret(&[NList(vec![id("error"), NString("boom".to_string())])]).err().unwrap();
    assert!(e.message.contains("boom"));
    assert_eq!(e.to_string(), "RuntimeError: \"boom\"");
}

#[test]
fn error_stops_the_program() {
    let prog = vec![
        NList(vec![id("error"), NInteger(1)]),
        NInteger(2),
    ];
    assert_eq!(run(prog), Err("1".to_string()));
}

#[test]
fn lookup_and_operator_errors() {
    assert_eq!(run(vec![id("nope")]), Err("Identifier not found: nope".to_string()));
    assert_eq!(run(vec![NList(vec![NInteger(1), NInteger(2)])]),
               Err("First element in an expression must be a procedure: 1".to_string()));
    assert_eq!(run(vec![NList(vec![id("define"), NInteger(1), NInteger(2)])]),
               Err("Unexpected value for name in define".to_string()));
    assert_eq!(run(vec![NList(vec![id("lambda"), NInteger(1), NInteger(2)])]),
               Err("Unexpected value for arguments in lambda".to_string()));
    assert_eq!(run(vec![NList(vec![id("lambda"), NList(vec![NInteger(1)]), NInteger(2)])]),
               Err("Unexpected argument in lambda arguments".to_string()));
    assert_eq!(run(vec![NList(vec![id("lambda"), NList(vec![])])]),
               Err("Must supply at least two arguments to lambda".to_string()));
}

#[test]
fn arithmetic() {
    assert_eq!(run(vec![NList(vec![id("-"), NInteger(7), NInteger(42)])]), Ok(VInteger(-35)));
    assert_eq!(run(vec![NList(vec![id("+"), NInteger(-8), NInteger(2), NInteger(-33)])]), Ok(VInteger(-39)));
    assert_eq!(run(vec![NList(vec![id("+"), NInteger(1), NBoolean(true)])]),
               Err("Unexpected value during +".to_string()));
    assert_eq!(run(vec![NList(vec![id("-"), NString("a".to_string()), NInteger(1)])]),
               Err("Unexpected value during -".to_string()));
    assert_eq!(run(vec![NList(vec![id("+"), NInteger(i64::MAX), NInteger(1)])]),
               Err("Integer overflow during +".to_string()));
    assert_eq!(run(vec![NList(vec![id("-"), NInteger(i64::MIN), NInteger(1)])]),
               Err("Integer overflow during -".to_string()));
}

#[test]
fn list_and_lambda_values() {
    assert_eq!(run(vec![NList(vec![id("list"), NInteger(1), NList(vec![id("+"), NInteger(1), NInteger(1)])])]),
               Ok(VList(vec![VInteger(1), VInteger(2)])));
    let f = run(vec![NList(vec![id("λ"), NList(vec![id("x")]), id("x")])]).unwrap();
    assert_eq!(f.to_str(), "#<procedure>");
    let prog = vec![
        NList(vec![id("define"), id("add"), NList(vec![id("lambda"), NList(vec![id("a"), id("b")]), NList(vec![id("+"), id("a"), id("b")])])]),
        NList(vec![id("add"), NInteger(3), NInteger(4)]),
    ];
    assert_eq!(run(prog), Ok(VInteger(7)));
}

#[test]
fn renders_each_kind_of_value() {
    assert_eq!(sym("a").to_str(), "'a");
    assert_eq!(VInteger(-5).to_str(), "-5");
    assert_eq!(VInteger(i64::MIN).to_str(), "-9223372036854775808");
    assert_eq!(VBoolean(true).to_str(), "#t");
    assert_eq!(VBoolean(false).to_raw_str(), "#f");
    assert_eq!(VString("s".to_string()).to_str(), "\"s\"");
    assert_eq!(VList(vec![sym("a"), VList(vec![])]).to_str(), "'(a ())");
}

#[test]
fn unbounded_recursion_hits_the_depth_limit() {
    let prog = vec![
        NList(vec![id("define"), id("f"), NList(vec![id("lambda"), NList(vec![]), NList(vec![id("f")])])]),
        NList(vec![id("f")]),
    ];
    assert_eq!(run(prog), Err("Maximum evaluation depth exceeded".to_string()));
}

#[test]
fn sum_checks_only_the_total_for_overflow() {
    assert_eq!(run(vec![NList(vec![id("+"), NInteger(i64::MAX), NInteger(1), NInteger(-1)])]), Ok(VInteger(i64::MAX)));
    assert_eq!(run(vec![NList(vec![id("+"), NInteger(i64::MIN), NInteger(-1), NInteger(1)])]), Ok(VInteger(i64::MIN)));
}

#[test]
fn closure_with_missing_scope_fails() {
    let mut env = Environment::new_root();
    let f = SchemeFunction(vec![], vec![VInteger(1)], 5);
    let r = apply_function(&f, &[], &mut env, 0, 10);
    assert_eq!(r.err().unwrap().message, "Closure scope does not exist");
    let f = SchemeFunction(vec![], vec![VInteger(1)], 0);
    assert_eq!(apply_function(&f, &[], &mut env, 0, 10).unwrap(), VInteger(1));
}

#[test]
fn lookup_walks_the_whole_chain() {
    let mut env = Environment::new_root();
    let a = env.new_child(0);
    let b = env.new_child(a);
    assert_eq!(env.get(b, &"+".to_string()).is_some(), true);
    env.set(a, "x".to_string(), VInteger(3));
    env.set(b, "x".to_string(), VInteger(4));
    assert_eq!(env.get(b, &"x".to_string()), Some(VInteger(4)));
    assert_eq!(env.get(a, &"x".to_string()), Some(VInteger(3)));
    assert_eq!(env.get(0, &"x".to_string()), None);
}
