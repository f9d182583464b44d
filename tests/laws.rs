use slope::environment::{math_constants_builtins, Module};
use slope::environment::Environment;
use slope::interpreter::{exec, Error};
use slope::errors::RuntimeError;

fn run(code: &str) -> String {
    let mut env = Environment::new();
    match exec(code, &mut env) {
        Ok(s) => s,
        Err(e) => e.to_text(),
    }
}

fn run_err(code: &str) -> Error {
    let mut env = Environment::new();
    exec(code, &mut env).unwrap_err()
}

#[test]
fn integer_division_is_decimal() {
    assert_eq!(run("7 / 2;"), "3.5");
    assert_eq!(run("1 / 4;"), "0.25");
    assert_eq!(run("-9 / 3;"), "-3");
    assert_eq!(run("1 / 3;"), "0.3333333333333333333333333333");
}

#[test]
fn division_by_zero_is_undefined() {
    assert_eq!(run("1 / 0;"), "undefined");
    assert_eq!(run("1.5 / 0.0;"), "undefined");
    assert_eq!(run("0 / 0;"), "undefined");
}

#[test]
fn undefined_powers() {
    assert_eq!(run("0 ^ -1;"), "undefined");
    assert_eq!(run("(-8) ^ 0.5;"), "undefined");
    assert_eq!(run("0 ^ 0.5;"), "0");
    assert_eq!(run("2 ^ 10;"), "1024");
    assert_eq!(run("2 ^ -2;"), "0.25");
    assert_eq!(run("(-2) ^ 3;"), "-8");
}

#[test]
fn coalesce_takes_the_right_only_for_undefined() {
    assert_eq!(run("undefined ? 3;"), "3");
    assert_eq!(run("2 ? 3;"), "2");
    assert_eq!(run("(1 / 0) ? false;"), "false");
}

#[test]
fn piecewise_takes_the_first_true_arm() {
    assert_eq!(run("{ 1 if true; 2 if true; };"), "1");
    assert_eq!(run("{ 1 if false; 2 if true; 3 else; };"), "2");
    assert_eq!(run("{ 1 if false; };"), "undefined");
    assert_eq!(run("{ 1 if false; 2 if 5; };"), "TypeError: A piecewise guard must be a boolean.");
}

#[test]
fn set_literals_merge_duplicates_and_reject_mixtures() {
    assert_eq!(run("{ 3, 1, 2, 1, 3 };"), "{ 1, 2, 3 }");
    assert_eq!(run("{ 1.0, 1 / 1 };"), "{ 1 }");
    assert!(matches!(run_err("{ 1, 2.5 };"), Error::Runtime(RuntimeError::TypeError(_))));
    assert!(matches!(run_err("{ 1, undefined };"), Error::Runtime(RuntimeError::TypeError(_))));
    assert!(matches!(run_err("{ max };"), Error::Runtime(RuntimeError::TypeError(_))));
}

#[test]
fn membership_in_sets() {
    assert_eq!(run("2 in { 1, 2, 3 };"), "true");
    assert_eq!(run("4 in { 1, 2, 3 };"), "false");
    assert_eq!(run("4 in { };"), "false");
    assert_eq!(run("{ 1 } in { { 1 }, { 2 } };"), "true");
    assert!(matches!(run_err("true in { 1 };"), Error::Runtime(RuntimeError::TypeError(_))));
    assert!(matches!(run_err("1 in 2;"), Error::Runtime(RuntimeError::OperatorError(_))));
}

#[test]
fn subset_and_proper_subset() {
    assert_eq!(run("{ 1, 2 } <= { 1, 2 };"), "true");
    assert_eq!(run("{ 1, 2 } < { 1, 2 };"), "false");
    assert_eq!(run("{ 1 } < { 1, 2 };"), "true");
    assert_eq!(run("{ 3 } <= { 1, 2 };"), "false");
    assert_eq!(run("{ 1, 2 } >= { 1 };"), "true");
    assert_eq!(run("{ 1, 2 } == { 2, 1 };"), "true");
    assert!(matches!(run_err("{ 1 } <= { true };"), Error::Runtime(RuntimeError::OperatorError(_))));
}

#[test]
fn set_algebra_on_empty_results() {
    assert_eq!(run(r"{ 1, 2, 3 } \ { 1, 2, 3, 4, 5 };"), "{  }");
    assert_eq!(run(r"{ 1, 2, 3 } \/ { 1, 2, 3, 4, 5 };"), "{ 1, 2, 3, 4, 5 }");
    assert!(matches!(run_err(r"{ 1 } \/ { true };"), Error::Runtime(RuntimeError::OperatorError(_))));
}

#[test]
fn plus_or_minus_builds_a_set() {
    assert_eq!(run("5 +/- 2;"), "{ 3, 7 }");
    assert_eq!(run("5 -/+ 0;"), "{ 5 }");
}

#[test]
fn integer_edges() {
    assert_eq!(run("9223372036854775807 + 1;"), "undefined");
    assert_eq!(run("21!;"), "undefined");
    assert_eq!(run("20!;"), "2432902008176640000");
    assert_eq!(run("0!;"), "1");
    assert_eq!(run("-7 % 3;"), "-1");
    assert_eq!(run("7 % -3;"), "1");
    assert_eq!(run("7 % 0;"), "undefined");
    assert!(matches!(run_err("(-1)!;"), Error::Runtime(RuntimeError::OperatorError(_))));
    assert!(matches!(run_err("true!;"), Error::Runtime(RuntimeError::TypeError(_))));
}

#[test]
fn comparisons_across_kinds() {
    assert_eq!(run("1 == 1.0;"), "true");
    assert_eq!(run("2 < 2.5;"), "true");
    assert_eq!(run("undefined == undefined;"), "false");
    assert_eq!(run("undefined =/= 1;"), "true");
    assert!(matches!(run_err("1 == true;"), Error::Runtime(RuntimeError::OperatorError(_))));
    assert!(matches!(run_err("true < false;"), Error::Runtime(RuntimeError::OperatorError(_))));
}

#[test]
fn builtins_over_sets() {
    assert_eq!(run("max({ 3, 9, 4 });"), "9");
    assert_eq!(run("min({ 3, 9, 4 });"), "3");
    assert_eq!(run("sum({ 1.0, 2.5, 3.0 });"), "6.5");
    assert_eq!(run("product({ 2, 3, 4 });"), "24");
    assert_eq!(run("sum({ });"), "undefined");
    assert!(matches!(run_err("max(1);"), Error::Runtime(RuntimeError::TypeError(_))));
    assert!(matches!(run_err("max({ 1 }, { 2 });"), Error::Runtime(RuntimeError::OperatorError(_))));
    assert_eq!(run("PI > 3.14159 and PI < 3.1416;"), "true");
}

#[test]
fn names_and_scopes() {
    assert!(matches!(run_err("x;"), Error::Runtime(RuntimeError::NameError(_))));
    assert!(matches!(run_err("let x = 1; let x = 2;"), Error::Runtime(RuntimeError::NameError(_))));
    assert!(matches!(run_err("let max = 1;"), Error::Runtime(RuntimeError::NameError(_))));
    assert_eq!(run("let y = 2; fn f(x) = x * y; f(5);"), "10");
    assert!(matches!(run_err("fn f(x, x) = x; f(1, 2);"), Error::Runtime(RuntimeError::NameError(_))));
    assert!(matches!(run_err("3(1);"), Error::Runtime(RuntimeError::OperatorError(_))));
}

#[test]
fn deep_recursion_is_reported() {
    assert!(matches!(run_err("fn f(n) = f(n + 1); f(0);"), Error::Runtime(RuntimeError::DepthError(_))));
}

#[test]
fn output_lines_and_errors() {
    assert_eq!(run("let a = 1; a; fn g() = 2; g();"), "1\n2");
    assert_eq!(run("let a = 1"), "SyntaxError: Invalid token after expression.");
    assert_eq!(run("let a = 1 )"), "SyntaxError: Missing semicolon after assignment statement.");
    let mut env = Environment::new();
    assert!(exec("let a = 5;", &mut env).is_ok());
    assert_eq!(exec("a + 1;", &mut env).unwrap(), "6");
    assert!(exec("a + ;", &mut env).is_err());
    assert_eq!(exec("a;", &mut env).unwrap(), "5");
}

#[test]
fn functions_render_as_declared() {
    assert_eq!(run("fn f(a, b) = a + b; f;"), "fn(a, b) = (a + b);");
    assert_eq!(run("max;"), "fn(s) = <builtin-function>;");
}

#[test]
fn absolute_value_of_sets_and_numbers() {
    assert_eq!(run("|{ 1, 2, 3 }|;"), "3");
    assert_eq!(run("|-2.5|;"), "2.5");
    assert!(matches!(run_err("|true|;"), Error::Runtime(RuntimeError::OperatorError(_))));
}

#[test]
fn child_scopes_and_modules() {
    let mut env = Environment::new();
    assert!(exec("let a = 1;", &mut env).is_ok());
    let mut child = env.new_child();
    assert!(child.get("a").is_some());
    assert!(exec("let a = 2; a;", &mut child).unwrap() == "2");
    assert!(exec("a;", &mut env).unwrap() == "1");
    assert!(matches!(env.import(Module::SetBuiltins), Err(RuntimeError::NameError(_))));
    assert!(math_constants_builtins(&mut child).is_ok());
    assert!(exec("PI;", &mut child).unwrap() == "3.1415926535897932384626433833");
}

#[test]
fn shown_lines_and_suppressed_declarations() {
    assert_eq!(run("let x = 1; fn f(a) = a; x; undefined; f(2);"), "1\nundefined\n2");
}

#[test]
fn set_literal_rejects_at_the_first_bad_member() {
    assert!(matches!(run_err("{ undefined, |true| };"), Error::Runtime(RuntimeError::TypeError(_))));
    assert!(matches!(run_err("{ |true|, undefined };"), Error::Runtime(RuntimeError::OperatorError(_))));
    assert!(matches!(run_err("{ 1, true, |true| };"), Error::Runtime(RuntimeError::TypeError(_))));
}

#[test]
fn runtime_error_keeps_earlier_effects() {
    let mut env = Environment::new();
    assert!(exec("let a = 1; let b = c; let d = 2;", &mut env).is_err());
    assert!(env.get("a").is_some());
    assert!(env.get("d").is_none());
}

#[test]
fn subset_needs_sets() {
    use_subset_on_numbers();
}

fn use_subset_on_numbers() {
    let one = slope::object::Object::Integer(1);
    assert!(matches!(one.is_subset(&slope::object::Object::Integer(2)), Err(RuntimeError::OperatorError(_))));
}
