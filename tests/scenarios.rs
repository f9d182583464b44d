use slope::environment::Environment;
use slope::interpreter::exec;

fn run(code: &str) -> String {
    let mut env = Environment::new();
    match exec(code, &mut env) {
        Ok(s) => s,
        Err(e) => e.to_text(),
    }
}

#[test]
fn heaviside_scenario() {
    let out = run("
        fn heaviside(x) = {
            0 if x < 0;
            0.5 if x == 0;
            1 else;
        };

        heaviside(-2);
        heaviside(0.0);
        heaviside(2 / 1);
    ");
    assert_eq!(out, "0\n0.5\n1");
}

#[test]
fn fibonacci_scenario() {
    let out = run("
        fn fib(i) = {
            1 if i == 0 or i == 1;
            fib(i - 2) + fib(i - 1) else;
        };
        fib(0);
        fib(1);
        fib(2);
        fib(3);
        fib(4);
    ");
    assert_eq!(out, "1\n1\n2\n3\n5");
}

#[test]
fn set_operations_scenario() {
    let out = run(r"
        fn any(set) = true in set;
        fn all(set) = not false in set;

        any({ true, false });
        all({ true, false });

        { 1, 2, 3 } \   { 1, 2, 3, 4, 5 };
        { 1, 2, 3 } \/  { 1, 2, 3, 4, 5 };
        { 1, 2, 3 } /\  { 1, 2, 3, 4, 5 };
        { 1, 2, 3 } /_\ { 1, 2, 3, 4, 5 };
        { 1, 2, 3 } <   { 1, 2, 3, 4, 5 };
        { 1, 2, 3 } <=  { 1, 2, 3, 4, 5 };
    ");
    assert_eq!(out, "true\ntrue\n{  }\n{ 1, 2, 3, 4, 5 }\n{ 1, 2, 3 }\n{ 4, 5 }\ntrue\ntrue");
}

#[test]
fn factorial_scenario() {
    assert_eq!(run("4!;"), "24");
}

#[test]
fn taylor_series_scenario() {
    let out = run("
        # calculate e ^ x using taylor series expansion with `n` terms of precision
        fn exp(x, n) = {
            1 if n == 0;
            x ^ n / n! + exp(x, n - 1) else;
        };

        # are we within 0.00001 of the correct answer?
        |exp(2, 15) - E ^ 2| < 1 / 100000;
    ");
    assert_eq!(out, "true");
}

#[test]
fn plus_or_minus_scenario() {
    let out = run("
        fn quadratic_formula(a, b, c) = {
            undefined if a == 0 or b ^ 2 - 4 * a * c < 0;
            - b / (2 * a) +/- (b ^ 2 - 4 * a * c) ^ 0.5 / (2 * a) else;
        };

        |min(quadratic_formula(1, -4, -12)) - -2| < 1 / 100000;
        |max(quadratic_formula(1, -4, -12)) - 6| < 1 / 100000;
        quadratic_formula(2, 3, 4);
    ");
    assert_eq!(out, "true\ntrue\nundefined");
}
