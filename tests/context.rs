use slope::ast::Expression;
use slope::ast::Expression::{AbsoluteValue, BooleanLiteral, Combination, Identifier, IntegerLiteral, RealLiteral, SetLiteral, UndefinedLiteral};
use slope::ast::{Location, Operator, Statement};
use slope::environment::Environment;
use slope::number::Real;
use slope::object::Object;
use slope::object::Object::{Boolean, Integer, Undefined};
use slope::token::Token;
use std::mem;

fn r(x: f64) -> Real {
    Real::parse(&format!("{}", x)).unwrap()
}

fn eval(e: Expression) -> Object {
    Environment::new().eval(&e).unwrap()
}

fn prefix(t: Token, right: Expression) -> Object {
    eval(Combination { left: None, operator: Operator(t, Location::Prefix), right: Some(Box::new(right)) })
}

fn postfix(left: Expression, t: Token) -> Object {
    eval(Combination { left: Some(Box::new(left)), operator: Operator(t, Location::Postfix), right: None })
}

fn infix(left: Expression, t: Token, right: Expression) -> Object {
    eval(Combination { left: Some(Box::new(left)), operator: Operator(t, Location::Infix), right: Some(Box::new(right)) })
}

/// Whether `val` lies within `tol` of `expected`, by the language's own operators.
fn within(val: Object, expected: Object, tol: Object) -> bool {
    let diff = val.sub(&expected).unwrap();
    let low = tol.neg().unwrap();
    low.less(&diff, false).unwrap() && diff.less(&tol, false).unwrap()
}

#[test]
fn context_test_add_int_real() {
    assert_eq!(infix(IntegerLiteral(2), Token::Plus, RealLiteral(r(40.0))), Object::Real(r(42.0)));
}

#[test]
fn context_test_add_int_int() {
    assert_eq!(infix(IntegerLiteral(2), Token::Plus, IntegerLiteral(40)), Integer(42));
}

#[test]
fn context_test_add_real_real() {
    assert_eq!(infix(RealLiteral(r(2.9)), Token::Plus, RealLiteral(r(39.1))), Object::Real(r(42.0)));
}

#[test]
fn context_test_add_real_int() {
    assert_eq!(infix(RealLiteral(r(2.0)), Token::Plus, IntegerLiteral(40)), Object::Real(r(42.0)));
}

#[test]
fn context_test_sub_int_int() {
    assert_eq!(infix(IntegerLiteral(40), Token::Minus, IntegerLiteral(2)), Integer(38));
}

#[test]
fn context_test_sub_real_int() {
    assert_eq!(infix(RealLiteral(r(40.0)), Token::Minus, IntegerLiteral(2)), Object::Real(r(38.0)));
}

#[test]
fn context_test_sub_int_real() {
    assert_eq!(infix(IntegerLiteral(2), Token::Minus, RealLiteral(r(40.0))), Object::Real(r(-38.0)));
}

#[test]
fn context_test_sub_real_real() {
    assert_eq!(infix(RealLiteral(r(40.0)), Token::Minus, RealLiteral(r(2.0))), Object::Real(r(38.0)));
}

#[test]
fn context_test_mult_int_int() {
    assert_eq!(infix(IntegerLiteral(3), Token::Multiply, IntegerLiteral(3)), Integer(9));
}

#[test]
fn context_test_mult_int_real() {
    assert!(within(infix(IntegerLiteral(3), Token::Multiply, RealLiteral(r(3.2))), Object::Real(r(9.6)), Object::Real(r(0.0001))));
}

#[test]
fn context_test_mult_real_int() {
    assert!(within(infix(RealLiteral(r(3.2)), Token::Multiply, IntegerLiteral(3)), Object::Real(r(9.6)), Object::Real(r(0.0001))));
}

#[test]
fn context_test_mult_real_real() {
    assert!(within(infix(RealLiteral(r(3.0)), Token::Multiply, RealLiteral(r(3.2))), Object::Real(r(9.6)), Object::Real(r(0.0001))));
}

#[test]
fn context_test_div_int_int() {
    assert_eq!(infix(IntegerLiteral(3), Token::Multiply, IntegerLiteral(3)), Integer(9));
}

#[test]
fn context_test_div_int_real() {
    assert_eq!(infix(IntegerLiteral(3), Token::Multiply, IntegerLiteral(3)), Integer(9));
}

#[test]
fn context_test_div_real_int() {
    assert_eq!(infix(IntegerLiteral(3), Token::Multiply, IntegerLiteral(3)), Integer(9));
}

#[test]
fn context_test_div_real_real() {
    assert_eq!(infix(IntegerLiteral(3), Token::Multiply, IntegerLiteral(3)), Integer(9));
}

#[test]
fn context_test_eq_int_int() {
    assert_eq!(infix(IntegerLiteral(2), Token::Equals, IntegerLiteral(2)), Boolean(true));
}

#[test]
fn context_test_eq_int_real() {
    assert_eq!(infix(IntegerLiteral(2), Token::Equals, RealLiteral(r(2.0))), Boolean(true));
}

#[test]
fn context_test_eq_real_int() {
    assert_eq!(infix(RealLiteral(r(2.0)), Token::Equals, IntegerLiteral(2)), Boolean(true));
}

#[test]
fn context_test_eq_real_real() {
    assert_eq!(infix(RealLiteral(r(2.0)), Token::Equals, RealLiteral(r(2.0))), Boolean(true));
}

#[test]
fn context_test_eq_undefined() {
    assert_eq!(infix(UndefinedLiteral, Token::Equals, IntegerLiteral(2)), Boolean(false));
}

#[test]
fn context_test_eq_undefined_2() {
    assert_eq!(infix(UndefinedLiteral, Token::Equals, UndefinedLiteral), Boolean(false));
}

#[test]
fn context_test_eq_boolean() {
    assert_eq!(infix(BooleanLiteral(true), Token::Equals, BooleanLiteral(false)), Boolean(false));
}

#[test]
fn context_test_ne_int_int() {
    assert_eq!(infix(IntegerLiteral(2), Token::NotEquals, IntegerLiteral(1)), Boolean(true));
}

#[test]
fn context_test_ne_int_real() {
    assert_eq!(infix(IntegerLiteral(2), Token::NotEquals, RealLiteral(r(2.0))), Boolean(false));
}

#[test]
fn context_test_ne_real_int() {
    assert_eq!(infix(RealLiteral(r(2.0)), Token::NotEquals, IntegerLiteral(2)), Boolean(false));
}

#[test]
fn context_test_ne_real_real() {
    assert_eq!(infix(RealLiteral(r(2.0)), Token::NotEquals, RealLiteral(r(2.0))), Boolean(false));
}

#[test]
fn context_test_ne_undefined() {
    assert_eq!(infix(UndefinedLiteral, Token::NotEquals, UndefinedLiteral), Boolean(true));
}

#[test]
fn context_test_ne_boolean() {
    assert_eq!(infix(BooleanLiteral(true), Token::NotEquals, BooleanLiteral(false)), Boolean(true));
}

#[test]
fn context_test_gt_int_int() {
    assert_eq!(infix(IntegerLiteral(1), Token::GreaterThan, IntegerLiteral(1)), Boolean(false));
}

#[test]
fn context_test_gt_int_real() {
    assert_eq!(infix(IntegerLiteral(1), Token::GreaterThan, RealLiteral(r(1.0))), Boolean(false));
}

#[test]
fn context_test_gt_real_int() {
    assert_eq!(infix(RealLiteral(r(1.0)), Token::GreaterThan, IntegerLiteral(1)), Boolean(false));
}

#[test]
fn context_test_gt_real_real() {
    assert_eq!(infix(RealLiteral(r(1.0)), Token::GreaterThan, RealLiteral(r(1.0))), Boolean(false));
}

#[test]
fn context_test_gte_int_int() {
    assert_eq!(infix(IntegerLiteral(1), Token::GreaterThanEquals, IntegerLiteral(1)), Boolean(true));
}

#[test]
fn context_test_gte_int_real() {
    assert_eq!(infix(IntegerLiteral(1), Token::GreaterThanEquals, RealLiteral(r(1.0))), Boolean(true));
}

#[test]
fn context_test_gte_real_int() {
    assert_eq!(infix(RealLiteral(r(1.0)), Token::GreaterThanEquals, IntegerLiteral(1)), Boolean(true));
}

#[test]
fn context_test_gte_real_real() {
    assert_eq!(infix(RealLiteral(r(1.0)), Token::GreaterThanEquals, RealLiteral(r(1.0))), Boolean(true));
}

#[test]
fn context_test_lt_int_int() {
    assert_eq!(infix(IntegerLiteral(1), Token::LessThan, IntegerLiteral(1)), Boolean(false));
}

#[test]
fn context_test_lt_int_real() {
    assert_eq!(infix(IntegerLiteral(1), Token::LessThan, RealLiteral(r(1.0))), Boolean(false));
}

#[test]
fn context_test_lt_real_int() {
    assert_eq!(infix(RealLiteral(r(1.0)), Token::LessThan, IntegerLiteral(1)), Boolean(false));
}

#[test]
fn context_test_lt_real_real() {
    assert_eq!(infix(RealLiteral(r(1.0)), Token::LessThan, RealLiteral(r(1.0))), Boolean(false));
}

#[test]
fn context_test_lte_int_int() {
    assert_eq!(infix(IntegerLiteral(1), Token::LessThanEquals, IntegerLiteral(1)), Boolean(true));
}

#[test]
fn context_test_lte_int_real() {
    assert_eq!(infix(IntegerLiteral(1), Token::LessThanEquals, RealLiteral(r(1.0))), Boolean(true));
}

#[test]
fn context_test_lte_real_int() {
    assert_eq!(infix(RealLiteral(r(1.0)), Token::LessThanEquals, IntegerLiteral(1)), Boolean(true));
}

#[test]
fn context_test_lte_real_real() {
    assert_eq!(infix(RealLiteral(r(1.0)), Token::LessThanEquals, RealLiteral(r(1.0))), Boolean(true));
}

#[test]
fn context_test_exp_int_int() {
    assert_eq!(infix(IntegerLiteral(1), Token::Exponent, IntegerLiteral(1)), Integer(1));
}

#[test]
fn context_test_exp_int_real() {
    assert_eq!(infix(IntegerLiteral(1), Token::Exponent, RealLiteral(r(1.0))), Object::Real(r(1.0)));
}

#[test]
fn context_test_exp_real_int() {
    assert_eq!(infix(RealLiteral(r(1.0)), Token::Exponent, IntegerLiteral(1)), Object::Real(r(1.0)));
}

#[test]
fn context_test_exp_real_real() {
    assert_eq!(infix(RealLiteral(r(1.0)), Token::Exponent, RealLiteral(r(1.0))), Object::Real(r(1.0)));
}

#[test]
fn context_test_neg_int() {
    assert_eq!(prefix(Token::Minus, IntegerLiteral(1)), Integer(-1));
}

#[test]
fn context_test_neg_real() {
    assert_eq!(prefix(Token::Minus, RealLiteral(r(1.0))), Object::Real(r(-1.0)));
}

#[test]
fn context_test_not_bool_1() {
    assert_eq!(prefix(Token::Not, BooleanLiteral(true)), Boolean(false));
}

#[test]
fn context_test_not_bool_2() {
    assert_eq!(prefix(Token::Not, BooleanLiteral(false)), Boolean(true));
}

#[test]
fn context_test_or() {
    assert_eq!(infix(BooleanLiteral(true), Token::Or, BooleanLiteral(false)), Boolean(true));
}

#[test]
fn context_test_and() {
    assert_eq!(infix(BooleanLiteral(true), Token::And, BooleanLiteral(false)), Boolean(false));
}

#[test]
fn context_test_xor() {
    assert_eq!(infix(BooleanLiteral(true), Token::Xor, BooleanLiteral(true)), Boolean(false));
}

#[test]
fn context_test_coalesce_1() {
    assert_eq!(infix(UndefinedLiteral, Token::Question, BooleanLiteral(true)), Boolean(true));
}

#[test]
fn context_test_coalesce_2() {
    assert_eq!(infix(BooleanLiteral(false), Token::Question, BooleanLiteral(true)), Boolean(false));
}

#[test]
fn context_test_mod_int_int() {
    assert_eq!(infix(IntegerLiteral(15), Token::Modulo, IntegerLiteral(4)), Integer(3));
}

#[test]
fn context_test_assignment_set() {
    let mut env = Environment::new();
    let stmt = Statement::Assignment {
        identifier: String::from("foobar"),
        expression: IntegerLiteral(123)
    };
    let obj = env.eval_statement(&stmt).unwrap();
    assert_eq!(
        mem::discriminant(&obj),
        mem::discriminant(&Undefined)
    );
}

#[test]
fn context_test_assignment_get() {
    let mut env = Environment::new();
    let stmt = Statement::Assignment {
        identifier: String::from("foobar"),
        expression: IntegerLiteral(123)
    };
    env.eval_statement(&stmt).unwrap();

    let stmt = Statement::ExpressionStatement {
        expression: Combination {
            left: Some(Box::new(Identifier(String::from("foobar")))),
            operator: Operator(Token::Plus, Location::Infix),
            right: Some(Box::new(IntegerLiteral(321)))
        }
    };
    let obj = env.eval_statement(&stmt).unwrap();
    assert_eq!(obj, Integer(444));
}
