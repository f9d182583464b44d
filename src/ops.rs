//! The operators of the language on values: arithmetic with decimal
//! coercion, boolean logic, comparison, containment and set algebra.
use vstd::prelude::*;
use crate::errors::RuntimeError;
use crate::number::{Real, normalized, decimal_sum, decimal_difference, decimal_product, decimal_quotient, decimal_int_power, decimal_power, real_lt};
use crate::object::{Object, views, lemma_views, compare};
use crate::sets::{member, insert_member, add_members, is_subset_items};
use crate::value::{ErrorKind, Kind, Value, kind_of, contains, set_wf, orderable, value_wf, lemma_vcmp_zero};
use crate::token::Token;

verus! {

/// What an evaluation gives, as contracts speak of it.
pub open spec fn outcome(r: Result<Object, RuntimeError>) -> Result<Value, ErrorKind> {
    match r {
        Ok(o) => Ok(o.view()),
        Err(e) => Err(e.kind()),
    }
}

/// An integer result, or `Undefined` where it does not fit 64 bits.
pub open spec fn int_value(x: int) -> Value {
    if i64::MIN <= x <= i64::MAX {
        Value::Integer(x as i64)
    } else {
        Value::Undefined
    }
}

/// A decimal result, or `Undefined` where there is none.
pub open spec fn real_value(r: Option<Real>) -> Value {
    match r {
        Some(x) => Value::Real(x),
        None => Value::Undefined,
    }
}

pub open spec fn is_number(v: Value) -> bool {
    v is Integer || v is Real
}

/// A number as a decimal.
pub open spec fn as_real(v: Value) -> Real {
    match v {
        Value::Integer(i) => Real::spec_from_int(i),
        Value::Real(r) => r,
        _ => Real { mantissa: 0, scale: 0 },
    }
}

#[derive(Debug, Clone, Copy, PartialEq, Eq, Structural)]
pub enum ArithOp {
    Add,
    Sub,
    Mul,
}

pub open spec fn spec_int_arith(op: ArithOp, x: int, y: int) -> int {
    match op {
        ArithOp::Add => x + y,
        ArithOp::Sub => x - y,
        ArithOp::Mul => x * y,
    }
}

pub open spec fn spec_dec_arith(op: ArithOp, a: Real, b: Real) -> Option<Real> {
    match op {
        ArithOp::Add => normalized(decimal_sum(a.pair(), b.pair())),
        ArithOp::Sub => normalized(decimal_difference(a.pair(), b.pair())),
        ArithOp::Mul => normalized(decimal_product(a.pair(), b.pair())),
    }
}

/// `+`, `-`, `*`: integers stay integers (`Undefined` on overflow); with a
/// decimal operand the result is the decimal one (`Undefined` where it
/// does not fit); anything else is an operator error.
pub open spec fn spec_arith(op: ArithOp, a: Value, b: Value) -> Result<Value, ErrorKind> {
    match (a, b) {
        (Value::Integer(x), Value::Integer(y)) => Ok(int_value(spec_int_arith(op, x as int, y as int))),
        _ => if is_number(a) && is_number(b) {
            Ok(real_value(spec_dec_arith(op, as_real(a), as_real(b))))
        } else {
            Err(ErrorKind::Operator)
        },
    }
}

/// `/`: always a decimal; `Undefined` for a zero divisor or where the
/// quotient does not fit.
pub open spec fn spec_div(a: Value, b: Value) -> Result<Value, ErrorKind> {
    if is_number(a) && is_number(b) {
        if as_real(b).mantissa == 0 {
            Ok(Value::Undefined)
        } else {
            Ok(real_value(normalized(decimal_quotient(as_real(a).pair(), as_real(b).pair()))))
        }
    } else {
        Err(ErrorKind::Operator)
    }
}

/// The remainder of truncating division: its sign is the dividend's.
pub open spec fn trunc_rem(x: int, y: int) -> int {
    let m = if y < 0 { -y } else { y };
    if x >= 0 {
        x % m
    } else {
        -((-x) % m)
    }
}

/// `%`: on integers only; `Undefined` for a zero divisor.
pub open spec fn spec_modulo(a: Value, b: Value) -> Result<Value, ErrorKind> {
    match (a, b) {
        (Value::Integer(x), Value::Integer(y)) => if y == 0 {
            Ok(Value::Undefined)
        } else {
            Ok(Value::Integer(trunc_rem(x as int, y as int) as i64))
        },
        _ => Err(ErrorKind::Operator),
    }
}

/// `^`: always a decimal. A whole exponent gives the integer power; a
/// fractional one is defined for a positive base (and zero to a positive
/// power). Where the real result would be undefined or infinite, or does
/// not fit, the result is `Undefined`.
pub open spec fn spec_pow(a: Value, b: Value) -> Result<Value, ErrorKind> {
    if is_number(a) && is_number(b) {
        let x = as_real(a);
        let e = as_real(b);
        if x.mantissa == 0 && e.mantissa < 0 {
            Ok(Value::Undefined)
        } else if e.scale == 0 {
            if i64::MIN <= e.mantissa <= i64::MAX {
                Ok(real_value(normalized(decimal_int_power(x.pair(), e.mantissa as int))))
            } else {
                Ok(Value::Undefined)
            }
        } else if x.mantissa < 0 {
            Ok(Value::Undefined)
        } else if x.mantissa == 0 {
            Ok(Value::Real(Real { mantissa: 0, scale: 0 }))
        } else {
            Ok(real_value(normalized(decimal_power(x.pair(), e.pair()))))
        }
    } else {
        Err(ErrorKind::Operator)
    }
}

pub open spec fn spec_neg(a: Value) -> Result<Value, ErrorKind> {
    match a {
        Value::Integer(x) => Ok(int_value(-x)),
        Value::Real(r) => Ok(Value::Real(Real { mantissa: (-r.mantissa) as i128, scale: r.scale })),
        _ => Err(ErrorKind::Operator),
    }
}

pub open spec fn spec_not(a: Value) -> Result<Value, ErrorKind> {
    match a {
        Value::Boolean(x) => Ok(Value::Boolean(!x)),
        _ => Err(ErrorKind::Operator),
    }
}

#[derive(Debug, Clone, Copy, PartialEq, Eq, Structural)]
pub enum LogicOp {
    And,
    Or,
    Xor,
}

pub open spec fn spec_logic(op: LogicOp, a: Value, b: Value) -> Result<Value, ErrorKind> {
    match (a, b) {
        (Value::Boolean(x), Value::Boolean(y)) => Ok(Value::Boolean(
            match op {
                LogicOp::And => x && y,
                LogicOp::Or => x || y,
                LogicOp::Xor => x != y,
            },
        )),
        _ => Err(ErrorKind::Operator),
    }
}

/// `?`: the right operand exactly when the left one is `Undefined`.
pub open spec fn spec_coalesce(a: Value, b: Value) -> Value {
    if a is Undefined {
        b
    } else {
        a
    }
}

/// `|x|`: the magnitude of a number, the size of a set.
pub open spec fn spec_abs(a: Value) -> Result<Value, ErrorKind> {
    match a {
        Value::Integer(x) => Ok(int_value(if x < 0 { -x } else { x as int })),
        Value::Real(r) => Ok(Value::Real(Real { mantissa: (if r.mantissa < 0 { -r.mantissa } else { r.mantissa as int }) as i128, scale: r.scale })),
        Value::FiniteSet(xs, _) => Ok(int_value(xs.len() as int)),
        _ => Err(ErrorKind::Operator),
    }
}

pub open spec fn fact(n: nat) -> nat
    decreases n,
{
    if n == 0 {
        1
    } else {
        n * fact((n - 1) as nat)
    }
}

/// `n!`: for integers from zero on; `Undefined` where it exceeds 64 bits.
pub open spec fn spec_factorial(a: Value) -> Result<Value, ErrorKind> {
    match a {
        Value::Integer(x) => if x < 0 {
            Err(ErrorKind::Operator)
        } else {
            Ok(int_value(fact(x as nat) as int))
        },
        _ => Err(ErrorKind::Type),
    }
}

/// `in`: membership in a set of the element's kind; an empty untagged set
/// holds nothing.
pub open spec fn spec_in(a: Value, b: Value) -> Result<Value, ErrorKind> {
    match b {
        Value::FiniteSet(xs, k) => if k is None {
            Ok(Value::Boolean(false))
        } else if kind_of(a) == k {
            Ok(Value::Boolean(contains(xs, a)))
        } else {
            Err(ErrorKind::Type)
        },
        _ => Err(ErrorKind::Operator),
    }
}

/// Numbers compared by value.
pub open spec fn num_lt(a: Value, b: Value) -> bool {
    match (a, b) {
        (Value::Integer(x), Value::Integer(y)) => x < y,
        _ => real_lt(as_real(a), as_real(b)),
    }
}

pub open spec fn num_eq(a: Value, b: Value) -> bool {
    match (a, b) {
        (Value::Integer(x), Value::Integer(y)) => x == y,
        _ => as_real(a) == as_real(b),
    }
}

pub open spec fn subset(xs: Seq<Value>, ys: Seq<Value>) -> bool {
    forall|v: Value| contains(xs, v) ==> contains(ys, v)
}

/// `==`: numbers by value, booleans, and sets of one tag by their members;
/// `Undefined` equals nothing; other pairs are an operator error.
pub open spec fn spec_equals(a: Value, b: Value) -> Result<bool, ErrorKind> {
    if a is Undefined || b is Undefined {
        Ok(false)
    } else if is_number(a) && is_number(b) {
        Ok(num_eq(a, b))
    } else {
        match (a, b) {
            (Value::Boolean(x), Value::Boolean(y)) => Ok(x == y),
            (Value::FiniteSet(xs, k1), Value::FiniteSet(ys, k2)) => if k1 == k2 {
                Ok(xs == ys)
            } else {
                Err(ErrorKind::Operator)
            },
            _ => Err(ErrorKind::Operator),
        }
    }
}

/// `<` (strict) and `<=`: numbers by value; between sets of one tag,
/// proper subset and subset.
pub open spec fn spec_less(a: Value, b: Value, strict: bool) -> Result<bool, ErrorKind> {
    if is_number(a) && is_number(b) {
        Ok(if strict { num_lt(a, b) } else { num_lt(a, b) || num_eq(a, b) })
    } else {
        match (a, b) {
            (Value::FiniteSet(xs, k1), Value::FiniteSet(ys, k2)) => if k1 == k2 {
                Ok(if strict { subset(xs, ys) && xs.len() != ys.len() } else { subset(xs, ys) })
            } else {
                Err(ErrorKind::Operator)
            },
            _ => Err(ErrorKind::Operator),
        }
    }
}

pub open spec fn bool_outcome(r: Result<bool, ErrorKind>) -> Result<Value, ErrorKind> {
    match r {
        Ok(b) => Ok(Value::Boolean(b)),
        Err(e) => Err(e),
    }
}

#[derive(Debug, Clone, Copy, PartialEq, Eq, Structural)]
pub enum SetOp {
    Union,
    Intersection,
    Difference,
    SymmetricDifference,
}

pub open spec fn in_set_op(op: SetOp, xs: Seq<Value>, ys: Seq<Value>, v: Value) -> bool {
    match op {
        SetOp::Union => contains(xs, v) || contains(ys, v),
        SetOp::Intersection => contains(xs, v) && contains(ys, v),
        SetOp::Difference => contains(xs, v) && !contains(ys, v),
        SetOp::SymmetricDifference => contains(xs, v) != contains(ys, v),
    }
}

/// A well-formed set value with tag `k` whose members are those of `p`.
pub open spec fn is_set_of(r: Value, k: Option<Kind>, p: spec_fn(Value) -> bool) -> bool {
    match r {
        Value::FiniteSet(zs, kk) => kk == k && set_wf(zs, k) && forall|v: Value| #[trigger] contains(zs, v) == p(v),
        _ => false,
    }
}

pub fn operator_error(msg: &str) -> (r: RuntimeError)
    ensures
        r.kind() == ErrorKind::Operator,
{
    RuntimeError::OperatorError(msg.to_string())
}

pub fn type_error(msg: &str) -> (r: RuntimeError)
    ensures
        r.kind() == ErrorKind::Type,
{
    RuntimeError::TypeError(msg.to_string())
}

fn int_object(x: Option<i64>, Ghost(v): Ghost<int>) -> (r: Object)
    requires
        x == (if i64::MIN <= v <= i64::MAX { Some(v as i64) } else { None::<i64> }),
    ensures
        r.view() == int_value(v),
        r.wf(),
{
    match x {
        Some(z) => Object::Integer(z),
        None => Object::Undefined,
    }
}

fn real_object(x: Option<Real>) -> (r: Object)
    requires
        x matches Some(y) ==> y.wf(),
    ensures
        r.view() == real_value(x),
        r.wf(),
{
    match x {
        Some(y) => Object::Real(y),
        None => Object::Undefined,
    }
}

fn number(o: &Object) -> (r: Option<Real>)
    requires
        o.wf(),
    ensures
        r is Some == is_number(o.view()),
        r matches Some(x) ==> x == as_real(o.view()) && x.wf(),
{
    match o {
        Object::Integer(i) => Some(Real::from_int(*i)),
        Object::Real(x) => Some(*x),
        _ => None,
    }
}

fn bool_object(r: Result<bool, RuntimeError>, Ghost(s): Ghost<Result<bool, ErrorKind>>) -> (o: Result<Object, RuntimeError>)
    requires
        match r {
            Ok(b) => s == Ok::<bool, ErrorKind>(b),
            Err(e) => s == Err::<bool, ErrorKind>(e.kind()),
        },
    ensures
        outcome(o) == bool_outcome(s),
        o matches Ok(x) ==> x.wf(),
{
    match r {
        Ok(b) => Ok(Object::Boolean(b)),
        Err(e) => Err(e),
    }
}

impl Object {
    pub fn is_undefined(&self) -> (r: bool)
        ensures
            r == (self.view() is Undefined),
    {
        match self {
            Object::Undefined => true,
            _ => false,
        }
    }

    /// `+`, `-` or `*`.
    pub fn arith(&self, rhs: &Object, op: ArithOp) -> (r: Result<Object, RuntimeError>)
        requires
            self.wf(),
            rhs.wf(),
        ensures
            outcome(r) == spec_arith(op, self.view(), rhs.view()),
            r matches Ok(o) ==> o.wf(),
    {
        match (self, rhs) {
            (Object::Integer(x), Object::Integer(y)) => {
                let z = match op {
                    ArithOp::Add => x.checked_add(*y),
                    ArithOp::Sub => x.checked_sub(*y),
                    ArithOp::Mul => x.checked_mul(*y),
                };
                Ok(int_object(z, Ghost(spec_int_arith(op, *x as int, *y as int))))
            },
            _ => match (number(self), number(rhs)) {
                (Some(a), Some(b)) => {
                    let z = match op {
                        ArithOp::Add => a.add(&b),
                        ArithOp::Sub => a.sub(&b),
                        ArithOp::Mul => a.mul(&b),
                    };
                    Ok(real_object(z))
                },
                _ => Err(operator_error("Cannot apply an arithmetic operator to these operands.")),
            },
        }
    }

    pub fn add(&self, rhs: &Object) -> (r: Result<Object, RuntimeError>)
        requires
            self.wf(),
            rhs.wf(),
        ensures
            outcome(r) == spec_arith(ArithOp::Add, self.view(), rhs.view()),
            r matches Ok(o) ==> o.wf(),
    {
        self.arith(rhs, ArithOp::Add)
    }

    pub fn sub(&self, rhs: &Object) -> (r: Result<Object, RuntimeError>)
        requires
            self.wf(),
            rhs.wf(),
        ensures
            outcome(r) == spec_arith(ArithOp::Sub, self.view(), rhs.view()),
            r matches Ok(o) ==> o.wf(),
    {
        self.arith(rhs, ArithOp::Sub)
    }

    pub fn mul(&self, rhs: &Object) -> (r: Result<Object, RuntimeError>)
        requires
            self.wf(),
            rhs.wf(),
        ensures
            outcome(r) == spec_arith(ArithOp::Mul, self.view(), rhs.view()),
            r matches Ok(o) ==> o.wf(),
    {
        self.arith(rhs, ArithOp::Mul)
    }

    /// `/`.
    pub fn div(&self, rhs: &Object) -> (r: Result<Object, RuntimeError>)
        requires
            self.wf(),
            rhs.wf(),
        ensures
            outcome(r) == spec_div(self.view(), rhs.view()),
            r matches Ok(o) ==> o.wf(),
    {
        match (number(self), number(rhs)) {
            (Some(a), Some(b)) => {
                if b.mantissa == 0 {
                    Ok(Object::Undefined)
                } else {
                    Ok(real_object(a.div(&b)))
                }
            },
            _ => Err(operator_error("Cannot divide these operands.")),
        }
    }

    /// `%`.
    pub fn modulo(&self, rhs: &Object) -> (r: Result<Object, RuntimeError>)
        requires
            self.wf(),
            rhs.wf(),
        ensures
            outcome(r) == spec_modulo(self.view(), rhs.view()),
            r matches Ok(o) ==> o.wf(),
    {
        match (self, rhs) {
            (Object::Integer(x), Object::Integer(y)) => {
                if *y == 0 {
                    Ok(Object::Undefined)
                } else {
                    let xx: i128 = *x as i128;
                    let yy: i128 = *y as i128;
                    let ax: i128 = if xx < 0 { -xx } else { xx };
                    let ay: i128 = if yy < 0 { -yy } else { yy };
                    let m: i128 = ax % ay;
                    let z: i128 = if xx < 0 { -m } else { m };
                    assert(z == trunc_rem(*x as int, *y as int));
                    assert(-ay < z < ay);
                    Ok(Object::Integer(z as i64))
                }
            },
            _ => Err(operator_error("Cannot take the remainder of these operands.")),
        }
    }

    /// `^`.
    pub fn pow(&self, rhs: &Object) -> (r: Result<Object, RuntimeError>)
        requires
            self.wf(),
            rhs.wf(),
        ensures
            outcome(r) == spec_pow(self.view(), rhs.view()),
            r matches Ok(o) ==> o.wf(),
    {
        match (number(self), number(rhs)) {
            (Some(x), Some(e)) => {
                if x.mantissa == 0 && e.mantissa < 0 {
                    Ok(Object::Undefined)
                } else if e.scale == 0 {
                    if i64::MIN as i128 <= e.mantissa && e.mantissa <= i64::MAX as i128 {
                        Ok(real_object(x.powi(e.mantissa as i64)))
                    } else {
                        Ok(Object::Undefined)
                    }
                } else if x.mantissa < 0 {
                    Ok(Object::Undefined)
                } else if x.mantissa == 0 {
                    Ok(Object::Real(Real::zero()))
                } else {
                    Ok(real_object(x.powd(&e)))
                }
            },
            _ => Err(operator_error("Cannot exponentiate these operands.")),
        }
    }

    /// Prefix `-`.
    pub fn neg(&self) -> (r: Result<Object, RuntimeError>)
        requires
            self.wf(),
        ensures
            outcome(r) == spec_neg(self.view()),
            r matches Ok(o) ==> o.wf(),
    {
        match self {
            Object::Integer(x) => Ok(
                if *x == i64::MIN {
                    Object::Undefined
                } else {
                    Object::Integer(-*x)
                },
            ),
            Object::Real(x) => Ok(Object::Real(x.negate())),
            _ => Err(operator_error("Cannot negate this operand.")),
        }
    }

    /// Prefix `not`.
    pub fn not(&self) -> (r: Result<Object, RuntimeError>)
        requires
            self.wf(),
        ensures
            outcome(r) == spec_not(self.view()),
            r matches Ok(o) ==> o.wf(),
    {
        match self {
            Object::Boolean(x) => Ok(Object::Boolean(!*x)),
            _ => Err(operator_error("Cannot boolean-negate this operand.")),
        }
    }

    /// `and`, `or` or `xor`.
    pub fn logic(&self, rhs: &Object, op: LogicOp) -> (r: Result<Object, RuntimeError>)
        requires
            self.wf(),
            rhs.wf(),
        ensures
            outcome(r) == spec_logic(op, self.view(), rhs.view()),
            r matches Ok(o) ==> o.wf(),
    {
        match (self, rhs) {
            (Object::Boolean(x), Object::Boolean(y)) => Ok(Object::Boolean(
                match op {
                    LogicOp::And => *x && *y,
                    LogicOp::Or => *x || *y,
                    LogicOp::Xor => *x != *y,
                },
            )),
            _ => Err(operator_error("Cannot apply a boolean operator to these operands.")),
        }
    }

    pub fn and(&self, rhs: &Object) -> (r: Result<Object, RuntimeError>)
        requires
            self.wf(),
            rhs.wf(),
        ensures
            outcome(r) == spec_logic(LogicOp::And, self.view(), rhs.view()),
    {
        self.logic(rhs, LogicOp::And)
    }

    pub fn or(&self, rhs: &Object) -> (r: Result<Object, RuntimeError>)
        requires
            self.wf(),
            rhs.wf(),
        ensures
            outcome(r) == spec_logic(LogicOp::Or, self.view(), rhs.view()),
    {
        self.logic(rhs, LogicOp::Or)
    }

    pub fn xor(&self, rhs: &Object) -> (r: Result<Object, RuntimeError>)
        requires
            self.wf(),
            rhs.wf(),
        ensures
            outcome(r) == spec_logic(LogicOp::Xor, self.view(), rhs.view()),
    {
        self.logic(rhs, LogicOp::Xor)
    }

    /// `?`: the right operand when `self` is `Undefined`, else `self`.
    pub fn coalesce(self, rhs: Object) -> (r: Object)
        ensures
            r.view() == spec_coalesce(self.view(), rhs.view()),
    {
        match self {
            Object::Undefined => rhs,
            _ => self,
        }
    }

    /// `|x|`.
    pub fn abs(&self) -> (r: Result<Object, RuntimeError>)
        requires
            self.wf(),
        ensures
            outcome(r) == spec_abs(self.view()),
            r matches Ok(o) ==> o.wf(),
    {
        match self {
            Object::Integer(x) => Ok(
                if *x == i64::MIN {
                    Object::Undefined
                } else if *x < 0 {
                    Object::Integer(-*x)
                } else {
                    Object::Integer(*x)
                },
            ),
            Object::Real(x) => {
                let y = x.abs();
                Ok(Object::Real(y))
            },
            Object::FiniteSet { items, .. } => {
                proof {
                    lemma_views(items@);
                }
                let n = items.len();
                if (n as u64) <= (i64::MAX as u64) {
                    Ok(Object::Integer(n as i64))
                } else {
                    Ok(Object::Undefined)
                }
            },
            _ => Err(operator_error("Cannot take the absolute value of this operand.")),
        }
    }

    /// Postfix `!`.
    pub fn factorial(&self) -> (r: Result<Object, RuntimeError>)
        requires
            self.wf(),
        ensures
            outcome(r) == spec_factorial(self.view()),
            r matches Ok(o) ==> o.wf(),
    {
        match self {
            Object::Integer(x) => {
                if *x < 0 {
                    return Err(operator_error("Cannot use factorial on a negative integer."));
                }
                let mut acc: i64 = 1;
                let mut i: i128 = 1;
                while i <= *x as i128
                    invariant
                        self.view() == Value::Integer(*x),
                        1 <= i,
                        i <= *x + 1,
                        *x >= 0,
                        acc == fact((i - 1) as nat),
                    decreases *x + 1 - i,
                {
                    proof {
                        lemma_fact_pos((i - 1) as nat);
                    }
                    let ghost prev = acc;
                    match acc.checked_mul(i as i64) {
                        Some(a) => {
                            acc = a;
                            proof {
                                assert(fact(i as nat) == i * fact((i - 1) as nat));
                                assert(acc == prev * i);
                                assert(acc == fact(i as nat)) by (nonlinear_arith)
                                    requires
                                        acc == prev * i,
                                        fact(i as nat) == i * prev,
                                ;
                            }
                        },
                        None => {
                            proof {
                                assert(prev * i >= 1) by (nonlinear_arith)
                                    requires
                                        prev >= 1,
                                        i >= 1,
                                ;
                                assert(fact((i - 1) as nat) * ((i - 1) as nat + 1) > i64::MAX);
                                lemma_fact_grows((i - 1) as nat, *x as nat);
                                assert(fact(*x as nat) > i64::MAX);
                                assert(int_value(fact(*x as nat) as int) == Value::Undefined);
                            }
                            return Ok(Object::Undefined);
                        },
                    }
                    i = i + 1;
                }
                Ok(Object::Integer(acc))
            },
            _ => Err(type_error("Factorial expects a non-negative integer.")),
        }
    }
}

/// A value that a set may hold as a member.
pub open spec fn storable(v: Value) -> bool {
    v is Integer || v is Real || v is Boolean || v is FiniteSet
}

/// Members of a set literal: none undefined, all storable, all of the
/// first one's kind.
pub open spec fn literal_ok(vs: Seq<Value>) -> bool {
    forall|i: int| #![trigger vs[i]] 0 <= i < vs.len() ==> storable(vs[i]) && kind_of(vs[i]) == kind_of(vs[0])
}

pub open spec fn literal_kind(vs: Seq<Value>) -> Option<Kind> {
    if vs.len() == 0 {
        None
    } else {
        kind_of(vs[0])
    }
}

pub fn kind_of_object(o: &Object) -> (r: Option<Kind>)
    ensures
        r == kind_of(o.view()),
{
    match o {
        Object::Integer(_) => Some(Kind::Integer),
        Object::Real(_) => Some(Kind::Real),
        Object::Boolean(_) => Some(Kind::Boolean),
        Object::FiniteSet { .. } => Some(Kind::FiniteSet),
        Object::Function { .. } => Some(Kind::Function),
        Object::BuiltinFunction { .. } => Some(Kind::BuiltinFunction),
        Object::Undefined => None,
    }
}

pub fn is_storable(o: &Object) -> (r: bool)
    ensures
        r == storable(o.view()),
{
    match o {
        Object::Integer(_) | Object::Real(_) | Object::Boolean(_) | Object::FiniteSet { .. } => true,
        _ => false,
    }
}

pub proof fn lemma_storable_orderable(v: Value)
    requires
        storable(v),
        value_wf(v),
    ensures
        orderable(v),
{
}

/// The set of a literal's member values: duplicates merge; an undefined
/// member, a function, or members of two kinds are a type error.
pub fn build_set(values: &Vec<Object>) -> (r: Result<Object, RuntimeError>)
    requires
        forall|i: int| 0 <= i < values.len() ==> (#[trigger] values@[i]).wf(),
    ensures
        literal_ok(views(values@)) ==> (r matches Ok(o) && is_set_of(
            o.view(),
            literal_kind(views(values@)),
            |v: Value| contains(views(values@), v),
        )),
        !literal_ok(views(values@)) ==> outcome(r) == Err::<Value, ErrorKind>(ErrorKind::Type),
        r matches Ok(o) ==> o.wf(),
{
    let ghost vs = views(values@);
    proof {
        lemma_views(values@);
    }
    if values.len() > 0 && !is_storable(&values[0]) {
        return Err(type_error("Set members must be defined values of one kind."));
    }
    let kind = if values.len() == 0 {
        None
    } else {
        kind_of_object(&values[0])
    };
    let mut items: Vec<Object> = Vec::new();
    let mut i: usize = 0;
    proof {
        assert(set_wf(views(items@), kind)) by {
            lemma_views(items@);
        }
    }
    while i < values.len()
        invariant
            i <= values.len(),
            vs == views(values@),
            vs.len() == values.len(),
            forall|j: int| 0 <= j < values.len() ==> (#[trigger] values@[j]).wf() && vs[j] == values@[j].view(),
            kind == literal_kind(vs),
            forall|j: int| #![trigger vs[j]] 0 <= j < i ==> storable(vs[j]) && kind_of(vs[j]) == kind_of(vs[0]),
            set_wf(views(items@), kind),
            forall|v: Value| #[trigger] contains(views(items@), v) == (exists|j: int| 0 <= j < i && vs[j] == v),
        decreases values.len() - i,
    {
        let o = &values[i];
        if !is_storable(o) || kind_of_object(o) != kind {
            return Err(type_error("Set members must be defined values of one kind."));
        }
        proof {
            lemma_storable_orderable(vs[i as int]);
        }
        let ghost before = views(items@);
        insert_member(&mut items, o.copy(), Ghost(kind));
        proof {
            assert forall|v: Value| #[trigger] contains(views(items@), v) == (exists|j: int|
                0 <= j < i + 1 && vs[j] == v) by {
                if v == vs[i as int] {
                    assert(0 <= i < i + 1 && vs[i as int] == v);
                }
                if exists|j: int| 0 <= j < i + 1 && vs[j] == v {
                    let j = choose|j: int| 0 <= j < i + 1 && vs[j] == v;
                    if j < i {
                        assert(exists|j: int| 0 <= j < i && vs[j] == v);
                    }
                }
            }
        }
        i = i + 1;
    }
    proof {
        assert forall|v: Value| #[trigger] contains(views(items@), v) == contains(vs, v) by {
            if contains(vs, v) {
                let j = choose|j: int| 0 <= j < vs.len() && vs[j] == v;
                assert(0 <= j < i && vs[j] == v);
            }
        }
        lemma_views(items@);
    }
    Ok(Object::FiniteSet { items, kind })
}

impl Object {
    /// `==` between two values.
    pub fn equals(&self, rhs: &Object) -> (r: Result<bool, RuntimeError>)
        requires
            self.wf(),
            rhs.wf(),
        ensures
            match r {
                Ok(b) => spec_equals(self.view(), rhs.view()) == Ok::<bool, ErrorKind>(b),
                Err(e) => spec_equals(self.view(), rhs.view()) == Err::<bool, ErrorKind>(e.kind()),
            },
    {
        if self.is_undefined() || rhs.is_undefined() {
            return Ok(false);
        }
        match (number(self), number(rhs)) {
            (Some(a), Some(b)) => {
                return match (self, rhs) {
                    (Object::Integer(x), Object::Integer(y)) => Ok(*x == *y),
                    _ => Ok(a == b),
                };
            },
            _ => {},
        }
        match (self, rhs) {
            (Object::Boolean(x), Object::Boolean(y)) => Ok(*x == *y),
            (Object::FiniteSet { kind: k1, .. }, Object::FiniteSet { kind: k2, .. }) => {
                if *k1 == *k2 {
                    let c = compare(self, rhs);
                    proof {
                        lemma_vcmp_zero(self.view(), rhs.view());
                    }
                    Ok(c == 0)
                } else {
                    Err(operator_error("Cannot compare sets of different kinds."))
                }
            },
            _ => Err(operator_error("Cannot compare these operands for equality.")),
        }
    }

    /// `<` (strict) or `<=`.
    pub fn less(&self, rhs: &Object, strict: bool) -> (r: Result<bool, RuntimeError>)
        requires
            self.wf(),
            rhs.wf(),
        ensures
            match r {
                Ok(b) => spec_less(self.view(), rhs.view(), strict) == Ok::<bool, ErrorKind>(b),
                Err(e) => spec_less(self.view(), rhs.view(), strict) == Err::<bool, ErrorKind>(e.kind()),
            },
    {
        match (number(self), number(rhs)) {
            (Some(a), Some(b)) => {
                return match (self, rhs) {
                    (Object::Integer(x), Object::Integer(y)) => Ok(
                        if strict {
                            *x < *y
                        } else {
                            *x <= *y
                        },
                    ),
                    _ => Ok(
                        if strict {
                            a.less_than(&b)
                        } else {
                            a.less_than(&b) || a == b
                        },
                    ),
                };
            },
            _ => {},
        }
        match (self, rhs) {
            (Object::FiniteSet { items: xs, kind: k1 }, Object::FiniteSet { items: ys, kind: k2 }) => {
                if *k1 == *k2 {
                    proof {
                        lemma_views(xs@);
                        lemma_views(ys@);
                    }
                    let sub = is_subset_items(xs, ys, Ghost(*k1));
                    Ok(
                        if strict {
                            sub && xs.len() != ys.len()
                        } else {
                            sub
                        },
                    )
                } else {
                    Err(operator_error("Cannot compare sets of different kinds."))
                }
            },
            _ => Err(operator_error("Cannot order these operands.")),
        }
    }

    /// `in`: whether `self` is a member of the set `rhs`.
    pub fn in_(&self, rhs: &Object) -> (r: Result<Object, RuntimeError>)
        requires
            self.wf(),
            rhs.wf(),
        ensures
            outcome(r) == spec_in(self.view(), rhs.view()),
            r matches Ok(o) ==> o.wf(),
    {
        match rhs {
            Object::FiniteSet { items, kind } => {
                if kind.is_none() {
                    Ok(Object::Boolean(false))
                } else if kind_of_object(self) == *kind {
                    proof {
                        lemma_storable_orderable(self.view());
                    }
                    Ok(Object::Boolean(member(items, self, Ghost(*kind))))
                } else {
                    Err(type_error("Cannot check for containment with differing kinds."))
                }
            },
            _ => Err(operator_error("Containment needs a set on the right.")),
        }
    }

    /// `+/-` (and `-/+`): the set of `self + rhs` and `self - rhs`.
    pub fn pm(&self, rhs: &Object) -> (r: Result<Object, RuntimeError>)
        requires
            self.wf(),
            rhs.wf(),
        ensures
            match (spec_arith(ArithOp::Add, self.view(), rhs.view()), spec_arith(ArithOp::Sub, self.view(), rhs.view())) {
                (Ok(x), Ok(y)) => if x is Undefined || y is Undefined {
                    outcome(r) == Ok::<Value, ErrorKind>(Value::Undefined)
                } else {
                    r matches Ok(o) && is_set_of(o.view(), kind_of(x), |v: Value| v == x || v == y)
                },
                (Err(e), _) => outcome(r) == Err::<Value, ErrorKind>(e),
                (_, Err(e)) => outcome(r) == Err::<Value, ErrorKind>(e),
            },
            r matches Ok(o) ==> o.wf(),
    {
        let one = self.add(rhs)?;
        let two = self.sub(rhs)?;
        if one.is_undefined() || two.is_undefined() {
            return Ok(Object::Undefined);
        }
        let mut values: Vec<Object> = Vec::new();
        values.push(one);
        values.push(two);
        proof {
            lemma_views(values@);
            let vs = views(values@);
            assert(vs[0] == values@[0].view());
            assert forall|v: Value| contains(vs, v) == (v == vs[0] || v == vs[1]) by {
                if v == vs[1] {
                    assert(vs[1] == v);
                }
            }
        }
        build_set(&values)
    }

    /// A set operation between two sets of one kind tag.
    pub fn set_op(&self, rhs: &Object, op: SetOp) -> (r: Result<Object, RuntimeError>)
        requires
            self.wf(),
            rhs.wf(),
        ensures
            match (self.view(), rhs.view()) {
                (Value::FiniteSet(xs, k1), Value::FiniteSet(ys, k2)) => if k1 == k2 {
                    r matches Ok(o) && is_set_of(o.view(), k1, |v: Value| in_set_op(op, xs, ys, v))
                } else {
                    outcome(r) == Err::<Value, ErrorKind>(ErrorKind::Operator)
                },
                _ => outcome(r) == Err::<Value, ErrorKind>(ErrorKind::Operator),
            },
            r matches Ok(o) ==> o.wf(),
    {
        match (self, rhs) {
            (Object::FiniteSet { items: xs, kind: k1 }, Object::FiniteSet { items: ys, kind: k2 }) => {
                if *k1 != *k2 {
                    return Err(operator_error("Set operations need sets of one kind."));
                }
                let k = *k1;
                let mut res: Vec<Object> = Vec::new();
                proof {
                    lemma_views(res@);
                    assert(set_wf(views(res@), k));
                }
                match op {
                    SetOp::Union => {
                        add_members(&mut res, xs, ys, None, Ghost(k));
                        add_members(&mut res, ys, xs, None, Ghost(k));
                    },
                    SetOp::Intersection => {
                        add_members(&mut res, xs, ys, Some(true), Ghost(k));
                    },
                    SetOp::Difference => {
                        add_members(&mut res, xs, ys, Some(false), Ghost(k));
                    },
                    SetOp::SymmetricDifference => {
                        add_members(&mut res, xs, ys, Some(false), Ghost(k));
                        add_members(&mut res, ys, xs, Some(false), Ghost(k));
                    },
                }
                let r = Object::FiniteSet { items: res, kind: k };
                proof {
                    let xv = views(xs@);
                    let yv = views(ys@);
                    if let Value::FiniteSet(zs, kk) = r.view() {
                        assert forall|v: Value| #[trigger] contains(zs, v) == in_set_op(op, xv, yv, v) by {
                        }
                    }
                }
                Ok(r)
            },
            _ => Err(operator_error("Set operations need two sets.")),
        }
    }

    pub fn set_union(&self, rhs: &Object) -> (r: Result<Object, RuntimeError>)
        requires
            self.wf(),
            rhs.wf(),
        ensures
            match (self.view(), rhs.view()) {
                (Value::FiniteSet(xs, k1), Value::FiniteSet(ys, k2)) => if k1 == k2 {
                    r matches Ok(o) && is_set_of(o.view(), k1, |v: Value| contains(xs, v) || contains(ys, v))
                } else {
                    outcome(r) == Err::<Value, ErrorKind>(ErrorKind::Operator)
                },
                _ => outcome(r) == Err::<Value, ErrorKind>(ErrorKind::Operator),
            },
    {
        self.set_op(rhs, SetOp::Union)
    }

    pub fn set_intersection(&self, rhs: &Object) -> (r: Result<Object, RuntimeError>)
        requires
            self.wf(),
            rhs.wf(),
        ensures
            match (self.view(), rhs.view()) {
                (Value::FiniteSet(xs, k1), Value::FiniteSet(ys, k2)) => if k1 == k2 {
                    r matches Ok(o) && is_set_of(o.view(), k1, |v: Value| contains(xs, v) && contains(ys, v))
                } else {
                    outcome(r) == Err::<Value, ErrorKind>(ErrorKind::Operator)
                },
                _ => outcome(r) == Err::<Value, ErrorKind>(ErrorKind::Operator),
            },
    {
        self.set_op(rhs, SetOp::Intersection)
    }

    pub fn set_difference(&self, rhs: &Object) -> (r: Result<Object, RuntimeError>)
        requires
            self.wf(),
            rhs.wf(),
        ensures
            match (self.view(), rhs.view()) {
                (Value::FiniteSet(xs, k1), Value::FiniteSet(ys, k2)) => if k1 == k2 {
                    r matches Ok(o) && is_set_of(o.view(), k1, |v: Value| contains(xs, v) && !contains(ys, v))
                } else {
                    outcome(r) == Err::<Value, ErrorKind>(ErrorKind::Operator)
                },
                _ => outcome(r) == Err::<Value, ErrorKind>(ErrorKind::Operator),
            },
    {
        self.set_op(rhs, SetOp::Difference)
    }

    pub fn set_symmetric_difference(&self, rhs: &Object) -> (r: Result<Object, RuntimeError>)
        requires
            self.wf(),
            rhs.wf(),
        ensures
            match (self.view(), rhs.view()) {
                (Value::FiniteSet(xs, k1), Value::FiniteSet(ys, k2)) => if k1 == k2 {
                    r matches Ok(o) && is_set_of(o.view(), k1, |v: Value| contains(xs, v) != contains(ys, v))
                } else {
                    outcome(r) == Err::<Value, ErrorKind>(ErrorKind::Operator)
                },
                _ => outcome(r) == Err::<Value, ErrorKind>(ErrorKind::Operator),
            },
    {
        self.set_op(rhs, SetOp::SymmetricDifference)
    }

    /// `<=` between sets.
    pub fn is_subset(&self, rhs: &Object) -> (r: Result<Object, RuntimeError>)
        requires
            self.wf(),
            rhs.wf(),
        ensures
            outcome(r) == (if self.view() is FiniteSet && rhs.view() is FiniteSet {
                bool_outcome(spec_less(self.view(), rhs.view(), false))
            } else {
                Err::<Value, ErrorKind>(ErrorKind::Operator)
            }),
    {
        match (self, rhs) {
            (Object::FiniteSet { .. }, Object::FiniteSet { .. }) => {
                let b = self.less(rhs, false);
                bool_object(b, Ghost(spec_less(self.view(), rhs.view(), false)))
            },
            _ => Err(operator_error("Subset comparison needs two sets.")),
        }
    }

    /// `<` between sets.
    pub fn is_proper_subset(&self, rhs: &Object) -> (r: Result<Object, RuntimeError>)
        requires
            self.wf(),
            rhs.wf(),
        ensures
            outcome(r) == (if self.view() is FiniteSet && rhs.view() is FiniteSet {
                bool_outcome(spec_less(self.view(), rhs.view(), true))
            } else {
                Err::<Value, ErrorKind>(ErrorKind::Operator)
            }),
    {
        match (self, rhs) {
            (Object::FiniteSet { .. }, Object::FiniteSet { .. }) => {
                let b = self.less(rhs, true);
                bool_object(b, Ghost(spec_less(self.view(), rhs.view(), true)))
            },
            _ => Err(operator_error("Subset comparison needs two sets.")),
        }
    }
}

pub open spec fn negated(r: Result<bool, ErrorKind>) -> Result<bool, ErrorKind> {
    match r {
        Ok(b) => Ok(!b),
        Err(e) => Err(e),
    }
}

/// What `a t b` gives for an infix token `t`: `>` and `>=` are `<` and
/// `<=` with the operands swapped, `=/=` is the negation of `==`, and
/// `-/+` builds the same set as `+/-`.
pub open spec fn infix_result(t: Token, a: Value, b: Value, r: Result<Value, ErrorKind>) -> bool {
    match t {
        Token::Plus => r == spec_arith(ArithOp::Add, a, b),
        Token::Minus => r == spec_arith(ArithOp::Sub, a, b),
        Token::Multiply => r == spec_arith(ArithOp::Mul, a, b),
        Token::Division => r == spec_div(a, b),
        Token::Modulo => r == spec_modulo(a, b),
        Token::Exponent => r == spec_pow(a, b),
        Token::Equals => r == bool_outcome(spec_equals(a, b)),
        Token::NotEquals => r == bool_outcome(negated(spec_equals(a, b))),
        Token::LessThan => r == bool_outcome(spec_less(a, b, true)),
        Token::LessThanEquals => r == bool_outcome(spec_less(a, b, false)),
        Token::GreaterThan => r == bool_outcome(spec_less(b, a, true)),
        Token::GreaterThanEquals => r == bool_outcome(spec_less(b, a, false)),
        Token::Question => r == Ok::<Value, ErrorKind>(spec_coalesce(a, b)),
        Token::And => r == spec_logic(LogicOp::And, a, b),
        Token::Or => r == spec_logic(LogicOp::Or, a, b),
        Token::Xor => r == spec_logic(LogicOp::Xor, a, b),
        Token::In => r == spec_in(a, b),
        Token::PlusMinus | Token::MinusPlus => pm_result(a, b, r),
        Token::Union => set_op_result(SetOp::Union, a, b, r),
        Token::Intersection => set_op_result(SetOp::Intersection, a, b, r),
        Token::SetDifference => set_op_result(SetOp::Difference, a, b, r),
        Token::SymmetricDifference => set_op_result(SetOp::SymmetricDifference, a, b, r),
        _ => r == Err::<Value, ErrorKind>(ErrorKind::Operator),
    }
}

/// `+/-`: the set of the sum and the difference, `Undefined` when either
/// is, the first error otherwise.
pub open spec fn pm_result(a: Value, b: Value, r: Result<Value, ErrorKind>) -> bool {
    match (spec_arith(ArithOp::Add, a, b), spec_arith(ArithOp::Sub, a, b)) {
        (Ok(x), Ok(y)) => if x is Undefined || y is Undefined {
            r == Ok::<Value, ErrorKind>(Value::Undefined)
        } else {
            r matches Ok(v) && is_set_of(v, kind_of(x), |w: Value| w == x || w == y)
        },
        (Err(e), _) => r == Err::<Value, ErrorKind>(e),
        (_, Err(e)) => r == Err::<Value, ErrorKind>(e),
    }
}

/// A set operation between sets of one kind tag; an operator error else.
pub open spec fn set_op_result(op: SetOp, a: Value, b: Value, r: Result<Value, ErrorKind>) -> bool {
    match (a, b) {
        (Value::FiniteSet(xs, k1), Value::FiniteSet(ys, k2)) => if k1 == k2 {
            r matches Ok(v) && is_set_of(v, k1, |w: Value| in_set_op(op, xs, ys, w))
        } else {
            r == Err::<Value, ErrorKind>(ErrorKind::Operator)
        },
        _ => r == Err::<Value, ErrorKind>(ErrorKind::Operator),
    }
}

fn compared(r: Result<bool, RuntimeError>, negate: bool) -> (o: Result<Object, RuntimeError>)
    ensures
        match r {
            Ok(b) => o matches Ok(x) && x.view() == Value::Boolean(if negate { !b } else { b }),
            Err(e) => o matches Err(f) && f.kind() == e.kind(),
        },
        o matches Ok(x) ==> x.wf(),
{
    match r {
        Ok(b) => Ok(Object::Boolean(if negate { !b } else { b })),
        Err(e) => Err(e),
    }
}

/// Applies an infix operator token to two values.
pub fn apply_infix(t: &Token, a: Object, b: Object) -> (r: Result<Object, RuntimeError>)
    requires
        a.wf(),
        b.wf(),
    ensures
        infix_result(*t, a.view(), b.view(), outcome(r)),
        r matches Ok(o) ==> o.wf(),
{
    match t {
        Token::Plus => a.add(&b),
        Token::Minus => a.sub(&b),
        Token::Multiply => a.mul(&b),
        Token::Division => a.div(&b),
        Token::Modulo => a.modulo(&b),
        Token::Exponent => a.pow(&b),
        Token::Equals => compared(a.equals(&b), false),
        Token::NotEquals => compared(a.equals(&b), true),
        Token::LessThan => compared(a.less(&b, true), false),
        Token::LessThanEquals => compared(a.less(&b, false), false),
        Token::GreaterThan => compared(b.less(&a, true), false),
        Token::GreaterThanEquals => compared(b.less(&a, false), false),
        Token::Question => Ok(a.coalesce(b)),
        Token::And => a.logic(&b, LogicOp::And),
        Token::Or => a.logic(&b, LogicOp::Or),
        Token::Xor => a.logic(&b, LogicOp::Xor),
        Token::In => a.in_(&b),
        Token::PlusMinus | Token::MinusPlus => a.pm(&b),
        Token::Union => a.set_op(&b, SetOp::Union),
        Token::Intersection => a.set_op(&b, SetOp::Intersection),
        Token::SetDifference => a.set_op(&b, SetOp::Difference),
        Token::SymmetricDifference => a.set_op(&b, SetOp::SymmetricDifference),
        _ => Err(operator_error("This token is not an infix operator.")),
    }
}

/// What a prefix operator token gives.
pub open spec fn prefix_result(t: Token, a: Value) -> Result<Value, ErrorKind> {
    match t {
        Token::Minus => spec_neg(a),
        Token::Not => spec_not(a),
        _ => Err(ErrorKind::Operator),
    }
}

/// Applies a prefix operator token to a value.
pub fn apply_prefix(t: &Token, a: &Object) -> (r: Result<Object, RuntimeError>)
    requires
        a.wf(),
    ensures
        outcome(r) == prefix_result(*t, a.view()),
        r matches Ok(o) ==> o.wf(),
{
    match t {
        Token::Minus => a.neg(),
        Token::Not => a.not(),
        _ => Err(operator_error("This token is not a prefix operator.")),
    }
}

/// What a postfix operator token gives.
pub open spec fn postfix_result(t: Token, a: Value) -> Result<Value, ErrorKind> {
    match t {
        Token::Bang => spec_factorial(a),
        _ => Err(ErrorKind::Operator),
    }
}

/// Applies a postfix operator token to a value.
pub fn apply_postfix(t: &Token, a: &Object) -> (r: Result<Object, RuntimeError>)
    requires
        a.wf(),
    ensures
        outcome(r) == postfix_result(*t, a.view()),
        r matches Ok(o) ==> o.wf(),
{
    match t {
        Token::Bang => a.factorial(),
        _ => Err(operator_error("This token is not a postfix operator.")),
    }
}

proof fn lemma_fact_pos(n: nat)
    ensures
        fact(n) >= 1,
    decreases n,
{
    if n > 0 {
        lemma_fact_pos((n - 1) as nat);
        assert(n * fact((n - 1) as nat) >= 1) by (nonlinear_arith)
            requires
                n >= 1,
                fact((n - 1) as nat) >= 1,
        ;
    }
}

/// Once `fact(m) * (m + 1)` leaves 64 bits, so does every later factorial.
proof fn lemma_fact_grows(m: nat, n: nat)
    requires
        m < n,
        fact(m) * (m + 1) > i64::MAX,
    ensures
        fact(n) > i64::MAX,
    decreases n - m,
{
    if n == m + 1 {
        assert(fact(n) == n * fact(m));
        assert(fact(n) == fact(m) * (m + 1)) by (nonlinear_arith)
            requires
                fact(n) == n * fact(m),
                n == m + 1,
        ;
    } else {
        lemma_fact_grows(m, (n - 1) as nat);
        lemma_fact_pos((n - 1) as nat);
        assert(fact(n) == n * fact((n - 1) as nat));
        assert(n * fact((n - 1) as nat) >= fact((n - 1) as nat)) by (nonlinear_arith)
            requires
                n >= 1,
                fact((n - 1) as nat) >= 1,
        ;
    }
}

} // verus!
