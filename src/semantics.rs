//! The meaning of programs: a definitional interpreter over the value
//! model, which the evaluator is proved to follow.
use vstd::prelude::*;
use crate::ast::{Expression, Location, Statement};
use crate::object::parameter_names;
use crate::builtins::spec_builtin;
use crate::environment::MAX_FRAMES;
use crate::ops::{infix_result, prefix_result, postfix_result, spec_abs, literal_ok, literal_kind, storable};
use crate::token::Token;
use crate::value::{ErrorKind, Kind, Value, contains, set_wf, kind_of, vcmp, orderable, lemma_vcmp_antisym, lemma_vcmp_zero};

verus! {

/// Scopes as mathematics sees them: frames of (name, value), global first.
pub type Scopes = Seq<Seq<(Seq<char>, Value)>>;

/// The first value bound to `name` in frame `f` from index `i` on.
pub open spec fn find_in(f: Seq<(Seq<char>, Value)>, name: Seq<char>, i: nat) -> Option<Value>
    decreases f.len() - i,
{
    if i >= f.len() {
        None
    } else if f[i as int].0 == name {
        Some(f[i as int].1)
    } else {
        find_in(f, name, i + 1)
    }
}

/// The value of `name` in the innermost of the first `n` frames binding it.
pub open spec fn lookup_in(s: Scopes, name: Seq<char>, n: nat) -> Option<Value>
    decreases n,
{
    if n == 0 || n > s.len() {
        None
    } else {
        match find_in(s[n - 1], name, 0) {
            Some(v) => Some(v),
            None => lookup_in(s, name, (n - 1) as nat),
        }
    }
}

pub open spec fn lookup(s: Scopes, name: Seq<char>) -> Option<Value> {
    lookup_in(s, name, s.len())
}

/// Two canonical sets with the same members are the same sequence.
pub proof fn lemma_set_unique(xs: Seq<Value>, ys: Seq<Value>, k: Option<Kind>)
    requires
        set_wf(xs, k),
        set_wf(ys, k),
        forall|v: Value| contains(xs, v) == contains(ys, v),
    ensures
        xs == ys,
    decreases xs.len(),
{
    if xs.len() == 0 {
        if ys.len() > 0 {
            assert(contains(ys, ys[0]));
        }
        assert(xs =~= ys);
    } else {
        assert(contains(xs, xs[0]));
        assert(contains(ys, ys[0]));
        let i = choose|i: int| 0 <= i < ys.len() && ys[i] == xs[0];
        let j = choose|j: int| 0 <= j < xs.len() && xs[j] == ys[0];
        assert(orderable(xs[0]) && orderable(ys[0]));
        if i > 0 && j > 0 {
            assert(vcmp(ys[0], ys[i]) < 0);
            assert(vcmp(xs[0], xs[j]) < 0);
            lemma_vcmp_antisym(xs[0], ys[0]);
        }
        assert(xs[0] == ys[0]);
        let xt = xs.subrange(1, xs.len() as int);
        let yt = ys.subrange(1, ys.len() as int);
        assert(set_wf(xt, k));
        assert(set_wf(yt, k));
        assert forall|v: Value| contains(xt, v) == contains(yt, v) by {
            if contains(xt, v) {
                let a = choose|a: int| 0 <= a < xt.len() && xt[a] == v;
                assert(xs[a + 1] == v);
                assert(contains(xs, v));
                assert(orderable(xs[a + 1]));
                lemma_vcmp_zero(xs[0], xs[a + 1]);
                let b = choose|b: int| 0 <= b < ys.len() && ys[b] == v;
                if b == 0 {
                    assert(false);
                }
                assert(yt[b - 1] == v);
            }
            if contains(yt, v) {
                let a = choose|a: int| 0 <= a < yt.len() && yt[a] == v;
                assert(ys[a + 1] == v);
                assert(contains(ys, v));
                assert(orderable(ys[a + 1]));
                lemma_vcmp_zero(ys[0], ys[a + 1]);
                let b = choose|b: int| 0 <= b < xs.len() && xs[b] == v;
                if b == 0 {
                    assert(false);
                }
                assert(xt[b - 1] == v);
            }
        }
        lemma_set_unique(xt, yt, k);
        assert(xs.len() == ys.len());
        assert forall|a: int| 0 <= a < xs.len() implies xs[a] == ys[a] by {
            if a > 0 {
                assert(xs[a] == xt[a - 1]);
                assert(ys[a] == yt[a - 1]);
            }
        }
        assert(xs =~= ys);
    }
}

/// Two results of an infix operator on the same operands are equal.
pub proof fn lemma_infix_unique(t: Token, a: Value, b: Value, r1: Result<Value, ErrorKind>, r2: Result<
    Value,
    ErrorKind,
>)
    requires
        infix_result(t, a, b, r1),
        infix_result(t, a, b, r2),
    ensures
        r1 == r2,
{
    match t {
        Token::PlusMinus | Token::MinusPlus | Token::Union | Token::Intersection | Token::SetDifference
        | Token::SymmetricDifference => {
            if let (Ok(Value::FiniteSet(xs, k1)), Ok(Value::FiniteSet(ys, k2))) = (r1, r2) {
                assert(k1 == k2);
                assert forall|v: Value| contains(xs, v) == contains(ys, v) by {
                }
                lemma_set_unique(xs, ys, k1);
            }
        },
        _ => {},
    }
}

/// Any result that an infix operator may give is the one `infix_value` names.
pub proof fn lemma_infix_value(t: Token, a: Value, b: Value, r: Result<Value, ErrorKind>)
    requires
        infix_result(t, a, b, r),
    ensures
        infix_value(t, a, b) == r,
{
    let w = choose|w: Result<Value, ErrorKind>| #[trigger] infix_result(t, a, b, w);
    assert(infix_result(t, a, b, w));
    lemma_infix_unique(t, a, b, r, w);
}

/// The value of `a t b` for an infix token.
pub open spec fn infix_value(t: Token, a: Value, b: Value) -> Result<Value, ErrorKind> {
    choose|r: Result<Value, ErrorKind>| #[trigger] infix_result(t, a, b, r)
}

/// Two canonical sets with the members of one literal are equal.
pub proof fn lemma_literal_unique(vs: Seq<Value>, v1: Value, v2: Value)
    requires
        is_literal_set(v1, vs),
        is_literal_set(v2, vs),
    ensures
        v1 == v2,
{
    if let (Value::FiniteSet(xs, k1), Value::FiniteSet(ys, k2)) = (v1, v2) {
        assert forall|v: Value| contains(xs, v) == contains(ys, v) by {
        }
        lemma_set_unique(xs, ys, k1);
    }
}

/// A canonical set whose members are the values of `vs`.
pub open spec fn is_literal_set(v: Value, vs: Seq<Value>) -> bool {
    match v {
        Value::FiniteSet(zs, k) => k == literal_kind(vs) && set_wf(zs, k) && forall|w: Value|
            #[trigger] contains(zs, w) == contains(vs, w),
        _ => false,
    }
}

/// The set of a literal's member values.
pub open spec fn literal_value(vs: Seq<Value>) -> Result<Value, ErrorKind> {
    if literal_ok(vs) {
        Ok(choose|v: Value| #[trigger] is_literal_set(v, vs))
    } else {
        Err(ErrorKind::Type)
    }
}

/// What an expression evaluates to in scopes `s`. A call of a function
/// binds its parameters to the argument values, position by position, in
/// one new scope; beyond `MAX_FRAMES` scopes it is a depth error.
pub open spec fn spec_eval(s: Scopes, e: Expression) -> Result<Value, ErrorKind>
    decreases MAX_FRAMES - s.len(), e, 0nat,
{
    match e {
        Expression::Identifier(name) => match lookup(s, name@) {
            Some(v) => Ok(v),
            None => Err(ErrorKind::Name),
        },
        Expression::IntegerLiteral(i) => Ok(Value::Integer(i)),
        Expression::RealLiteral(x) => Ok(
            match x.spec_checked() {
                Some(y) => Value::Real(y),
                None => Value::Undefined,
            },
        ),
        Expression::BooleanLiteral(b) => Ok(Value::Boolean(b)),
        Expression::UndefinedLiteral => Ok(Value::Undefined),
        Expression::Combination { left, operator, right } => match (left, operator.1, right) {
            (Some(l), Location::Infix, Some(r)) => match spec_eval(s, *l) {
                Ok(a) => match spec_eval(s, *r) {
                    Ok(b) => infix_value(operator.0, a, b),
                    Err(k) => Err(k),
                },
                Err(k) => Err(k),
            },
            (None, Location::Prefix, Some(r)) => match spec_eval(s, *r) {
                Ok(a) => prefix_result(operator.0, a),
                Err(k) => Err(k),
            },
            (Some(l), Location::Postfix, None) => match spec_eval(s, *l) {
                Ok(a) => postfix_result(operator.0, a),
                Err(k) => Err(k),
            },
            _ => Err(ErrorKind::Operator),
        },
        Expression::Call { function, arguments } => match spec_eval(s, *function) {
            Ok(Value::Function(params, body)) => if s.len() >= MAX_FRAMES {
                Err(ErrorKind::Depth)
            } else {
                match spec_bind(s, params, arguments@, 0, Seq::empty()) {
                    Ok(frame) => if s.len() + 1 <= MAX_FRAMES {
                        spec_eval(s.push(frame), body)
                    } else {
                        Err(ErrorKind::Depth)
                    },
                    Err(k) => Err(k),
                }
            },
            Ok(Value::Builtin(b)) => match spec_eval_all(s, arguments@, 0) {
                Ok(vs) => spec_builtin(b, vs),
                Err(k) => Err(k),
            },
            Ok(_) => Err(ErrorKind::Operator),
            Err(k) => Err(k),
        },
        Expression::PiecewiseBlock(arms) => spec_arms(s, arms@, 0),
        Expression::AbsoluteValue(x) => match spec_eval(s, *x) {
            Ok(a) => spec_abs(a),
            Err(k) => Err(k),
        },
        Expression::SetLiteral(es) => match spec_literal_members(s, es@, 0, None) {
            Ok(vs) => literal_value(vs),
            Err(k) => Err(k),
        },
    }
}

/// The values of `es` from index `i` on, in order, or the first error.
pub open spec fn spec_eval_all(s: Scopes, es: Seq<Expression>, i: nat) -> Result<Seq<Value>, ErrorKind>
    decreases MAX_FRAMES - s.len(), es, es.len() - i,
{
    if i >= es.len() {
        Ok(Seq::empty())
    } else {
        match spec_eval(s, es[i as int]) {
            Ok(v) => match spec_eval_all(s, es, i + 1) {
                Ok(vs) => Ok(seq![v] + vs),
                Err(k) => Err(k),
            },
            Err(k) => Err(k),
        }
    }
}

/// The members of a set literal from index `i` on, each checked as soon
/// as it is evaluated: it must be a value a set may hold, of kind `k`
/// (`None` before the first member). The first error met is the result.
pub open spec fn spec_literal_members(s: Scopes, es: Seq<Expression>, i: nat, k: Option<Kind>) -> Result<
    Seq<Value>,
    ErrorKind,
>
    decreases MAX_FRAMES - s.len(), es, es.len() - i,
{
    if i >= es.len() {
        Ok(Seq::empty())
    } else {
        match spec_eval(s, es[i as int]) {
            Ok(v) => if !storable(v) || (k is Some && kind_of(v) != k) {
                Err(ErrorKind::Type)
            } else {
                match spec_literal_members(s, es, i + 1, if k is None { kind_of(v) } else { k }) {
                    Ok(vs) => Ok(seq![v] + vs),
                    Err(e) => Err(e),
                }
            },
            Err(e) => Err(e),
        }
    }
}

/// Binds parameters to argument values from position `i` on into `frame`;
/// a parameter named twice is a name error.
pub open spec fn spec_bind(
    s: Scopes,
    params: Seq<Seq<char>>,
    args: Seq<Expression>,
    i: nat,
    frame: Seq<(Seq<char>, Value)>,
) -> Result<Seq<(Seq<char>, Value)>, ErrorKind>
    decreases MAX_FRAMES - s.len(), args, args.len() - i,
{
    if i >= params.len() || i >= args.len() {
        Ok(frame)
    } else {
        match spec_eval(s, args[i as int]) {
            Ok(v) => if find_in(frame, params[i as int], 0) is Some {
                Err(ErrorKind::Name)
            } else {
                spec_bind(s, params, args, i + 1, frame.push((params[i as int], v)))
            },
            Err(k) => Err(k),
        }
    }
}

/// A piecewise block from arm `i` on: the value of the first arm whose
/// guard is `true`; `Undefined` when none is; a guard that is no boolean
/// is a type error.
pub open spec fn spec_arms(s: Scopes, arms: Seq<(Expression, Expression)>, i: nat) -> Result<Value, ErrorKind>
    decreases MAX_FRAMES - s.len(), arms, arms.len() - i,
{
    if i >= arms.len() {
        Ok(Value::Undefined)
    } else {
        match spec_eval(s, arms[i as int].1) {
            Ok(Value::Boolean(true)) => spec_eval(s, arms[i as int].0),
            Ok(Value::Boolean(false)) => spec_arms(s, arms, i + 1),
            Ok(_) => Err(ErrorKind::Type),
            Err(k) => Err(k),
        }
    }
}

/// `s` with `(name, v)` bound in its innermost scope.
pub open spec fn bind_last(s: Scopes, name: Seq<char>, v: Value) -> Scopes {
    s.update(s.len() - 1, s.last().push((name, v)))
}

/// What a statement gives and the scopes after it: a declaration binds
/// its name in the innermost scope (a name bound there already is a name
/// error) and gives `Undefined`; an expression statement gives its value.
pub open spec fn spec_statement(s: Scopes, st: Statement) -> Result<(Scopes, Value), ErrorKind> {
    match st {
        Statement::Assignment { identifier, expression } => match spec_eval(s, expression) {
            Ok(v) => if find_in(s.last(), identifier@, 0) is Some {
                Err(ErrorKind::Name)
            } else {
                Ok((bind_last(s, identifier@, v), Value::Undefined))
            },
            Err(k) => Err(k),
        },
        Statement::FunctionDeclaration { identifier, parameters, expression } => if find_in(
            s.last(),
            identifier@,
            0,
        ) is Some {
            Err(ErrorKind::Name)
        } else {
            Ok((bind_last(s, identifier@, Value::Function(parameter_names(parameters@), expression)), Value::Undefined))
        },
        Statement::ExpressionStatement { expression } => match spec_eval(s, expression) {
            Ok(v) => Ok((s, v)),
            Err(k) => Err(k),
        },
    }
}

/// Statements from index `i` on, in order: the scopes after them and
/// their values, or the first error.
pub open spec fn spec_run(s: Scopes, stmts: Seq<Statement>, i: nat) -> Result<(Scopes, Seq<Value>), ErrorKind>
    decreases stmts.len() - i,
{
    if i >= stmts.len() {
        Ok((s, Seq::empty()))
    } else {
        match spec_statement(s, stmts[i as int]) {
            Ok((s2, v)) => match spec_run(s2, stmts, i + 1) {
                Ok((s3, vs)) => Ok((s3, seq![v] + vs)),
                Err(k) => Err(k),
            },
            Err(k) => Err(k),
        }
    }
}

/// The scopes after running statements from index `i` on, up to the
/// first error: a failing statement changes nothing, and the ones after
/// it do not run.
pub open spec fn spec_final_scopes(s: Scopes, stmts: Seq<Statement>, i: nat) -> Scopes
    decreases stmts.len() - i,
{
    if i >= stmts.len() {
        s
    } else {
        match spec_statement(s, stmts[i as int]) {
            Ok((s2, _)) => spec_final_scopes(s2, stmts, i + 1),
            Err(_) => s,
        }
    }
}

/// A successful run ends in the scopes that `spec_final_scopes` names.
pub proof fn lemma_run_scopes(s: Scopes, stmts: Seq<Statement>, i: nat)
    requires
        spec_run(s, stmts, i) is Ok,
    ensures
        spec_run(s, stmts, i)->Ok_0.0 == spec_final_scopes(s, stmts, i),
    decreases stmts.len() - i,
{
    if i < stmts.len() {
        let (s2, v) = spec_statement(s, stmts[i as int])->Ok_0;
        lemma_run_scopes(s2, stmts, i + 1);
    }
}

/// A successful run gives one value per statement.
pub proof fn lemma_run_len(s: Scopes, stmts: Seq<Statement>, i: nat)
    requires
        i <= stmts.len(),
        spec_run(s, stmts, i) is Ok,
    ensures
        spec_run(s, stmts, i)->Ok_0.1.len() == stmts.len() - i,
    decreases stmts.len() - i,
{
    if i < stmts.len() {
        let (s2, v) = spec_statement(s, stmts[i as int])->Ok_0;
        lemma_run_len(s2, stmts, i + 1);
    }
}

} // verus!
