//! Laws of the language's operators, stated over the value model and
//! proved from the definitions that the operations' contracts use.
use vstd::prelude::*;
use crate::ast::Expression;
use crate::number::{Real, normalized, decimal_quotient};
use crate::ast::{Location, Operator};
use crate::token::Token;
use crate::semantics::{spec_literal_members, lemma_infix_value, Scopes, spec_eval, spec_arms, is_literal_set};
use crate::ops::{literal_ok, literal_kind, storable, lemma_storable_orderable};
use crate::ops::{bool_outcome, spec_div, spec_pow, spec_coalesce, spec_in, spec_less, subset, real_value, as_real, is_number};
use crate::value::{ErrorKind, Kind, Value, contains, kind_of, set_wf, vcmp, orderable, lemma_vcmp_zero, lemma_vcmp_antisym, lemma_vcmp_trans, value_wf};

verus! {

/// Dividing two integers never fails: by zero it gives `Undefined`;
/// otherwise it gives the decimal quotient (`Undefined` only where that
/// quotient does not fit a decimal).
pub proof fn law_integer_division(a: i64, b: i64)
    ensures
        b == 0 ==> spec_div(Value::Integer(a), Value::Integer(b)) == Ok::<Value, ErrorKind>(Value::Undefined),
        b != 0 ==> spec_div(Value::Integer(a), Value::Integer(b)) == Ok::<Value, ErrorKind>(real_value(
            normalized(decimal_quotient(Real::spec_from_int(a).pair(), Real::spec_from_int(b).pair())),
        )),
{
}

/// Where the real result of `/` or `^` would be infinite or not a number
/// (a zero divisor, zero to a negative power, a negative base to a
/// fractional power), the result is `Undefined`; on numbers neither
/// operator is ever an error.
pub proof fn law_undefined_instead_of_nan_or_infinity(a: Value, b: Value)
    requires
        is_number(a),
        is_number(b),
    ensures
        spec_div(a, b) is Ok,
        spec_pow(a, b) is Ok,
        as_real(b).mantissa == 0 ==> spec_div(a, b) == Ok::<Value, ErrorKind>(Value::Undefined),
        as_real(a).mantissa == 0 && as_real(b).mantissa < 0 ==> spec_pow(a, b) == Ok::<Value, ErrorKind>(
            Value::Undefined,
        ),
        as_real(a).mantissa < 0 && as_real(b).scale > 0 ==> spec_pow(a, b) == Ok::<Value, ErrorKind>(
            Value::Undefined,
        ),
{
}

/// `undefined ? x` is `x`, and `y ? x` is `y` for every `y` that is not
/// `Undefined`.
pub proof fn law_coalesce(x: Value, y: Value)
    ensures
        spec_coalesce(Value::Undefined, x) == x,
        !(y is Undefined) ==> spec_coalesce(y, x) == y,
{
}

/// A well-formed set holds no two equal members.
pub proof fn law_set_members_distinct(xs: Seq<Value>, k: Option<Kind>)
    requires
        set_wf(xs, k),
    ensures
        forall|i: int, j: int| 0 <= i < j < xs.len() ==> xs[i] != xs[j],
{
    assert forall|i: int, j: int| 0 <= i < j < xs.len() implies xs[i] != xs[j] by {
        assert(orderable(xs[i]));
        assert(orderable(xs[j]));
        lemma_vcmp_zero(xs[i], xs[j]);
    }
}

/// For a value of the set's kind, `in` is membership.
pub proof fn law_membership(a: Value, xs: Seq<Value>, k: Option<Kind>)
    requires
        set_wf(xs, k),
        k is Some,
        kind_of(a) == k,
    ensures
        spec_in(a, Value::FiniteSet(xs, k)) == Ok::<Value, ErrorKind>(Value::Boolean(contains(xs, a))),
{
}

/// Between sets of one kind, `<=` is containment and `<` is containment
/// with a different number of members; a set is a subset of itself but not
/// a proper subset.
pub proof fn law_subset(xs: Seq<Value>, ys: Seq<Value>, k: Option<Kind>)
    requires
        set_wf(xs, k),
        set_wf(ys, k),
    ensures
        spec_less(Value::FiniteSet(xs, k), Value::FiniteSet(ys, k), false) == Ok::<bool, ErrorKind>(
            subset(xs, ys),
        ),
        spec_less(Value::FiniteSet(xs, k), Value::FiniteSet(ys, k), true) == Ok::<bool, ErrorKind>(
            subset(xs, ys) && xs.len() != ys.len(),
        ),
        spec_less(Value::FiniteSet(xs, k), Value::FiniteSet(xs, k), false) == Ok::<bool, ErrorKind>(true),
        spec_less(Value::FiniteSet(xs, k), Value::FiniteSet(xs, k), true) == Ok::<bool, ErrorKind>(false),
{
}

/// An expression `l t r`: the operands evaluate to `a` and `b`.
pub open spec fn binary(s: Scopes, e: Expression, t: Token, a: Value, b: Value) -> bool {
    e matches Expression::Combination { left: Some(l), operator, right: Some(r) } && operator == Operator(
        t,
        Location::Infix,
    ) && spec_eval(s, *l) == Ok::<Value, ErrorKind>(a) && spec_eval(s, *r) == Ok::<Value, ErrorKind>(b)
}

/// In a program, `a / b` on integers is what the integer law above says.
pub proof fn law_division_expression(s: Scopes, e: Expression, a: i64, b: i64)
    requires
        binary(s, e, Token::Division, Value::Integer(a), Value::Integer(b)),
    ensures
        spec_eval(s, e) == spec_div(Value::Integer(a), Value::Integer(b)),
{
    lemma_infix_value(Token::Division, Value::Integer(a), Value::Integer(b), spec_div(Value::Integer(a), Value::Integer(b)));
}

/// In a program, `undefined ? x` gives `x`'s value and `y ? x` gives `y`'s
/// value when that is not `Undefined`.
pub proof fn law_coalesce_expression(s: Scopes, e: Expression, a: Value, b: Value)
    requires
        binary(s, e, Token::Question, a, b),
    ensures
        a is Undefined ==> spec_eval(s, e) == Ok::<Value, ErrorKind>(b),
        !(a is Undefined) ==> spec_eval(s, e) == Ok::<Value, ErrorKind>(a),
{
    lemma_infix_value(Token::Question, a, b, Ok(spec_coalesce(a, b)));
}

/// In a program, `a in S` for a set `S` of `a`'s kind is membership.
pub proof fn law_membership_expression(s: Scopes, e: Expression, a: Value, xs: Seq<Value>, k: Option<Kind>)
    requires
        binary(s, e, Token::In, a, Value::FiniteSet(xs, k)),
        set_wf(xs, k),
        k is Some,
        kind_of(a) == k,
    ensures
        spec_eval(s, e) == Ok::<Value, ErrorKind>(Value::Boolean(contains(xs, a))),
{
    lemma_infix_value(Token::In, a, Value::FiniteSet(xs, k), spec_in(a, Value::FiniteSet(xs, k)));
}

/// In a program, `<=` and `<` between sets of one kind are subset and
/// proper subset.
pub proof fn law_subset_expression(s: Scopes, e: Expression, xs: Seq<Value>, ys: Seq<Value>, k: Option<Kind>, strict: bool)
    requires
        binary(s, e, if strict { Token::LessThan } else { Token::LessThanEquals }, Value::FiniteSet(xs, k), Value::FiniteSet(ys, k)),
        set_wf(xs, k),
        set_wf(ys, k),
    ensures
        spec_eval(s, e) == Ok::<Value, ErrorKind>(Value::Boolean(
            if strict { subset(xs, ys) && xs.len() != ys.len() } else { subset(xs, ys) },
        )),
{
    let t = if strict { Token::LessThan } else { Token::LessThanEquals };
    lemma_infix_value(t, Value::FiniteSet(xs, k), Value::FiniteSet(ys, k), bool_outcome(spec_less(Value::FiniteSet(xs, k), Value::FiniteSet(ys, k), strict)));
}

/// A piecewise block gives the value of arm `i` when the guards before it
/// evaluate to `false` and its own to `true`; when instead its guard gives
/// a value that is no boolean, the block is a type error.
pub proof fn law_piecewise_first_true(s: Scopes, e: Expression, i: int)
    requires
        e matches Expression::PiecewiseBlock(arms) && 0 <= i < arms.len() && forall|j: int|
            0 <= j < i ==> spec_eval(s, (#[trigger] arms@[j]).1) == Ok::<Value, ErrorKind>(
                Value::Boolean(false),
            ),
    ensures
        ({
            let arms = e->PiecewiseBlock_0@;
            &&& spec_eval(s, arms[i].1) == Ok::<Value, ErrorKind>(Value::Boolean(true)) ==> spec_eval(s, e)
                == spec_eval(s, arms[i].0)
            &&& (spec_eval(s, arms[i].1) matches Ok(g) && !(g is Boolean)) ==> spec_eval(s, e) == Err::<
                Value,
                ErrorKind,
            >(ErrorKind::Type)
        }),
{
    let arms = e->PiecewiseBlock_0@;
    lemma_arms_skip(s, arms, 0, i as nat);
}

proof fn lemma_arms_skip(s: Scopes, arms: Seq<(Expression, Expression)>, j: nat, i: nat)
    requires
        j <= i < arms.len(),
        forall|k: int| 0 <= k < i ==> spec_eval(s, (#[trigger] arms[k]).1) == Ok::<Value, ErrorKind>(
            Value::Boolean(false),
        ),
    ensures
        spec_arms(s, arms, j) == spec_arms(s, arms, i),
    decreases i - j,
{
    if j < i {
        assert(spec_eval(s, arms[j as int].1) == Ok::<Value, ErrorKind>(Value::Boolean(false)));
        lemma_arms_skip(s, arms, j + 1, i);
    }
}

/// A set literal whose members evaluate, one by one, to `vs` and pass
/// their checks is the canonical set of those values, each once.
pub proof fn law_set_literal(s: Scopes, e: Expression, vs: Seq<Value>)
    requires
        e matches Expression::SetLiteral(es) && spec_literal_members(s, es@, 0, None) == Ok::<Seq<Value>, ErrorKind>(vs),
        forall|i: int| 0 <= i < vs.len() ==> value_wf(#[trigger] vs[i]),
    ensures
        spec_eval(s, e) matches Ok(v) && is_literal_set(v, vs),
{
    let es = e->SetLiteral_0@;
    lemma_members_ok(s, es, 0, None, vs);
    lemma_literal_exists(vs);
}

proof fn lemma_members_ok(s: Scopes, es: Seq<Expression>, i: nat, k: Option<Kind>, vs: Seq<Value>)
    requires
        spec_literal_members(s, es, i, k) == Ok::<Seq<Value>, ErrorKind>(vs),
    ensures
        forall|j: int| #![trigger vs[j]] 0 <= j < vs.len() ==> storable(vs[j]) && kind_of(vs[j]) == (if k is Some {
            k
        } else {
            kind_of(vs[0])
        }),
    decreases es.len() - i,
{
    if i < es.len() {
        let v = spec_eval(s, es[i as int])->Ok_0;
        let k2 = if k is None { kind_of(v) } else { k };
        let rest = spec_literal_members(s, es, i + 1, k2)->Ok_0;
        lemma_members_ok(s, es, i + 1, k2, rest);
        assert(vs == seq![v] + rest);
        assert forall|j: int| #![trigger vs[j]] 0 <= j < vs.len() implies storable(vs[j]) && kind_of(vs[j]) == (if k is Some {
            k
        } else {
            kind_of(vs[0])
        }) by {
            if j > 0 {
                assert(vs[j] == rest[j - 1]);
            }
        }
    }
}

/// A set literal is a type error at the first member that evaluates to a
/// value no set may hold (`undefined`, a function) or of another kind than
/// the first member, once the members before it evaluated and passed; the
/// members after it are not evaluated.
pub proof fn law_set_literal_rejects(s: Scopes, e: Expression, vals: Seq<Value>, i: nat)
    requires
        e matches Expression::SetLiteral(es) && i < es.len() && vals.len() == i && (forall|j: int|
            0 <= j < i ==> spec_eval(s, (#[trigger] es@[j])) == Ok::<Value, ErrorKind>(vals[j]) && storable(vals[j])
                && kind_of(vals[j]) == kind_of(vals[0])) && (spec_eval(s, es@[i as int]) matches Ok(v) && (!storable(v)
            || (i > 0 && kind_of(v) != kind_of(vals[0])))),
    ensures
        spec_eval(s, e) == Err::<Value, ErrorKind>(ErrorKind::Type),
{
    let es = e->SetLiteral_0@;
    lemma_members_reject(s, es, 0, vals, i);
}

proof fn lemma_members_reject(s: Scopes, es: Seq<Expression>, j: nat, vals: Seq<Value>, i: nat)
    requires
        j <= i < es.len(),
        vals.len() == i,
        forall|a: int| 0 <= a < i ==> spec_eval(s, (#[trigger] es[a])) == Ok::<Value, ErrorKind>(vals[a]) && storable(
            vals[a],
        ) && kind_of(vals[a]) == kind_of(vals[0]),
        spec_eval(s, es[i as int]) matches Ok(v) && (!storable(v) || (i > 0 && kind_of(v) != kind_of(vals[0]))),
    ensures
        spec_literal_members(s, es, j, if j == 0 { None } else { kind_of(vals[0]) }) == Err::<Seq<Value>, ErrorKind>(
            ErrorKind::Type,
        ),
    decreases i - j,
{
    if j < i {
        assert(spec_eval(s, es[j as int]) == Ok::<Value, ErrorKind>(vals[j as int]));
        lemma_members_reject(s, es, j + 1, vals, i);
    }
}

/// `xs` with `v` put at its place, unless a member equals it.
pub open spec fn sorted_insert(xs: Seq<Value>, v: Value) -> Seq<Value>
    decreases xs.len(),
{
    if xs.len() == 0 {
        seq![v]
    } else if vcmp(v, xs[0]) < 0 {
        seq![v] + xs
    } else if vcmp(v, xs[0]) == 0 {
        xs
    } else {
        seq![xs[0]] + sorted_insert(xs.drop_first(), v)
    }
}

/// The canonical set of the first `n` values of `vs`.
pub open spec fn sorted_of(vs: Seq<Value>, n: nat) -> Seq<Value>
    decreases n,
{
    if n == 0 || n > vs.len() {
        Seq::empty()
    } else {
        sorted_insert(sorted_of(vs, (n - 1) as nat), vs[n - 1])
    }
}

proof fn lemma_sorted_insert(xs: Seq<Value>, v: Value, k: Option<Kind>)
    requires
        set_wf(xs, k),
        orderable(v),
        kind_of(v) == k,
    ensures
        set_wf(sorted_insert(xs, v), k),
        forall|w: Value| #[trigger] contains(sorted_insert(xs, v), w) == (contains(xs, w) || w == v),
    decreases xs.len(),
{
    let r = sorted_insert(xs, v);
    if xs.len() == 0 {
        assert(r[0] == v);
        assert forall|w: Value| #[trigger] contains(r, w) == (contains(xs, w) || w == v) by {
            if w == v {
                assert(r[0] == w);
            }
        }
    } else {
        let x0 = xs[0];
        assert(orderable(x0));
        lemma_vcmp_zero(v, x0);
        lemma_vcmp_antisym(v, x0);
        if vcmp(v, x0) < 0 {
            assert forall|a: int, b: int| 0 <= a < b < r.len() implies vcmp(r[a], r[b]) < 0 by {
                if a == 0 && b > 1 {
                    assert(orderable(xs[b - 1]));
                    lemma_vcmp_trans(v, x0, xs[b - 1]);
                } else if a > 0 {
                    assert(r[a] == xs[a - 1] && r[b] == xs[b - 1]);
                }
            }
            assert forall|w: Value| #[trigger] contains(r, w) == (contains(xs, w) || w == v) by {
                if w == v {
                    assert(r[0] == w);
                }
                if contains(xs, w) {
                    let a = choose|a: int| 0 <= a < xs.len() && xs[a] == w;
                    assert(r[a + 1] == w);
                }
                if contains(r, w) {
                    let a = choose|a: int| 0 <= a < r.len() && r[a] == w;
                    if a > 0 {
                        assert(xs[a - 1] == w);
                    }
                }
            }
        } else if vcmp(v, x0) == 0 {
            assert forall|w: Value| #[trigger] contains(r, w) == (contains(xs, w) || w == v) by {
                if w == v {
                    assert(xs[0] == w);
                }
            }
        } else {
            let t = xs.drop_first();
            assert(set_wf(t, k));
            lemma_sorted_insert(t, v, k);
            let rt = sorted_insert(t, v);
            assert(r == seq![x0] + rt);
            assert forall|a: int| 0 <= a < rt.len() implies vcmp(x0, #[trigger] rt[a]) < 0 by {
                assert(contains(rt, rt[a]));
                if rt[a] != v {
                    let c = choose|c: int| 0 <= c < t.len() && t[c] == rt[a];
                    assert(xs[c + 1] == rt[a]);
                }
            }
            assert forall|a: int, b: int| 0 <= a < b < r.len() implies vcmp(r[a], r[b]) < 0 by {
                if a == 0 {
                    assert(r[b] == rt[b - 1]);
                } else {
                    assert(r[a] == rt[a - 1] && r[b] == rt[b - 1]);
                }
            }
            assert forall|a: int| 0 <= a < r.len() implies orderable(#[trigger] r[a]) && kind_of(r[a]) == k by {
                if a > 0 {
                    assert(r[a] == rt[a - 1]);
                }
            }
            assert forall|w: Value| #[trigger] contains(r, w) == (contains(xs, w) || w == v) by {
                if contains(xs, w) {
                    let a = choose|a: int| 0 <= a < xs.len() && xs[a] == w;
                    if a > 0 {
                        assert(t[a - 1] == w);
                        assert(contains(rt, w));
                        let c = choose|c: int| 0 <= c < rt.len() && rt[c] == w;
                        assert(r[c + 1] == w);
                    } else {
                        assert(r[0] == w);
                    }
                }
                if w == v {
                    assert(contains(rt, w));
                    let c = choose|c: int| 0 <= c < rt.len() && rt[c] == w;
                    assert(r[c + 1] == w);
                }
                if contains(r, w) {
                    let a = choose|a: int| 0 <= a < r.len() && r[a] == w;
                    if a > 0 {
                        assert(rt[a - 1] == w);
                        assert(contains(rt, w));
                        if w != v {
                            let c = choose|c: int| 0 <= c < t.len() && t[c] == w;
                            assert(xs[c + 1] == w);
                        }
                    } else {
                        assert(xs[0] == w);
                    }
                }
            }
        }
    }
}

proof fn lemma_sorted_of(vs: Seq<Value>, n: nat)
    requires
        literal_ok(vs),
        forall|i: int| 0 <= i < vs.len() ==> value_wf(#[trigger] vs[i]),
        n <= vs.len(),
    ensures
        set_wf(sorted_of(vs, n), literal_kind(vs)),
        forall|w: Value| #[trigger] contains(sorted_of(vs, n), w) == (exists|i: int| 0 <= i < n && vs[i] == w),
    decreases n,
{
    let k = literal_kind(vs);
    if n == 0 {
        assert(sorted_of(vs, n) =~= Seq::<Value>::empty());
    } else {
        lemma_sorted_of(vs, (n - 1) as nat);
        let v = vs[n - 1];
        assert(storable(v) && kind_of(v) == kind_of(vs[0]));
        lemma_storable_orderable(v);
        lemma_sorted_insert(sorted_of(vs, (n - 1) as nat), v, k);
        assert forall|w: Value| #[trigger] contains(sorted_of(vs, n), w) == (exists|i: int| 0 <= i < n && vs[i] == w) by {
            if exists|i: int| 0 <= i < n && vs[i] == w {
                let i = choose|i: int| 0 <= i < n && vs[i] == w;
                if i < n - 1 {
                    assert(exists|i: int| 0 <= i < n - 1 && vs[i] == w);
                }
            }
            if contains(sorted_of(vs, (n - 1) as nat), w) {
                let i = choose|i: int| 0 <= i < n - 1 && vs[i] == w;
                assert(0 <= i < n && vs[i] == w);
            }
        }
    }
}

proof fn lemma_literal_exists(vs: Seq<Value>)
    requires
        literal_ok(vs),
        forall|i: int| 0 <= i < vs.len() ==> value_wf(#[trigger] vs[i]),
    ensures
        exists|v: Value| #[trigger] is_literal_set(v, vs),
{
    lemma_sorted_of(vs, vs.len());
    let zs = sorted_of(vs, vs.len());
    let v = Value::FiniteSet(zs, literal_kind(vs));
    assert forall|w: Value| #[trigger] contains(zs, w) == contains(vs, w) by {
    }
    assert(is_literal_set(v, vs));
}

} // verus!
