//! The mathematical model of runtime values, and the canonical order in
//! which a set keeps its members.
use vstd::prelude::*;
use crate::ast::Expression;
use crate::number::{Real, pow10, real_lt, real_same_value};

verus! {

/// The kind of a value that may be a set member, or any function.
#[derive(Debug, Clone, Copy, PartialEq, Eq, Structural)]
pub enum Kind {
    Integer,
    Real,
    Boolean,
    FiniteSet,
    Function,
    BuiltinFunction,
}

/// The native functions that a fresh environment binds.
#[derive(Debug, Clone, Copy, PartialEq, Eq, Structural)]
pub enum Builtin {
    Max,
    Min,
    Sum,
    Product,
}

/// A runtime value as mathematics sees it; a function by its parameter
/// names and body.
pub enum Value {
    Integer(i64),
    Real(Real),
    Boolean(bool),
    Undefined,
    FiniteSet(Seq<Value>, Option<Kind>),
    Function(Seq<Seq<char>>, Expression),
    Builtin(Builtin),
}

/// The kind of errors, as contracts speak of them.
#[derive(Debug, Clone, Copy, PartialEq, Eq, Structural)]
pub enum ErrorKind {
    Name,
    Operator,
    Type,
    Depth,
}

pub open spec fn kind_of(v: Value) -> Option<Kind> {
    match v {
        Value::Integer(_) => Some(Kind::Integer),
        Value::Real(_) => Some(Kind::Real),
        Value::Boolean(_) => Some(Kind::Boolean),
        Value::FiniteSet(_, _) => Some(Kind::FiniteSet),
        Value::Function(_, _) => Some(Kind::Function),
        Value::Builtin(_) => Some(Kind::BuiltinFunction),
        Value::Undefined => None,
    }
}

pub open spec fn rank(v: Value) -> int {
    match v {
        Value::Integer(_) => 0,
        Value::Real(_) => 1,
        Value::Boolean(_) => 2,
        Value::FiniteSet(_, _) => 3,
        Value::Undefined => 4,
        Value::Function(_, _) => 5,
        Value::Builtin(_) => 6,
    }
}

pub open spec fn kind_rank(k: Option<Kind>) -> int {
    match k {
        None => 0,
        Some(Kind::Integer) => 1,
        Some(Kind::Real) => 2,
        Some(Kind::Boolean) => 3,
        Some(Kind::FiniteSet) => 4,
        Some(Kind::Function) => 5,
        Some(Kind::BuiltinFunction) => 6,
    }
}

pub open spec fn sign(x: int) -> int {
    if x < 0 {
        -1
    } else if x == 0 {
        0
    } else {
        1
    }
}

/// The canonical order: -1, 0 or 1. Numbers by value within a kind,
/// `false` before `true`, sets by kind tag and then lexicographically.
pub open spec fn vcmp(a: Value, b: Value) -> int
    decreases a,
{
    match (a, b) {
        (Value::Integer(x), Value::Integer(y)) => sign(x - y),
        (Value::Real(x), Value::Real(y)) => if x == y {
            0
        } else if real_lt(x, y) {
            -1
        } else {
            1
        },
        (Value::Boolean(x), Value::Boolean(y)) => if x == y {
            0
        } else if !x {
            -1
        } else {
            1
        },
        (Value::FiniteSet(xs, k1), Value::FiniteSet(ys, k2)) => if k1 != k2 {
            sign(kind_rank(k1) - kind_rank(k2))
        } else {
            seq_cmp(xs, ys, 0)
        },
        _ => sign(rank(a) - rank(b)),
    }
}

/// Lexicographic comparison of `xs` and `ys` from index `i` on.
pub open spec fn seq_cmp(xs: Seq<Value>, ys: Seq<Value>, i: nat) -> int
    decreases xs, xs.len() - i,
{
    if i >= xs.len() {
        if i >= ys.len() {
            0
        } else {
            -1
        }
    } else if i >= ys.len() {
        1
    } else {
        let c = vcmp(xs[i as int], ys[i as int]);
        if c != 0 {
            c
        } else {
            seq_cmp(xs, ys, i + 1)
        }
    }
}

/// A value that may be a set member: a number, a boolean, or a set of such.
pub open spec fn orderable(v: Value) -> bool
    decreases v,
{
    match v {
        Value::Integer(_) => true,
        Value::Real(r) => r.wf(),
        Value::Boolean(_) => true,
        Value::FiniteSet(xs, k) => set_wf(xs, k),
        _ => false,
    }
}

/// Members in strictly ascending order, all of the tag's kind.
pub open spec fn set_wf(xs: Seq<Value>, k: Option<Kind>) -> bool
    decreases xs, 0nat,
{
    &&& forall|i: int| #![trigger xs[i]] 0 <= i < xs.len() ==> orderable(xs[i]) && kind_of(xs[i]) == k
    &&& forall|i: int, j: int| 0 <= i < j < xs.len() ==> vcmp(xs[i], xs[j]) < 0
    &&& (k matches Some(kk) ==> kk != Kind::Function && kk != Kind::BuiltinFunction)
}

pub open spec fn contains(xs: Seq<Value>, v: Value) -> bool {
    exists|i: int| 0 <= i < xs.len() && xs[i] == v
}

/// A well-formed value: its reals in normal form and its sets canonical.
pub open spec fn value_wf(v: Value) -> bool {
    match v {
        Value::Real(r) => r.wf(),
        Value::FiniteSet(xs, k) => set_wf(xs, k),
        _ => true,
    }
}

pub proof fn lemma_pow10_pos(n: nat)
    ensures
        pow10(n) > 0,
    decreases n,
{
    if n > 0 {
        lemma_pow10_pos((n - 1) as nat);
    }
}

pub proof fn lemma_pow10_add(a: nat, b: nat)
    ensures
        pow10(a + b) == pow10(a) * pow10(b),
    decreases a,
{
    if a > 0 {
        lemma_pow10_add((a - 1) as nat, b);
        let x = pow10((a - 1) as nat);
        let y = pow10(b);
        assert(pow10(a + b) == 10 * pow10((a - 1 + b) as nat));
        assert(pow10(a) * y == 10 * (x * y)) by (nonlinear_arith)
            requires
                pow10(a) == 10 * x,
        ;
    }
}

proof fn lemma_scale_below(a: Real, b: Real)
    requires
        a.wf(),
        b.wf(),
        a.scale < b.scale,
    ensures
        !real_same_value(a, b),
{
    if !real_same_value(a, b) {
        return;
    }
    let d = (b.scale - a.scale) as nat;
    let pa = pow10(a.scale as nat);
    let pd = pow10(d);
    lemma_pow10_add(a.scale as nat, d);
    lemma_pow10_pos(a.scale as nat);
    lemma_pow10_pos((d - 1) as nat);
    assert(pow10(b.scale as nat) == pa * pd);
    assert(a.mantissa * (pa * pd) == b.mantissa * pa);
    assert(a.mantissa * pd == b.mantissa) by (nonlinear_arith)
        requires
            a.mantissa * (pa * pd) == b.mantissa * pa,
            pa > 0,
    ;
    assert(pd == 10 * pow10((d - 1) as nat));
    let q = a.mantissa * pow10((d - 1) as nat);
    assert(b.mantissa == 10 * q) by (nonlinear_arith)
        requires
            a.mantissa * pd == b.mantissa,
            pd == 10 * pow10((d - 1) as nat),
            q == a.mantissa * pow10((d - 1) as nat),
    ;
    assert(b.mantissa % 10 == 0);
}

/// Two reals in normal form with the same value are the same pair.
pub proof fn lemma_same_value_identical(a: Real, b: Real)
    requires
        a.wf(),
        b.wf(),
        real_same_value(a, b),
    ensures
        a == b,
{
    if a.scale < b.scale {
        lemma_scale_below(a, b);
    } else if b.scale < a.scale {
        lemma_scale_below(b, a);
    } else {
        lemma_pow10_pos(a.scale as nat);
        let p = pow10(a.scale as nat);
        assert(a.mantissa == b.mantissa) by (nonlinear_arith)
            requires
                a.mantissa * p == b.mantissa * p,
                p > 0,
        ;
    }
}

proof fn lemma_real_trichotomy(a: Real, b: Real)
    requires
        a.wf(),
        b.wf(),
        a != b,
    ensures
        real_lt(a, b) != real_lt(b, a),
{
    if !real_lt(a, b) && !real_lt(b, a) {
        lemma_same_value_identical(a, b);
    }
}

proof fn lemma_real_trans(a: Real, b: Real, c: Real)
    requires
        real_lt(a, b),
        real_lt(b, c),
    ensures
        real_lt(a, c),
{
    let pa = pow10(a.scale as nat);
    let pb = pow10(b.scale as nat);
    let pc = pow10(c.scale as nat);
    lemma_pow10_pos(a.scale as nat);
    lemma_pow10_pos(b.scale as nat);
    lemma_pow10_pos(c.scale as nat);
    let am = a.mantissa as int;
    let bm = b.mantissa as int;
    let cm = c.mantissa as int;
    assert(am * pc < cm * pa) by (nonlinear_arith)
        requires
            am * pb < bm * pa,
            bm * pc < cm * pb,
            pa > 0,
            pb > 0,
            pc > 0,
    ;
}

pub proof fn lemma_rank_variant(a: Value, b: Value)
    requires
        rank(a) == rank(b),
        orderable(a),
        orderable(b),
    ensures
        a is Integer ==> b is Integer,
        a is Real ==> b is Real,
        a is Boolean ==> b is Boolean,
        a is FiniteSet ==> b is FiniteSet,
{
}

/// The order is antisymmetric.
pub proof fn lemma_vcmp_antisym(a: Value, b: Value)
    requires
        orderable(a),
        orderable(b),
    ensures
        vcmp(a, b) == -vcmp(b, a),
    decreases a,
{
    match (a, b) {
        (Value::FiniteSet(xs, k1), Value::FiniteSet(ys, k2)) => {
            if k1 == k2 {
                lemma_seq_cmp_antisym(xs, k1, ys, k2, 0);
            }
        },
        (Value::Real(x), Value::Real(y)) => {
            if x != y {
                lemma_real_trichotomy(x, y);
            }
        },
        _ => {},
    }
}

proof fn lemma_seq_cmp_antisym(xs: Seq<Value>, k1: Option<Kind>, ys: Seq<Value>, k2: Option<Kind>, i: nat)
    requires
        set_wf(xs, k1),
        set_wf(ys, k2),
    ensures
        seq_cmp(xs, ys, i) == -seq_cmp(ys, xs, i),
    decreases xs, xs.len() - i,
{
    if i < xs.len() && i < ys.len() {
        let x = xs[i as int];
        let y = ys[i as int];
        assert(orderable(x));
        assert(orderable(y));
        lemma_vcmp_antisym(x, y);
        if vcmp(x, y) == 0 {
            lemma_seq_cmp_antisym(xs, k1, ys, k2, i + 1);
        }
    }
}

/// Two values compare equal exactly when they are the same value.
pub proof fn lemma_vcmp_zero(a: Value, b: Value)
    requires
        orderable(a),
        orderable(b),
    ensures
        (vcmp(a, b) == 0) == (a == b),
    decreases a,
{
    match (a, b) {
        (Value::FiniteSet(xs, k1), Value::FiniteSet(ys, k2)) => {
            if k1 == k2 {
                lemma_seq_cmp_zero(xs, k1, ys, k2, 0);
                if seq_cmp(xs, ys, 0) == 0 {
                    assert(xs =~= ys);
                }
            }
        },
        (Value::Real(x), Value::Real(y)) => {},
        _ => {
            if rank(a) == rank(b) {
                lemma_rank_variant(a, b);
            }
        },
    }
}

pub proof fn lemma_seq_cmp_zero(xs: Seq<Value>, k1: Option<Kind>, ys: Seq<Value>, k2: Option<Kind>, i: nat)
    requires
        set_wf(xs, k1),
        set_wf(ys, k2),
        i <= xs.len(),
        i <= ys.len(),
    ensures
        (seq_cmp(xs, ys, i) == 0) == (xs.len() == ys.len() && forall|j: int|
            i <= j < xs.len() ==> xs[j] == ys[j]),
    decreases xs, xs.len() - i,
{
    if i < xs.len() && i < ys.len() {
        let x = xs[i as int];
        let y = ys[i as int];
        assert(orderable(x));
        assert(orderable(y));
        lemma_vcmp_zero(x, y);
        lemma_seq_cmp_zero(xs, k1, ys, k2, i + 1);
        if xs.len() == ys.len() {
            assert((forall|j: int| i <= j < xs.len() ==> xs[j] == ys[j]) == (x == y && forall|j: int|
                i + 1 <= j < xs.len() ==> xs[j] == ys[j])) by {
                if x == y && forall|j: int| i + 1 <= j < xs.len() ==> xs[j] == ys[j] {
                    assert forall|j: int| i <= j < xs.len() implies xs[j] == ys[j] by {
                        if j > i {
                        }
                    }
                }
            }
        }
    }
}

/// The order is transitive.
pub proof fn lemma_vcmp_trans(a: Value, b: Value, c: Value)
    requires
        orderable(a),
        orderable(b),
        orderable(c),
        vcmp(a, b) < 0,
        vcmp(b, c) < 0,
    ensures
        vcmp(a, c) < 0,
    decreases a,
{
    if rank(a) == rank(b) {
        lemma_rank_variant(a, b);
    }
    if rank(b) == rank(c) {
        lemma_rank_variant(b, c);
    }
    if rank(a) == rank(c) {
        lemma_rank_variant(a, c);
    }
    match (a, b, c) {
        (Value::FiniteSet(xs, k1), Value::FiniteSet(ys, k2), Value::FiniteSet(zs, k3)) => {
            if k1 == k2 && k2 == k3 {
                lemma_seq_cmp_trans(xs, ys, zs, k1, 0);
            }
        },
        (Value::Real(x), Value::Real(y), Value::Real(z)) => {
            lemma_real_trans(x, y, z);
            if x == z {
                lemma_real_trans(x, y, x);
            }
        },
        _ => {},
    }
}

proof fn lemma_seq_cmp_trans(xs: Seq<Value>, ys: Seq<Value>, zs: Seq<Value>, k: Option<Kind>, i: nat)
    requires
        set_wf(xs, k),
        set_wf(ys, k),
        set_wf(zs, k),
        seq_cmp(xs, ys, i) < 0,
        seq_cmp(ys, zs, i) < 0,
    ensures
        seq_cmp(xs, zs, i) < 0,
    decreases xs, xs.len() - i,
{
    if i < xs.len() && i < ys.len() && i < zs.len() {
        let x = xs[i as int];
        let y = ys[i as int];
        let z = zs[i as int];
        assert(orderable(x) && orderable(y) && orderable(z));
        lemma_vcmp_zero(x, y);
        lemma_vcmp_zero(y, z);
        if vcmp(x, y) < 0 && vcmp(y, z) < 0 {
            lemma_vcmp_trans(x, y, z);
        } else if vcmp(x, y) == 0 && vcmp(y, z) == 0 {
            lemma_seq_cmp_trans(xs, ys, zs, k, i + 1);
        }
    }
}

} // verus!
