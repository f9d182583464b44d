//! Runtime values and the operations of the language on them.
use vstd::prelude::*;
use std::rc::Rc;
use crate::ast::{Expression, Parameter};
use crate::number::Real;
use crate::value::{Builtin, Kind, Value, vcmp, seq_cmp, orderable, set_wf, value_wf, kind_of, kind_rank, rank, sign};


verus! {

/// A runtime value.
#[derive(Debug)]
pub enum Object {
    Integer(i64),
    Real(Real),
    Boolean(bool),
    Undefined,
    Function { parameters: Vec<Parameter>, expression: Rc<Expression> },
    /// Members in canonical ascending order, each of kind `kind`.
    FiniteSet { items: Vec<Object>, kind: Option<Kind> },
    BuiltinFunction { parameters: Vec<Parameter>, builtin: Builtin },
}

/// The values of the first `n` objects of `s`.
pub open spec fn views_prefix(s: Seq<Object>, n: nat) -> Seq<Value>
    decreases s, n,
{
    if n == 0 || n > s.len() {
        Seq::empty()
    } else {
        views_prefix(s, (n - 1) as nat).push(s[n - 1].view())
    }
}

/// The names of a parameter list.
pub open spec fn parameter_names(ps: Seq<Parameter>) -> Seq<Seq<char>> {
    ps.map_values(|p: Parameter| p.name@)
}

/// The values of a sequence of objects.
pub open spec fn views(s: Seq<Object>) -> Seq<Value> {
    views_prefix(s, s.len())
}

impl Object {
    pub open spec fn view(self) -> Value
        decreases self,
    {
        match self {
            Object::Integer(i) => Value::Integer(i),
            Object::Real(r) => Value::Real(r),
            Object::Boolean(b) => Value::Boolean(b),
            Object::Undefined => Value::Undefined,
            Object::Function { parameters, expression } => Value::Function(parameter_names(parameters@), *expression),
            Object::FiniteSet { items, kind } => Value::FiniteSet(views_prefix(items@, items@.len()), kind),
            Object::BuiltinFunction { builtin, .. } => Value::Builtin(builtin),
        }
    }

    pub open spec fn wf(self) -> bool {
        value_wf(self.view())
    }
}

pub proof fn lemma_views_prefix(s: Seq<Object>, n: nat)
    requires
        n <= s.len(),
    ensures
        views_prefix(s, n).len() == n,
        forall|i: int| 0 <= i < n ==> #[trigger] views_prefix(s, n)[i] == s[i].view(),
    decreases n,
{
    if n > 0 {
        lemma_views_prefix(s, (n - 1) as nat);
    }
}

/// The values of a sequence are those of its objects, one by one.
pub proof fn lemma_views(s: Seq<Object>)
    ensures
        views(s).len() == s.len(),
        forall|i: int| 0 <= i < s.len() ==> #[trigger] views(s)[i] == s[i].view(),
{
    lemma_views_prefix(s, s.len());
}

/// Two sequences whose objects have the same values one by one.
pub proof fn lemma_views_eq(a: Seq<Object>, b: Seq<Object>)
    requires
        a.len() == b.len(),
        forall|i: int| 0 <= i < a.len() ==> a[i].view() == #[trigger] b[i].view(),
    ensures
        views(a) == views(b),
{
    lemma_views(a);
    lemma_views(b);
    assert(views(a) =~= views(b));
}

/// A copy of a parameter list.
pub fn copy_parameters(ps: &Vec<Parameter>) -> (r: Vec<Parameter>)
    ensures
        parameter_names(r@) == parameter_names(ps@),
{
    let mut out: Vec<Parameter> = Vec::new();
    let mut i: usize = 0;
    while i < ps.len()
        invariant
            i <= ps.len(),
            out.len() == i,
            forall|j: int| 0 <= j < i ==> (#[trigger] out@[j]).name@ == ps@[j].name@,
        decreases ps.len() - i,
    {
        out.push(Parameter { name: ps[i].name.clone() });
        i = i + 1;
    }
    assert(parameter_names(out@) =~= parameter_names(ps@));
    out
}

impl Object {
    /// A copy with the same value.
    pub fn copy(&self) -> (r: Object)
        ensures
            r.view() == self.view(),
        decreases self,
    {
        match self {
            Object::Integer(i) => Object::Integer(*i),
            Object::Real(x) => Object::Real(*x),
            Object::Boolean(b) => Object::Boolean(*b),
            Object::Undefined => Object::Undefined,
            Object::Function { parameters, expression } => Object::Function {
                parameters: copy_parameters(parameters),
                expression: Rc::clone(expression),
            },
            Object::FiniteSet { items, kind } => Object::FiniteSet { items: copy_items(items), kind: *kind },
            Object::BuiltinFunction { parameters, builtin } => Object::BuiltinFunction {
                parameters: copy_parameters(parameters),
                builtin: *builtin,
            },
        }
    }
}

/// Copies of the objects of a sequence, with the same values.
pub fn copy_items(items: &Vec<Object>) -> (r: Vec<Object>)
    ensures
        views(r@) == views(items@),
        r.len() == items.len(),
    decreases items,
{
    let mut out: Vec<Object> = Vec::new();
    let mut i: usize = 0;
    while i < items.len()
        invariant
            i <= items.len(),
            out.len() == i,
            forall|j: int| 0 <= j < i ==> #[trigger] out@[j].view() == items@[j].view(),
        decreases items.len() - i,
    {
        proof {
            assert(decreases_to!(items => items[i as int]));
        }
        let c = items[i].copy();
        out.push(c);
        i = i + 1;
    }
    proof {
        lemma_views_eq(out@, items@);
    }
    out
}

/// The members of a well-formed set are well-formed.
pub proof fn lemma_set_items_wf(items: Seq<Object>, k: Option<Kind>)
    requires
        set_wf(views(items), k),
    ensures
        forall|i: int| 0 <= i < items.len() ==> (#[trigger] items[i]).wf() && orderable(items[i].view())
            && kind_of(items[i].view()) == k,
{
    lemma_views(items);
    assert forall|i: int| 0 <= i < items.len() implies (#[trigger] items[i]).wf() && orderable(items[i].view())
        && kind_of(items[i].view()) == k by {
        assert(views(items)[i] == items[i].view());
        assert(orderable(views(items)[i]));
    }
}

pub fn kind_rank_of(k: Option<Kind>) -> (r: i8)
    ensures
        r == kind_rank(k),
{
    match k {
        None => 0,
        Some(Kind::Integer) => 1,
        Some(Kind::Real) => 2,
        Some(Kind::Boolean) => 3,
        Some(Kind::FiniteSet) => 4,
        Some(Kind::Function) => 5,
        Some(Kind::BuiltinFunction) => 6,
    }
}

fn rank_of(o: &Object) -> (r: i8)
    ensures
        r == rank(o.view()),
{
    match o {
        Object::Integer(_) => 0,
        Object::Real(_) => 1,
        Object::Boolean(_) => 2,
        Object::FiniteSet { .. } => 3,
        Object::Undefined => 4,
        Object::Function { .. } => 5,
        Object::BuiltinFunction { .. } => 6,
    }
}

fn sign_of(x: i8, y: i8) -> (r: i8)
    ensures
        r == sign(x - y),
{
    if x < y {
        -1
    } else if x == y {
        0
    } else {
        1
    }
}

/// The canonical order of two objects: -1, 0 or 1.
pub fn compare(a: &Object, b: &Object) -> (r: i8)
    requires
        a.wf(),
        b.wf(),
    ensures
        r == vcmp(a.view(), b.view()),
    decreases a,
{
    match (a, b) {
        (Object::Integer(x), Object::Integer(y)) => {
            if *x < *y {
                -1
            } else if *x == *y {
                0
            } else {
                1
            }
        },
        (Object::Real(x), Object::Real(y)) => {
            if *x == *y {
                0
            } else if x.less_than(y) {
                -1
            } else {
                1
            }
        },
        (Object::Boolean(x), Object::Boolean(y)) => {
            if *x == *y {
                0
            } else if !*x {
                -1
            } else {
                1
            }
        },
        (Object::FiniteSet { items: xs, kind: k1 }, Object::FiniteSet { items: ys, kind: k2 }) => {
            proof {
                lemma_set_items_wf(xs@, *k1);
                lemma_set_items_wf(ys@, *k2);
            }
            if *k1 != *k2 {
                sign_of(kind_rank_of(*k1), kind_rank_of(*k2))
            } else {
                compare_items(xs, ys)
            }
        },
        _ => sign_of(rank_of(a), rank_of(b)),
    }
}

/// Lexicographic comparison of two member sequences.
pub fn compare_items(xs: &Vec<Object>, ys: &Vec<Object>) -> (r: i8)
    requires
        forall|i: int| 0 <= i < xs.len() ==> (#[trigger] xs@[i]).wf(),
        forall|i: int| 0 <= i < ys.len() ==> (#[trigger] ys@[i]).wf(),
    ensures
        r == seq_cmp(views(xs@), views(ys@), 0),
    decreases xs,
{
    let ghost vx = views(xs@);
    let ghost vy = views(ys@);
    proof {
        lemma_views(xs@);
        lemma_views(ys@);
    }
    let mut i: usize = 0;
    while i < xs.len() && i < ys.len()
        invariant
            vx == views(xs@),
            vy == views(ys@),
            vx.len() == xs.len(),
            vy.len() == ys.len(),
            forall|j: int| 0 <= j < xs.len() ==> (#[trigger] xs@[j]).wf() && vx[j] == xs@[j].view(),
            forall|j: int| 0 <= j < ys.len() ==> (#[trigger] ys@[j]).wf() && vy[j] == ys@[j].view(),
            i <= xs.len(),
            i <= ys.len(),
            seq_cmp(vx, vy, 0) == seq_cmp(vx, vy, i as nat),
        decreases xs.len() - i,
    {
        proof {
            assert(decreases_to!(xs => xs[i as int]));
        }
        let c = compare(&xs[i], &ys[i]);
        if c != 0 {
            return c;
        }
        i = i + 1;
    }
    if i >= xs.len() {
        if i >= ys.len() {
            0
        } else {
            -1
        }
    } else {
        1
    }
}

/// Equality of two values as a caller outside the language sees it:
/// numbers by their decimal form, booleans, and sets member by member;
/// `Undefined` and functions equal nothing.
pub open spec fn loose_eq(a: Value, b: Value) -> bool
    decreases a,
{
    match (a, b) {
        (Value::Integer(x), Value::Integer(y)) => x == y,
        (Value::Integer(x), Value::Real(r)) => Real::spec_from_int(x) == r,
        (Value::Real(r), Value::Integer(y)) => r == Real::spec_from_int(y),
        (Value::Real(r), Value::Real(q)) => r == q,
        (Value::Boolean(x), Value::Boolean(y)) => x == y,
        (Value::FiniteSet(xs, k1), Value::FiniteSet(ys, k2)) => k1 == k2 && xs.len() == ys.len()
            && loose_eq_from(xs, ys, 0),
        _ => false,
    }
}

pub open spec fn loose_eq_from(xs: Seq<Value>, ys: Seq<Value>, i: nat) -> bool
    decreases xs, xs.len() - i,
{
    if i >= xs.len() || i >= ys.len() {
        true
    } else {
        loose_eq(xs[i as int], ys[i as int]) && loose_eq_from(xs, ys, i + 1)
    }
}

fn loose_equal(a: &Object, b: &Object) -> (r: bool)
    ensures
        r == loose_eq(a.view(), b.view()),
    decreases a,
{
    match (a, b) {
        (Object::Integer(x), Object::Integer(y)) => *x == *y,
        (Object::Integer(x), Object::Real(r)) => Real::from_int(*x) == *r,
        (Object::Real(r), Object::Integer(y)) => *r == Real::from_int(*y),
        (Object::Real(r), Object::Real(q)) => *r == *q,
        (Object::Boolean(x), Object::Boolean(y)) => *x == *y,
        (Object::FiniteSet { items: xs, kind: k1 }, Object::FiniteSet { items: ys, kind: k2 }) => {
            proof {
                lemma_views(xs@);
                lemma_views(ys@);
            }
            *k1 == *k2 && xs.len() == ys.len() && loose_equal_items(xs, ys)
        },
        _ => false,
    }
}

fn loose_equal_items(xs: &Vec<Object>, ys: &Vec<Object>) -> (r: bool)
    requires
        xs.len() == ys.len(),
    ensures
        r == loose_eq_from(views(xs@), views(ys@), 0),
    decreases xs,
{
    let ghost vx = views(xs@);
    let ghost vy = views(ys@);
    proof {
        lemma_views(xs@);
        lemma_views(ys@);
    }
    let mut i: usize = xs.len();
    while i > 0
        invariant
            i <= xs.len(),
            xs.len() == ys.len(),
            vx == views(xs@),
            vy == views(ys@),
            vx.len() == xs.len(),
            vy.len() == ys.len(),
            forall|j: int| 0 <= j < xs.len() ==> vx[j] == (#[trigger] xs@[j]).view(),
            forall|j: int| 0 <= j < ys.len() ==> vy[j] == (#[trigger] ys@[j]).view(),
            loose_eq_from(vx, vy, i as nat),
        decreases i,
    {
        proof {
            assert(decreases_to!(xs => xs[i - 1]));
        }
        if !loose_equal(&xs[i - 1], &ys[i - 1]) {
            proof {
                lemma_loose_eq_from_fails(vx, vy, 0, (i - 1) as nat);
            }
            return false;
        }
        i = i - 1;
    }
    true
}

proof fn lemma_loose_eq_from_fails(xs: Seq<Value>, ys: Seq<Value>, i: nat, j: nat)
    requires
        i <= j < xs.len(),
        j < ys.len(),
        !loose_eq(xs[j as int], ys[j as int]),
    ensures
        !loose_eq_from(xs, ys, i),
    decreases j - i,
{
    if i < j {
        lemma_loose_eq_from_fails(xs, ys, i + 1, j);
    }
}

impl PartialEq for Object {
    fn eq(&self, other: &Object) -> (r: bool) {
        loose_equal(self, other)
    }
}

impl vstd::std_specs::cmp::PartialEqSpecImpl for Object {
    open spec fn obeys_eq_spec() -> bool {
        true
    }

    open spec fn eq_spec(&self, other: &Object) -> bool {
        loose_eq(self.view(), other.view())
    }
}

} // verus!
