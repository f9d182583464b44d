//! Finite sets kept as strictly ascending sequences of members.
use vstd::prelude::*;
use crate::object::{Object, compare, views, lemma_views, lemma_set_items_wf};
use crate::value::{Kind, Value, vcmp, orderable, set_wf, kind_of, contains, lemma_vcmp_antisym,
    lemma_vcmp_zero, lemma_vcmp_trans};

verus! {

/// Which members of a source sequence to take, relative to another set.
pub open spec fn taken(mode: Option<bool>, other: Seq<Value>, v: Value) -> bool {
    match mode {
        None => true,
        Some(t) => contains(other, v) == t,
    }
}

/// Whether the set holds a member equal to `x`.
pub fn member(items: &Vec<Object>, x: &Object, Ghost(k): Ghost<Option<Kind>>) -> (r: bool)
    requires
        set_wf(views(items@), k),
        x.wf(),
        orderable(x.view()),
    ensures
        r == contains(views(items@), x.view()),
{
    proof {
        lemma_views(items@);
        lemma_set_items_wf(items@, k);
    }
    let mut i: usize = 0;
    while i < items.len()
        invariant
            i <= items.len(),
            x.wf(),
            orderable(x.view()),
            views(items@).len() == items.len(),
            forall|j: int| 0 <= j < items.len() ==> (#[trigger] items@[j]).wf() && orderable(items@[j].view())
                && views(items@)[j] == items@[j].view(),
            forall|j: int| 0 <= j < i ==> views(items@)[j] != x.view(),
        decreases items.len() - i,
    {
        let c = compare(&items[i], x);
        proof {
            lemma_vcmp_zero(items@[i as int].view(), x.view());
        }
        if c == 0 {
            return true;
        }
        i = i + 1;
    }
    false
}

/// Puts `x` into the set at its place, unless a member equals it.
pub fn insert_member(items: &mut Vec<Object>, x: Object, Ghost(k): Ghost<Option<Kind>>)
    requires
        set_wf(views(old(items)@), k),
        x.wf(),
        orderable(x.view()),
        kind_of(x.view()) == k,
    ensures
        set_wf(views(final(items)@), k),
        forall|v: Value| #[trigger]
            contains(views(final(items)@), v) == (contains(views(old(items)@), v) || v == x.view()),
{
    let ghost s = views(items@);
    proof {
        lemma_views(items@);
        lemma_set_items_wf(items@, k);
    }
    let mut i: usize = 0;
    while i < items.len() && compare(&items[i], &x) < 0
        invariant
            i <= items.len(),
            s == views(items@),
            set_wf(s, k),
            x.wf(),
            orderable(x.view()),
            s.len() == items.len(),
            forall|j: int| 0 <= j < items.len() ==> (#[trigger] items@[j]).wf() && s[j] == items@[j].view(),
            forall|j: int| 0 <= j < i ==> vcmp(#[trigger] s[j], x.view()) < 0,
        decreases items.len() - i,
    {
        i = i + 1;
    }
    if i < items.len() && compare(&items[i], &x) == 0 {
        proof {
            lemma_vcmp_zero(s[i as int], x.view());
            assert forall|v: Value| #[trigger] contains(s, v) == (contains(s, v) || v == x.view()) by {
                if v == x.view() {
                    assert(s[i as int] == v);
                }
            }
        }
        return;
    }
    proof {
        if i < s.len() {
            lemma_vcmp_antisym(s[i as int], x.view());
            lemma_vcmp_zero(s[i as int], x.view());
            assert(vcmp(x.view(), s[i as int]) < 0);
            assert forall|j: int| i <= j < s.len() implies vcmp(x.view(), #[trigger] s[j]) < 0 by {
                if j > i {
                    lemma_vcmp_trans(x.view(), s[i as int], s[j]);
                }
            }
        }
    }
    let ghost xv = x.view();
    items.insert(i, x);
    proof {
        let t = s.insert(i as int, xv);
        lemma_views(items@);
        assert(views(items@) =~= t);
        assert forall|a: int, b: int| 0 <= a < b < t.len() implies vcmp(t[a], t[b]) < 0 by {
            if b < i {
            } else if b == i {
            } else if a < i {
                lemma_vcmp_trans(t[a], xv, t[b]);
            } else if a == i {
            } else {
            }
        }
        assert forall|v: Value| #[trigger] contains(t, v) == (contains(s, v) || v == xv) by {
            if contains(s, v) {
                let j = choose|j: int| 0 <= j < s.len() && s[j] == v;
                if j < i {
                    assert(t[j] == v);
                } else {
                    assert(t[j + 1] == v);
                }
            }
            if v == xv {
                assert(t[i as int] == v);
            }
            if contains(t, v) {
                let j = choose|j: int| 0 <= j < t.len() && t[j] == v;
                if j < i {
                    assert(s[j] == v);
                } else if j > i {
                    assert(s[j - 1] == v);
                }
            }
        }
    }
}

/// Adds to `res` copies of the members of `src` that `mode` takes with
/// respect to `other`.
pub fn add_members(
    res: &mut Vec<Object>,
    src: &Vec<Object>,
    other: &Vec<Object>,
    mode: Option<bool>,
    Ghost(k): Ghost<Option<Kind>>,
)
    requires
        set_wf(views(old(res)@), k),
        set_wf(views(src@), k),
        set_wf(views(other@), k),
    ensures
        set_wf(views(final(res)@), k),
        forall|v: Value| #[trigger]
            contains(views(final(res)@), v) == (contains(views(old(res)@), v) || (contains(
                views(src@),
                v,
            ) && taken(mode, views(other@), v))),
{
    let ghost r0 = views(res@);
    let ghost vs = views(src@);
    let ghost vo = views(other@);
    proof {
        lemma_views(src@);
        lemma_set_items_wf(src@, k);
    }
    let mut i: usize = 0;
    while i < src.len()
        invariant
            i <= src.len(),
            vs == views(src@),
            vo == views(other@),
            set_wf(vo, k),
            vs.len() == src.len(),
            forall|j: int| 0 <= j < src.len() ==> (#[trigger] src@[j]).wf() && orderable(src@[j].view())
                && kind_of(src@[j].view()) == k && vs[j] == src@[j].view(),
            set_wf(views(res@), k),
            forall|v: Value| #[trigger]
                contains(views(res@), v) == (contains(r0, v) || (exists|j: int|
                    0 <= j < i && vs[j] == v && taken(mode, vo, v))),
        decreases src.len() - i,
    {
        let take = match mode {
            None => true,
            Some(t) => member(other, &src[i], Ghost(k)) == t,
        };
        let ghost before = views(res@);
        if take {
            let c = src[i].copy();
            insert_member(res, c, Ghost(k));
        }
        proof {
            assert forall|v: Value| #[trigger]
                contains(views(res@), v) == (contains(r0, v) || (exists|j: int|
                    0 <= j < i + 1 && vs[j] == v && taken(mode, vo, v))) by {
                if v == vs[i as int] && taken(mode, vo, v) {
                    assert(exists|j: int| 0 <= j < i + 1 && vs[j] == v && taken(mode, vo, v));
                }
                if exists|j: int| 0 <= j < i + 1 && vs[j] == v && taken(mode, vo, v) {
                    let j = choose|j: int| 0 <= j < i + 1 && vs[j] == v && taken(mode, vo, v);
                    if j < i {
                        assert(exists|j: int| 0 <= j < i && vs[j] == v && taken(mode, vo, v));
                    }
                }
            }
        }
        i = i + 1;
    }
    proof {
        assert forall|v: Value| #[trigger] contains(views(res@), v) == (contains(r0, v) || (contains(vs, v)
            && taken(mode, vo, v))) by {
            if contains(vs, v) && taken(mode, vo, v) {
                let j = choose|j: int| 0 <= j < vs.len() && vs[j] == v;
                assert(0 <= j < i && vs[j] == v && taken(mode, vo, v));
            }
        }
    }
}

/// Whether every member of `a` is a member of `b`.
pub fn is_subset_items(a: &Vec<Object>, b: &Vec<Object>, Ghost(k): Ghost<Option<Kind>>) -> (r: bool)
    requires
        set_wf(views(a@), k),
        set_wf(views(b@), k),
    ensures
        r == (forall|v: Value| contains(views(a@), v) ==> contains(views(b@), v)),
{
    let ghost va = views(a@);
    proof {
        lemma_views(a@);
        lemma_set_items_wf(a@, k);
    }
    let mut i: usize = 0;
    while i < a.len()
        invariant
            i <= a.len(),
            va == views(a@),
            set_wf(views(b@), k),
            va.len() == a.len(),
            forall|j: int| 0 <= j < a.len() ==> (#[trigger] a@[j]).wf() && orderable(a@[j].view())
                && va[j] == a@[j].view(),
            forall|j: int| 0 <= j < i ==> contains(views(b@), #[trigger] va[j]),
        decreases a.len() - i,
    {
        if !member(b, &a[i], Ghost(k)) {
            proof {
                assert(contains(va, va[i as int]));
            }
            return false;
        }
        i = i + 1;
    }
    proof {
        assert forall|v: Value| contains(va, v) implies contains(views(b@), v) by {
            let j = choose|j: int| 0 <= j < va.len() && va[j] == v;
        }
    }
    true
}

} // verus!
