//! Merging of a list of items with a list of specifications: an item that a
//! specification describes is updated by it, and an item is made anew for a
//! specification that describes none.
//!
//! Two ways of merging are known here:
//! - by replacement: the result holds exactly one item per specification, in
//!   the order of the specifications; each takes over the first old item
//!   that it describes among those not taken yet (which leaves the list as
//!   [`Vec::swap_remove`] does), and old items that no specification
//!   describes are dropped;
//! - by appending: every specification updates the first item of the list
//!   that it describes, or appends a new item made of it; no item is
//!   dropped.

use vstd::prelude::*;

verus! {

/// An item that can be made of, or updated by, a specification.
pub trait Mergeable: Sized {
    /// Specification the item is made of or updated by.
    type Spec;

    /// Whether this item is the one that the given specification describes.
    spec fn matched_by(self, s: Self::Spec) -> bool;

    /// Whether this item is the given old one updated by the given
    /// specification (by replacement of its own inner items or not).
    spec fn updated(self, old: Self, s: Self::Spec, replace: bool) -> bool;

    /// Whether this item is made anew of the given specification.
    spec fn made(self, s: Self::Spec) -> bool;

    /// Whether this item is the one that the given specification describes.
    fn matches(&self, s: &Self::Spec) -> (res: bool)
        ensures
            res == self.matched_by(*s),
    ;

    /// Updates this item by the given specification.
    fn update(&mut self, s: Self::Spec, replace: bool)
        ensures
            final(self).updated(*old(self), s, replace),
    ;

    /// Makes a new item of the given specification.
    fn make(s: Self::Spec) -> (res: Self)
        ensures
            res.made(s),
    ;
}

/// Whether `j` is the index of the first item of `xs` described by `s`.
pub open spec fn is_first_match<T: Mergeable>(xs: Seq<T>, s: T::Spec, j: int) -> bool {
    &&& 0 <= j < xs.len()
    &&& xs[j].matched_by(s)
    &&& forall|m: int| 0 <= m < j ==> !(#[trigger] xs[m]).matched_by(s)
}

/// Index of the first item of `xs` described by `s`, if any.
pub open spec fn first_match<T: Mergeable>(xs: Seq<T>, s: T::Spec) -> Option<int> {
    if exists|j: int| is_first_match(xs, s, j) {
        Some(choose|j: int| is_first_match(xs, s, j))
    } else {
        None
    }
}

/// The first match is unique.
pub proof fn lemma_first_match<T: Mergeable>(xs: Seq<T>, s: T::Spec, j: int)
    requires
        is_first_match(xs, s, j),
    ensures
        first_match(xs, s) == Some(j),
{
    let c = choose|c: int| is_first_match(xs, s, c);
    assert(is_first_match(xs, s, c));
    if c < j {
        assert(!xs[c].matched_by(s));
    } else if j < c {
        assert(!xs[j].matched_by(s));
    }
}

/// Finds the first item of `xs` described by `s`.
pub fn find_match<T: Mergeable>(xs: &Vec<T>, s: &T::Spec) -> (res: Option<usize>)
    ensures
        match res {
            Some(j) => first_match(xs@, *s) == Some(j as int),
            None => first_match(xs@, *s) is None,
        },
{
    let mut k: usize = 0;
    while k < xs.len()
        invariant
            k <= xs@.len(),
            forall|m: int| 0 <= m < k ==> !(#[trigger] xs@[m]).matched_by(*s),
        decreases xs@.len() - k,
    {
        if xs[k].matches(s) {
            proof {
                lemma_first_match(xs@, *s, k as int);
            }
            return Some(k);
        }
        k = k + 1;
    }
    assert(!exists|j: int| is_first_match(xs@, *s, j)) by {
        assert forall|j: int| !is_first_match(xs@, *s, j) by {
            if 0 <= j < xs@.len() {
                assert(!xs@[j].matched_by(*s));
            }
        }
    }
    None
}

/// Plan of a merge by replacement of `olds` with `news`: for each
/// specification, the index of the old item that it takes over, if any; and
/// the indices of the old items that are left, in the order in which they
/// are left.
pub open spec fn replace_plan<T: Mergeable>(olds: Seq<T>, news: Seq<T::Spec>) -> (Seq<Option<int>>, Seq<int>)
    decreases news.len(),
{
    if news.len() == 0 {
        (Seq::empty(), Seq::new(olds.len(), |i: int| i))
    } else {
        let prev = replace_plan(olds, news.drop_last());
        let rem = prev.1;
        let left = rem.map_values(|i: int| olds[i]);
        match first_match(left, news.last()) {
            Some(p) => (prev.0.push(Some(rem[p])), rem.update(p, rem.last()).drop_last()),
            None => (prev.0.push(None), rem),
        }
    }
}

/// The plan has one entry per specification, and its indices are those of
/// old items.
pub proof fn lemma_replace_plan<T: Mergeable>(olds: Seq<T>, news: Seq<T::Spec>)
    ensures
        replace_plan(olds, news).0.len() == news.len(),
        forall|m: int|
            0 <= m < news.len() ==> match #[trigger] replace_plan(olds, news).0[m] {
                Some(j) => 0 <= j < olds.len(),
                None => true,
            },
        forall|p: int|
            0 <= p < replace_plan(olds, news).1.len() ==> 0 <= #[trigger] replace_plan(
                olds,
                news,
            ).1[p] < olds.len(),
    decreases news.len(),
{
    if news.len() > 0 {
        lemma_replace_plan(olds, news.drop_last());
        let prev = replace_plan(olds, news.drop_last());
        let rem = prev.1;
        let left = rem.map_values(|i: int| olds[i]);
        match first_match(left, news.last()) {
            Some(p) => {
                assert(is_first_match(left, news.last(), p));
                let rem2 = rem.update(p, rem.last()).drop_last();
                assert forall|q: int| 0 <= q < rem2.len() implies 0 <= #[trigger] rem2[q]
                    < olds.len() by {
                    if q == p {
                        assert(rem2[q] == rem[rem.len() - 1]);
                    } else {
                        assert(rem2[q] == rem[q]);
                    }
                }
            },
            None => {},
        }
    }
}

/// The plan of a merge by replacement with the first `k` specifications is
/// the beginning of the plan with all of them.
pub proof fn lemma_replace_plan_prefix<T: Mergeable>(olds: Seq<T>, news: Seq<T::Spec>, k: int)
    requires
        0 <= k <= news.len(),
    ensures
        replace_plan(olds, news.take(k)).0 == replace_plan(olds, news).0.take(k),
    decreases news.len(),
{
    lemma_replace_plan(olds, news);
    lemma_replace_plan(olds, news.take(k));
    if k == news.len() {
        assert(news.take(k) =~= news);
        assert(replace_plan(olds, news).0.take(k) =~= replace_plan(olds, news).0);
    } else {
        let shorter = news.drop_last();
        lemma_replace_plan_prefix(olds, shorter, k);
        assert(shorter.take(k) =~= news.take(k));
        lemma_replace_plan(olds, shorter);
        assert(replace_plan(olds, news).0.take(k) =~= replace_plan(olds, shorter).0.take(k));
    }
}

/// Merging by replacement into no items makes every item anew.
pub proof fn lemma_replace_plan_empty<T: Mergeable>(news: Seq<T::Spec>)
    ensures
        replace_plan(Seq::<T>::empty(), news).1.len() == 0,
        forall|m: int| 0 <= m < news.len() ==> #[trigger] replace_plan(Seq::<T>::empty(), news).0[m] is None,
    decreases news.len(),
{
    lemma_replace_plan(Seq::<T>::empty(), news);
    if news.len() > 0 {
        lemma_replace_plan_empty::<T>(news.drop_last());
        let prev = replace_plan(Seq::<T>::empty(), news.drop_last());
        let left = prev.1.map_values(|i: int| Seq::<T>::empty()[i]);
        assert(left.len() == 0);
        assert(!exists|j: int| is_first_match(left, news.last(), j));
    }
}

/// Whether `res` is the result of the merge by replacement of `olds` with
/// `news`.
pub open spec fn replace_merged<T: Mergeable>(olds: Seq<T>, news: Seq<T::Spec>, res: Seq<T>) -> bool {
    let plan = replace_plan(olds, news).0;
    &&& res.len() == news.len()
    &&& forall|m: int|
        0 <= m < news.len() ==> match plan[m] {
            Some(j) => (#[trigger] res[m]).updated(olds[j], news[m], true),
            None => res[m].made(news[m]),
        }
}

/// Merges `olds` with `news` by replacement.
pub fn merge_replace<T: Mergeable>(olds: Vec<T>, news: Vec<T::Spec>) -> (res: Vec<T>)
    ensures
        replace_merged(olds@, news@, res@),
{
    let ghost olds0 = olds@;
    let ghost all = news@;
    let mut olds = olds;
    let mut rest = news;
    let mut res: Vec<T> = Vec::new();
    proof {
        assert(all.take(0) =~= Seq::<T::Spec>::empty());
        assert(olds@ =~= replace_plan(olds0, all.take(0)).1.map_values(|i: int| olds0[i]));
    }
    while rest.len() > 0
        invariant
            res@.len() <= all.len(),
            rest@ == all.skip(res@.len() as int),
            olds@ == replace_plan(olds0, all.take(res@.len() as int)).1.map_values(
                |i: int| olds0[i],
            ),
            forall|m: int|
                0 <= m < res@.len() ==> match replace_plan(olds0, all.take(res@.len() as int)).0[m] {
                    Some(j) => (#[trigger] res@[m]).updated(olds0[j], all[m], true),
                    None => res@[m].made(all[m]),
                },
        decreases rest@.len(),
    {
        let ghost i = res@.len() as int;
        let ghost prev = replace_plan(olds0, all.take(i));
        let ghost pre = all.take(i + 1);
        proof {
            assert(pre.drop_last() =~= all.take(i));
            assert(pre.last() == all[i]);
            lemma_replace_plan(olds0, all.take(i));
            lemma_replace_plan(olds0, pre);
        }
        let n = rest.remove(0);
        assert(n == all[i]);
        let ghost res0 = res@;
        match find_match(&olds, &n) {
            Some(p) => {
                let mut x = olds.swap_remove(p);
                x.update(n, true);
                res.push(x);
                proof {
                    let rem = prev.1;
                    assert(olds@ =~= rem.update(p as int, rem.last()).drop_last().map_values(
                        |i: int| olds0[i],
                    ));
                }
            },
            None => {
                res.push(T::make(n));
            },
        }
        proof {
            let plan = replace_plan(olds0, pre);
            assert(plan.0 == prev.0.push(plan.0[i]));
            assert(rest@ =~= all.skip(res@.len() as int));
            assert forall|m: int| 0 <= m < res@.len() implies match plan.0[m] {
                Some(j) => (#[trigger] res@[m]).updated(olds0[j], all[m], true),
                None => res@[m].made(all[m]),
            } by {
                if m < i {
                    assert(res@[m] == res0[m]);
                    assert(plan.0[m] == prev.0[m]);
                }
            }
        }
    }
    proof {
        assert(all.take(res@.len() as int) =~= all);
    }
    res
}

/// Whether `xs` is `xs0` after one step of a merge by appending, with the
/// specification `s`.
pub open spec fn append_step<T: Mergeable>(xs0: Seq<T>, s: T::Spec, xs: Seq<T>) -> bool {
    match first_match(xs0, s) {
        Some(j) => xs.len() == xs0.len() && xs[j].updated(xs0[j], s, false) && xs == xs0.update(
            j,
            xs[j],
        ),
        None => xs == xs0.push(xs.last()) && xs.last().made(s),
    }
}

/// Whether the `m`-th step of `trace` is a step of a merge by appending with
/// the `m`-th specification of `news`.
pub open spec fn append_step_at<T: Mergeable>(trace: Seq<Seq<T>>, news: Seq<T::Spec>, m: int) -> bool {
    append_step(trace[m], news[m], trace[m + 1])
}

/// Whether `trace` is the list of the states of a merge by appending of
/// `olds` with `news`, from the first to the last.
pub open spec fn append_trace<T: Mergeable>(olds: Seq<T>, news: Seq<T::Spec>, trace: Seq<Seq<T>>) -> bool {
    &&& trace.len() == news.len() + 1
    &&& trace[0] == olds
    &&& forall|m: int| 0 <= m < news.len() ==> #[trigger] append_step_at(trace, news, m)
}

/// Whether `res` is the result of the merge by appending of `olds` with
/// `news`.
pub open spec fn append_merged<T: Mergeable>(olds: Seq<T>, news: Seq<T::Spec>, res: Seq<T>) -> bool {
    exists|trace: Seq<Seq<T>>| append_trace(olds, news, trace) && trace.last() == res
}

/// Merges `items` with `news` by appending.
pub fn merge_append<T: Mergeable>(items: &mut Vec<T>, news: Vec<T::Spec>)
    ensures
        append_merged(old(items)@, news@, final(items)@),
{
    let ghost olds0 = items@;
    let ghost all = news@;
    let mut rest = news;
    let ghost mut trace: Seq<Seq<T>> = seq![items@];
    let ghost mut i: int = 0;
    while rest.len() > 0
        invariant
            0 <= i <= all.len(),
            rest@ == all.skip(i),
            append_trace(olds0, all.take(i), trace),
            trace.last() == items@,
        decreases rest@.len(),
    {
        let n = rest.remove(0);
        assert(n == all[i]);
        let ghost xs0 = items@;
        match find_match(items, &n) {
            Some(j) => {
                items[j].update(n, false);
                assert(items@ =~= xs0.update(j as int, items@[j as int]));
            },
            None => {
                items.push(T::make(n));
            },
        }
        proof {
            let trace0 = trace;
            trace = trace.push(items@);
            let pre = all.take(i + 1);
            assert forall|m: int| 0 <= m < pre.len() implies #[trigger] append_step_at(
                trace,
                pre,
                m,
            ) by {
                if m < i {
                    assert(append_step_at(trace0, all.take(i), m));
                    assert(trace[m] == trace0[m]);
                    assert(trace[m + 1] == trace0[m + 1]);
                    assert(pre[m] == all.take(i)[m]);
                } else {
                    assert(trace[m] == xs0);
                }
            }
            i = i + 1;
            assert(rest@ =~= all.skip(i));
        }
    }
    proof {
        assert(all.take(i) =~= all);
    }
}

/// Whether `j` is the index of the first item of `xs` that has the property
/// `p`.
pub open spec fn is_first_where<T>(xs: Seq<T>, p: spec_fn(T) -> bool, j: int) -> bool {
    &&& 0 <= j < xs.len()
    &&& p(xs[j])
    &&& forall|m: int| 0 <= m < j ==> !p(#[trigger] xs[m])
}

/// Index of the first item of `xs` that has the property `p`, if any.
pub open spec fn first_where<T>(xs: Seq<T>, p: spec_fn(T) -> bool) -> Option<int> {
    if exists|j: int| is_first_where(xs, p, j) {
        Some(choose|j: int| is_first_where(xs, p, j))
    } else {
        None
    }
}

/// The first item with a property is unique.
pub proof fn lemma_first_where<T>(xs: Seq<T>, p: spec_fn(T) -> bool, j: int)
    requires
        is_first_where(xs, p, j),
    ensures
        first_where(xs, p) == Some(j),
{
    let c = choose|c: int| is_first_where(xs, p, c);
    assert(is_first_where(xs, p, c));
    if c < j {
        assert(!p(xs[c]));
    } else if j < c {
        assert(!p(xs[j]));
    }
}

/// Where no item has a property, there is no first one.
pub proof fn lemma_first_where_none<T>(xs: Seq<T>, p: spec_fn(T) -> bool)
    requires
        forall|m: int| 0 <= m < xs.len() ==> !p(#[trigger] xs[m]),
    ensures
        first_where(xs, p) is None,
{
    assert forall|j: int| !is_first_where(xs, p, j) by {
        if 0 <= j < xs.len() {
            assert(!p(xs[j]));
        }
    }
}

} // verus!
