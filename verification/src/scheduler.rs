//! Ordering support for the store's listings and the scheduler: which
//! draws are pending, the plan-time order under which the scheduler works
//! through a backlog (earliest due first), and the creation-time order
//! under which listings are served (newest first).

use vstd::prelude::*;
use vstd::multiset::Multiset;
use crate::draw::{Draw, DrawView};
use crate::engine::draw_views;

verus! {

/// The pending draws, in store order.
pub open spec fn pending_of(draws: Seq<DrawView>) -> Seq<DrawView>
    decreases draws.len(),
{
    if draws.len() == 0 {
        Seq::empty()
    } else {
        let rest = pending_of(draws.drop_last());
        if draws.last().status is Pending {
            rest.push(draws.last())
        } else {
            rest
        }
    }
}

/// A record is among the pending ones exactly when it is a pending record
/// of the store.
pub proof fn lemma_pending_membership(draws: Seq<DrawView>)
    ensures
        forall|d: DrawView|
            pending_of(draws).contains(d) <==> exists|i: int|
                0 <= i < draws.len() && #[trigger] draws[i] == d && d.status is Pending,
    decreases draws.len(),
{
    if draws.len() > 0 {
        lemma_pending_membership(draws.drop_last());
        let rest = pending_of(draws.drop_last());
        assert forall|d: DrawView| pending_of(draws).contains(d) implies exists|i: int|
            0 <= i < draws.len() && #[trigger] draws[i] == d && d.status is Pending by {
            if draws.last().status is Pending && d == draws.last() {
                assert(draws[draws.len() - 1] == d);
            } else {
                if draws.last().status is Pending {
                    let k = choose|k: int|
                        0 <= k < rest.len() + 1 && rest.push(draws.last())[k] == d;
                    assert(rest[k] == d);
                }
                assert(rest.contains(d));
                let i = choose|i: int|
                    0 <= i < draws.drop_last().len() && #[trigger] draws.drop_last()[i] == d
                        && d.status is Pending;
                assert(draws[i] == d);
            }
        }
        assert forall|d: DrawView|
            exists|i: int|
                0 <= i < draws.len() && #[trigger] draws[i] == d
                    && d.status is Pending implies pending_of(draws).contains(d) by {
            let i = choose|i: int|
                0 <= i < draws.len() && #[trigger] draws[i] == d && d.status is Pending;
            if i == draws.len() - 1 {
                assert(pending_of(draws).last() == d);
            } else {
                assert(draws.drop_last()[i] == d);
                assert(rest.contains(d));
                let k = choose|k: int| 0 <= k < rest.len() && rest[k] == d;
                if draws.last().status is Pending {
                    assert(rest.push(draws.last())[k] == d);
                }
            }
        }
    }
}

/// Non-decreasing plan times.
pub open spec fn sorted_by_plan_time(s: Seq<DrawView>) -> bool {
    forall|i: int, j: int| 0 <= i <= j < s.len() ==> s[i].plan_time <= s[j].plan_time
}

/// Sort draw records by their scheduled time, earliest first.
pub fn sort_by_plan_time(v: Vec<Draw>) -> (r: Vec<Draw>)
    ensures
        draw_views(r@).to_multiset() == draw_views(v@).to_multiset(),
        sorted_by_plan_time(draw_views(r@)),
{
    broadcast use vstd::seq_lib::group_to_multiset_ensures;
    broadcast use vstd::multiset::group_multiset_axioms;

    let mut src = v;
    let mut out: Vec<Draw> = Vec::new();
    proof {
        assert(draw_views(out@) =~= Seq::<DrawView>::empty());
        assert(draw_views(out@).to_multiset().add(draw_views(src@).to_multiset())
            =~= draw_views(v@).to_multiset());
    }
    while src.len() > 0
        invariant
            draw_views(out@).to_multiset().add(draw_views(src@).to_multiset()) == draw_views(
                v@,
            ).to_multiset(),
            sorted_by_plan_time(draw_views(out@)),
            forall|a: int, b: int|
                0 <= a < out@.len() && 0 <= b < src@.len() ==> (
                #[trigger] draw_views(out@)[a]).plan_time <= (
                #[trigger] draw_views(src@)[b]).plan_time,
        decreases src.len(),
    {
        let n = src.len();
        let mut mi: usize = 0;
        let mut i: usize = 1;
        while i < n
            invariant
                n == src@.len(),
                0 <= mi < n,
                1 <= i <= n,
                forall|j: int|
                    0 <= j < i ==> src@[mi as int]@.plan_time <= (#[trigger] src@[j]@).plan_time,
            decreases n - i,
        {
            if src[i].plan_time < src[mi].plan_time {
                mi = i;
            }
            i += 1;
        }
        let ghost src_before = draw_views(src@);
        let ghost out_before = draw_views(out@);
        let picked = src.remove(mi);
        let ghost pv = picked@;
        out.push(picked);
        proof {
            assert(draw_views(src@) =~= src_before.remove(mi as int));
            assert(draw_views(out@) =~= out_before.push(pv));
            assert(src_before[mi as int] == pv);
            let a = out_before.to_multiset();
            let b = src_before.to_multiset();
            src_before.to_multiset_ensures();
            out_before.to_multiset_ensures();
            assert(b.count(pv) >= 1) by {
                assert(src_before.contains(pv));
            }
            assert forall|y: DrawView| #[trigger] a.insert(pv).add(b.remove(pv)).count(y)
                == a.add(b).count(y) by {
                if y == pv {
                    assert(a.insert(pv).count(y) == a.count(y) + 1);
                    assert(b.remove(pv).count(y) == b.count(y) - 1);
                } else {
                    assert(a.insert(pv).count(y) == a.count(y));
                    assert(b.remove(pv).count(y) == b.count(y));
                }
            }
            assert(a.insert(pv).add(b.remove(pv)) =~= a.add(b));
            assert(out_before.push(pv).to_multiset() =~= a.insert(pv));
            assert(draw_views(out@).to_multiset() =~= a.insert(pv));
            assert(src_before.remove(mi as int).to_multiset() == b.remove(pv));
            assert(draw_views(src@).to_multiset() =~= b.remove(pv));
            assert forall|a2: int, b2: int|
                0 <= a2 < out@.len() && 0 <= b2 < src@.len() implies (
            #[trigger] draw_views(out@)[a2]).plan_time <= (
            #[trigger] draw_views(src@)[b2]).plan_time by {
                let sb = if b2 < mi as int {
                    b2
                } else {
                    b2 + 1
                };
                assert(draw_views(src@)[b2] == src_before[sb]);
                if a2 < out_before.len() {
                    assert(draw_views(out@)[a2] == out_before[a2]);
                } else {
                    assert(draw_views(out@)[a2] == pv);
                    assert(pv.plan_time <= src_before[sb].plan_time);
                }
            }
            assert forall|i2: int, j2: int|
                0 <= i2 <= j2 < draw_views(out@).len() implies draw_views(out@)[i2].plan_time
                <= draw_views(out@)[j2].plan_time by {
                if j2 < out_before.len() {
                    assert(draw_views(out@)[i2] == out_before[i2]);
                    assert(draw_views(out@)[j2] == out_before[j2]);
                } else if i2 < out_before.len() {
                    assert(draw_views(out@)[i2] == out_before[i2]);
                    assert(draw_views(out@)[j2] == pv);
                    assert(out_before[i2].plan_time <= src_before[mi as int].plan_time);
                }
            }
        }
    }
    proof {
        assert(draw_views(src@) =~= Seq::<DrawView>::empty());
        assert(draw_views(src@).to_multiset() =~= Multiset::<DrawView>::empty());
        assert(draw_views(out@).to_multiset().add(Multiset::<DrawView>::empty())
            =~= draw_views(out@).to_multiset());
    }
    out
}

/// Non-increasing creation times: the listing order of the store, newest
/// record first.
pub open spec fn sorted_by_create_time_desc(s: Seq<DrawView>) -> bool {
    forall|i: int, j: int| 0 <= i <= j < s.len() ==> s[i].create_time >= s[j].create_time
}

/// Sort draw records by their creation time, newest first.
pub fn sort_by_create_time_desc(v: Vec<Draw>) -> (r: Vec<Draw>)
    ensures
        draw_views(r@).to_multiset() == draw_views(v@).to_multiset(),
        sorted_by_create_time_desc(draw_views(r@)),
{
    broadcast use vstd::seq_lib::group_to_multiset_ensures;
    broadcast use vstd::multiset::group_multiset_axioms;

    let mut src = v;
    let mut out: Vec<Draw> = Vec::new();
    proof {
        assert(draw_views(out@) =~= Seq::<DrawView>::empty());
        assert(draw_views(out@).to_multiset().add(draw_views(src@).to_multiset())
            =~= draw_views(v@).to_multiset());
    }
    while src.len() > 0
        invariant
            draw_views(out@).to_multiset().add(draw_views(src@).to_multiset()) == draw_views(
                v@,
            ).to_multiset(),
            sorted_by_create_time_desc(draw_views(out@)),
            forall|a: int, b: int|
                0 <= a < out@.len() && 0 <= b < src@.len() ==> (
                #[trigger] draw_views(out@)[a]).create_time >= (
                #[trigger] draw_views(src@)[b]).create_time,
        decreases src.len(),
    {
        let n = src.len();
        let mut mi: usize = 0;
        let mut i: usize = 1;
        while i < n
            invariant
                n == src@.len(),
                0 <= mi < n,
                1 <= i <= n,
                forall|j: int|
                    0 <= j < i ==> src@[mi as int]@.create_time >= (
                    #[trigger] src@[j]@).create_time,
            decreases n - i,
        {
            if src[i].create_time > src[mi].create_time {
                mi = i;
            }
            i += 1;
        }
        let ghost src_before = draw_views(src@);
        let ghost out_before = draw_views(out@);
        let picked = src.remove(mi);
        let ghost pv = picked@;
        out.push(picked);
        proof {
            assert(draw_views(src@) =~= src_before.remove(mi as int));
            assert(draw_views(out@) =~= out_before.push(pv));
            assert(src_before[mi as int] == pv);
            let a = out_before.to_multiset();
            let b = src_before.to_multiset();
            src_before.to_multiset_ensures();
            out_before.to_multiset_ensures();
            assert(b.count(pv) >= 1) by {
                assert(src_before.contains(pv));
            }
            assert forall|y: DrawView| #[trigger] a.insert(pv).add(b.remove(pv)).count(y)
                == a.add(b).count(y) by {
                if y == pv {
                    assert(a.insert(pv).count(y) == a.count(y) + 1);
                    assert(b.remove(pv).count(y) == b.count(y) - 1);
                } else {
                    assert(a.insert(pv).count(y) == a.count(y));
                    assert(b.remove(pv).count(y) == b.count(y));
                }
            }
            assert(a.insert(pv).add(b.remove(pv)) =~= a.add(b));
            assert(out_before.push(pv).to_multiset() =~= a.insert(pv));
            assert(draw_views(out@).to_multiset() =~= a.insert(pv));
            assert(src_before.remove(mi as int).to_multiset() == b.remove(pv));
            assert(draw_views(src@).to_multiset() =~= b.remove(pv));
            assert forall|a2: int, b2: int|
                0 <= a2 < out@.len() && 0 <= b2 < src@.len() implies (
            #[trigger] draw_views(out@)[a2]).create_time >= (
            #[trigger] draw_views(src@)[b2]).create_time by {
                let sb = if b2 < mi as int {
                    b2
                } else {
                    b2 + 1
                };
                assert(draw_views(src@)[b2] == src_before[sb]);
                if a2 < out_before.len() {
                    assert(draw_views(out@)[a2] == out_before[a2]);
                } else {
                    assert(draw_views(out@)[a2] == pv);
                    assert(pv.create_time >= src_before[sb].create_time);
                }
            }
            assert forall|i2: int, j2: int|
                0 <= i2 <= j2 < draw_views(out@).len() implies draw_views(out@)[i2].create_time
                >= draw_views(out@)[j2].create_time by {
                if j2 < out_before.len() {
                    assert(draw_views(out@)[i2] == out_before[i2]);
                    assert(draw_views(out@)[j2] == out_before[j2]);
                } else if i2 < out_before.len() {
                    assert(draw_views(out@)[i2] == out_before[i2]);
                    assert(draw_views(out@)[j2] == pv);
                    assert(out_before[i2].create_time >= src_before[mi as int].create_time);
                }
            }
        }
    }
    proof {
        assert(draw_views(src@) =~= Seq::<DrawView>::empty());
        assert(draw_views(src@).to_multiset() =~= Multiset::<DrawView>::empty());
        assert(draw_views(out@).to_multiset().add(Multiset::<DrawView>::empty())
            =~= draw_views(out@).to_multiset());
    }
    out
}

} // verus!
