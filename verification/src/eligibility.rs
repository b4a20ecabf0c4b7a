//! The eligible population of a draw: every identity in the eligibility
//! source whose balance reaches the draw's floor, in source order.

use vstd::prelude::*;
use crate::identity::id_views;
use crate::models::{LpSummaryView, UserLpSummary};

verus! {

/// The mathematical content of the eligibility source.
pub open spec fn lp_views(rows: Seq<UserLpSummary>) -> Seq<LpSummaryView> {
    rows.map_values(|r: UserLpSummary| r@)
}

/// The source rows carry pairwise-distinct identities (the source maps each
/// identity to one balance).
pub open spec fn distinct_accounts(rows: Seq<LpSummaryView>) -> bool {
    forall|i: int, j: int|
        0 <= i < j < rows.len() ==> (#[trigger] rows[i]).qq != (#[trigger] rows[j]).qq
}

/// The identities whose balance reaches the floor `m`, in source order.
pub open spec fn eligible_of(rows: Seq<LpSummaryView>, m: int) -> Seq<Seq<char>>
    decreases rows.len(),
{
    if rows.len() == 0 {
        Seq::empty()
    } else {
        let rest = eligible_of(rows.drop_last(), m);
        if rows.last().total_lp >= m {
            rest.push(rows.last().qq)
        } else {
            rest
        }
    }
}

/// An identity is eligible exactly when some source row carries it with a
/// balance at or above the floor.
pub proof fn lemma_eligible_membership(rows: Seq<LpSummaryView>, m: int)
    ensures
        forall|x: Seq<char>|
            eligible_of(rows, m).contains(x) <==> exists|j: int|
                0 <= j < rows.len() && (#[trigger] rows[j]).qq == x && rows[j].total_lp >= m,
    decreases rows.len(),
{
    if rows.len() > 0 {
        lemma_eligible_membership(rows.drop_last(), m);
        let rest = eligible_of(rows.drop_last(), m);
        assert forall|x: Seq<char>| eligible_of(rows, m).contains(x) implies exists|j: int|
            0 <= j < rows.len() && (#[trigger] rows[j]).qq == x && rows[j].total_lp >= m by {
            if rows.last().total_lp >= m {
                if x == rows.last().qq && !rest.contains(x) {
                    assert(rows[rows.len() - 1].qq == x && rows[rows.len() - 1].total_lp >= m);
                } else {
                    assert(rest.push(rows.last().qq)[rest.len() as int] == rows.last().qq);
                    if x != rows.last().qq {
                        let k = choose|k: int| 0 <= k < rest.len() + 1 && rest.push(
                            rows.last().qq,
                        )[k] == x;
                        assert(rest[k] == x);
                        assert(rest.contains(x));
                    }
                    if rest.contains(x) {
                        let j = choose|j: int|
                            0 <= j < rows.drop_last().len() && (#[trigger] rows.drop_last()[j]).qq
                                == x && rows.drop_last()[j].total_lp >= m;
                        assert(rows[j].qq == x && rows[j].total_lp >= m);
                    }
                }
            } else {
                let j = choose|j: int|
                    0 <= j < rows.drop_last().len() && (#[trigger] rows.drop_last()[j]).qq == x
                        && rows.drop_last()[j].total_lp >= m;
                assert(rows[j].qq == x && rows[j].total_lp >= m);
            }
        }
        assert forall|x: Seq<char>|
            exists|j: int|
                0 <= j < rows.len() && (#[trigger] rows[j]).qq == x && rows[j].total_lp
                    >= m implies eligible_of(rows, m).contains(x) by {
            let j = choose|j: int|
                0 <= j < rows.len() && (#[trigger] rows[j]).qq == x && rows[j].total_lp >= m;
            if j == rows.len() - 1 {
                assert(rows.last().total_lp >= m);
                assert(eligible_of(rows, m).last() == x);
                assert(eligible_of(rows, m).contains(x));
            } else {
                assert(rows.drop_last()[j].qq == x && rows.drop_last()[j].total_lp >= m);
                assert(rest.contains(x));
                let k = choose|k: int| 0 <= k < rest.len() && rest[k] == x;
                if rows.last().total_lp >= m {
                    assert(rest.push(rows.last().qq)[k] == x);
                }
                assert(eligible_of(rows, m).contains(x));
            }
        }
    }
}

/// With distinct source identities the eligible population is itself
/// duplicate-free.
pub proof fn lemma_eligible_distinct(rows: Seq<LpSummaryView>, m: int)
    requires
        distinct_accounts(rows),
    ensures
        eligible_of(rows, m).no_duplicates(),
    decreases rows.len(),
{
    if rows.len() > 0 {
        assert(distinct_accounts(rows.drop_last()));
        lemma_eligible_distinct(rows.drop_last(), m);
        if rows.last().total_lp >= m {
            let rest = eligible_of(rows.drop_last(), m);
            lemma_eligible_membership(rows.drop_last(), m);
            if rest.contains(rows.last().qq) {
                let j = choose|j: int|
                    0 <= j < rows.drop_last().len() && (#[trigger] rows.drop_last()[j]).qq
                        == rows.last().qq && rows.drop_last()[j].total_lp >= m;
                assert(rows[j].qq == rows[rows.len() - 1].qq);
                assert(false);
            }
        }
    }
}

/// Collect the eligible identities for floor `m` from the source rows.
pub fn eligible_ids(rows: &Vec<UserLpSummary>, m: i64) -> (r: Vec<String>)
    ensures
        id_views(r@) == eligible_of(lp_views(rows@), m as int),
{
    let mut r: Vec<String> = Vec::new();
    let n = rows.len();
    let mut i: usize = 0;
    while i < n
        invariant
            n == rows@.len(),
            0 <= i <= n,
            id_views(r@) =~= eligible_of(lp_views(rows@).take(i as int), m as int),
        decreases n - i,
    {
        proof {
            assert(lp_views(rows@).take(i + 1).drop_last() =~= lp_views(rows@).take(i as int));
            assert(lp_views(rows@).take(i + 1).last() == rows@[i as int]@);
        }
        if rows[i].total_lp >= m {
            r.push(rows[i].qq.clone());
        }
        proof {
            assert(id_views(r@) =~= eligible_of(lp_views(rows@).take(i + 1), m as int));
        }
        i += 1;
    }
    proof {
        assert(lp_views(rows@).take(n as int) =~= lp_views(rows@));
        assert(id_views(r@) =~= eligible_of(lp_views(rows@), m as int));
    }
    r
}

} // verus!
