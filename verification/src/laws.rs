//! The engine's cross-operation guarantees, each proved once and for all
//! over the transition model: inventory conservation, no over-reservation,
//! idempotent execution, and terminal stability.

use vstd::prelude::*;
use crate::draw::{DrawError, DrawStatus, DrawView, OutcomeView, is_due};
use crate::eligibility::{distinct_accounts, eligible_of, lemma_eligible_membership};
use crate::engine::{EngineView, execute_rel, has_draw, has_item, index_of_draw, index_of_item,
    lemma_execute_step_frame, spec_create, spec_delete};
use crate::models::LpSummaryView;
use crate::selection::lemma_submultiset_membership;

verus! {

/// Inventory conservation: a successful item-linked creation moves exactly
/// the draw's quantity out of the item's stock, and deleting that draw
/// while it is still pending restores the stock exactly to its value
/// before the creation. The draw store is also back to its prior records;
/// only the id counter has advanced.
pub proof fn lemma_inventory_conservation(
    pre: EngineView,
    create_qq: Seq<char>,
    item_id: int,
    fitting: Option<Seq<char>>,
    num: int,
    min_lp_require: int,
    plan_time: int,
    description: Option<Seq<char>>,
    now: int,
)
    requires
        pre.wf(),
        1 <= num,
        spec_create(
            pre,
            create_qq,
            Option::Some(item_id),
            fitting,
            num,
            min_lp_require,
            plan_time,
            description,
            now,
        ).1 is Ok,
    ensures
        ({
            let (mid, r) = spec_create(
                pre,
                create_qq,
                Option::Some(item_id),
                fitting,
                num,
                min_lp_require,
                plan_time,
                description,
                now,
            );
            let ii = index_of_item(pre.items, item_id);
            &&& mid.items[ii].count == pre.items[ii].count - num
            &&& spec_delete(mid, r->Ok_0).1 == Result::<int, DrawError>::Ok(num)
            &&& spec_delete(mid, r->Ok_0).0.items == pre.items
            &&& spec_delete(mid, r->Ok_0).0.draws == pre.draws
        }),
{
    let (mid, r) = spec_create(
        pre,
        create_qq,
        Option::Some(item_id),
        fitting,
        num,
        min_lp_require,
        plan_time,
        description,
        now,
    );
    assert(has_item(pre.items, item_id));
    let ii = index_of_item(pre.items, item_id);
    assert(0 <= ii < pre.items.len() && pre.items[ii].id == item_id);
    let id = pre.next_draw_id;
    assert(r == Result::<int, DrawError>::Ok(id));
    let d = mid.draws.last();
    assert(d.id == id && d.status is Pending && d.item_id == Option::Some(item_id) && d.num
        == num);
    assert(has_draw(mid.draws, id)) by {
        assert(mid.draws[mid.draws.len() - 1].id == id);
    }
    let di = index_of_draw(mid.draws, id);
    assert(0 <= di < mid.draws.len() && mid.draws[di].id == id);
    if di != mid.draws.len() - 1 {
        assert(mid.draws[di] == pre.draws[di]);
        assert(pre.draws[di].id < pre.next_draw_id);
        assert(false);
    }
    assert(has_item(mid.items, item_id)) by {
        assert(mid.items[ii].id == item_id);
    }
    let jj = index_of_item(mid.items, item_id);
    assert(0 <= jj < mid.items.len() && mid.items[jj].id == item_id);
    if jj != ii {
        assert(mid.items[jj] == pre.items[jj]);
        assert(pre.items[jj].id != pre.items[ii].id || jj == ii);
        assert(false);
    }
    let (post, r2) = spec_delete(mid, id);
    assert(r2 == Result::<int, DrawError>::Ok(num));
    assert(post.items =~= pre.items);
    assert(post.draws =~= pre.draws) by {
        assert(mid.draws.remove(mid.draws.len() - 1) =~= pre.draws);
    }
}

/// No over-reservation: two successive creation attempts against the same
/// item whose combined quantities exceed its available stock cannot both
/// succeed; once the first has drawn its stock, the conditional decrement
/// leaves too little for the second, which is rejected with `Conflict`.
pub proof fn lemma_no_over_reservation(
    pre: EngineView,
    item_id: int,
    qq1: Seq<char>,
    fitting1: Option<Seq<char>>,
    num1: int,
    min_lp1: int,
    plan1: int,
    desc1: Option<Seq<char>>,
    now1: int,
    qq2: Seq<char>,
    fitting2: Option<Seq<char>>,
    num2: int,
    min_lp2: int,
    plan2: int,
    desc2: Option<Seq<char>>,
    now2: int,
)
    requires
        pre.wf(),
        has_item(pre.items, item_id),
        1 <= num1,
        1 <= num2,
        num1 + num2 > pre.items[index_of_item(pre.items, item_id)].count,
    ensures
        ({
            let first = spec_create(
                pre,
                qq1,
                Option::Some(item_id),
                fitting1,
                num1,
                min_lp1,
                plan1,
                desc1,
                now1,
            );
            let second = spec_create(
                first.0,
                qq2,
                Option::Some(item_id),
                fitting2,
                num2,
                min_lp2,
                plan2,
                desc2,
                now2,
            );
            first.1 is Ok ==> second.1 == Result::<int, DrawError>::Err(DrawError::Conflict)
        }),
{
    let first = spec_create(
        pre,
        qq1,
        Option::Some(item_id),
        fitting1,
        num1,
        min_lp1,
        plan1,
        desc1,
        now1,
    );
    if first.1 is Ok {
        let mid = first.0;
        let ii = index_of_item(pre.items, item_id);
        assert(0 <= ii < pre.items.len() && pre.items[ii].id == item_id);
        assert(mid.items == pre.items.update(
            ii,
            crate::inventory::ItemView { count: pre.items[ii].count - num1, ..pre.items[ii] },
        ));
        assert(has_item(mid.items, item_id)) by {
            assert(mid.items[ii].id == item_id);
        }
        let jj = index_of_item(mid.items, item_id);
        assert(0 <= jj < mid.items.len() && mid.items[jj].id == item_id);
        if jj != ii {
            assert(mid.items[jj] == pre.items[jj]);
            assert(false);
        }
        assert(mid.items[jj].count == pre.items[ii].count - num1);
        assert(mid.items[jj].count < num2);
    }
}

/// Idempotent execution: executing the same draw a second time changes
/// nothing and reports the outcome already on record — the same winner
/// set, or the same empty verdict.
pub proof fn lemma_execute_idempotent(
    s0: EngineView,
    s1: EngineView,
    s2: EngineView,
    id: int,
    rows1: Seq<LpSummaryView>,
    rows2: Seq<LpSummaryView>,
    o1: OutcomeView,
    o2: OutcomeView,
)
    requires
        s0.wf(),
        execute_rel(s0, s1, id, rows1, o1),
        execute_rel(s1, s2, id, rows2, o2),
    ensures
        s2 == s1,
        o1 matches OutcomeView::Winners(ws) ==> o2 == OutcomeView::Winners(ws),
        o1 is NoEligibleParticipants ==> o2 is NoEligibleParticipants,
        o1 is NotFound ==> o2 is NotFound,
{
    if !has_draw(s0.draws, id) {
        assert(s1 == s0 && o1 is NotFound);
        assert(!has_draw(s1.draws, id));
        assert(s2 == s1 && o2 is NotFound);
    } else {
        lemma_execute_step_frame(s0, s1, id, rows1, o1);
        let di = index_of_draw(s0.draws, id);
        assert(0 <= di < s0.draws.len() && s0.draws[di].id == id);
        assert(s1.draws[di].id == id);
        assert(has_draw(s1.draws, id));
        let dj = index_of_draw(s1.draws, id);
        assert(0 <= dj < s1.draws.len() && s1.draws[dj].id == id);
        if dj != di {
            assert(s1.draws[dj].id == s0.draws[dj].id);
            assert(s0.draws[dj].id != s0.draws[di].id || dj == di);
            assert(false);
        }
        let d = s0.draws[di];
        match d.status {
            DrawStatus::Executed => {
                assert(s1 == s0 && o1 == OutcomeView::Winners(d.winners));
                assert(s1.draws[dj].status is Executed);
                assert(s2 == s1 && o2 == OutcomeView::Winners(s1.draws[dj].winners));
            },
            DrawStatus::Unfillable => {
                assert(s1 == s0 && o1 is NoEligibleParticipants);
                assert(s1.draws[dj].status is Unfillable);
                assert(s2 == s1 && o2 is NoEligibleParticipants);
            },
            DrawStatus::Pending => {
                let pool = eligible_of(rows1, d.min_lp_require);
                if pool.len() == 0 {
                    assert(o1 is NoEligibleParticipants);
                    assert(s1.draws == s0.draws.update(
                        di,
                        DrawView { status: DrawStatus::Unfillable, ..d },
                    ));
                    assert(s1.draws[dj].status is Unfillable);
                    assert(s2 == s1 && o2 is NoEligibleParticipants);
                } else {
                    assert(o1 matches OutcomeView::Winners(ws) && s1.draws == s0.draws.update(
                        di,
                        DrawView { status: DrawStatus::Executed, winners: ws, ..d },
                    ));
                    assert(s1.draws[dj].status is Executed);
                    assert(s2 == s1 && o2 == OutcomeView::Winners(s1.draws[dj].winners));
                }
            },
        }
    }
}

/// Eligibility correctness and the selection bound: executing a pending
/// draw yields pairwise-distinct winners, exactly
/// min(quantity, eligible population size) of them, and every winner is
/// carried by a source row whose balance reached the draw's floor.
pub proof fn lemma_winners_eligible(
    pre: EngineView,
    post: EngineView,
    id: int,
    rows: Seq<LpSummaryView>,
    ws: Seq<Seq<char>>,
)
    requires
        pre.wf(),
        distinct_accounts(rows),
        execute_rel(pre, post, id, rows, OutcomeView::Winners(ws)),
        has_draw(pre.draws, id),
        pre.draws[index_of_draw(pre.draws, id)].status is Pending,
    ensures
        ({
            let d = pre.draws[index_of_draw(pre.draws, id)];
            let pool = eligible_of(rows, d.min_lp_require);
            &&& ws.len() == if d.num <= pool.len() {
                d.num
            } else {
                pool.len() as int
            }
            &&& ws.no_duplicates()
            &&& forall|x: Seq<char>|
                ws.contains(x) ==> exists|j: int|
                    0 <= j < rows.len() && (#[trigger] rows[j]).qq == x && rows[j].total_lp
                        >= d.min_lp_require
        }),
{
    let d = pre.draws[index_of_draw(pre.draws, id)];
    let pool = eligible_of(rows, d.min_lp_require);
    assert(pool.len() > 0) by {
        if pool.len() == 0 {
            assert(OutcomeView::Winners(ws) is NoEligibleParticipants);
        }
    }
    assert(ws.to_multiset().subset_of(pool.to_multiset()));
    lemma_submultiset_membership(ws, pool);
    lemma_eligible_membership(rows, d.min_lp_require);
}

/// Terminal stability: a draw that is already executed or unfillable is
/// left exactly as it is by any further execution step, and it is never
/// due, so the scheduler never selects it again.
pub proof fn lemma_terminal_stability(
    pre: EngineView,
    post: EngineView,
    id: int,
    rows: Seq<LpSummaryView>,
    o: OutcomeView,
    j: int,
    now: int,
)
    requires
        pre.wf(),
        execute_rel(pre, post, id, rows, o),
        0 <= j < pre.draws.len(),
        pre.draws[j].status.is_terminal(),
    ensures
        post.draws[j] == pre.draws[j],
        post.draws[j].status.is_terminal(),
        !is_due(post.draws[j], now),
{
    lemma_execute_step_frame(pre, post, id, rows, o);
}

} // verus!
