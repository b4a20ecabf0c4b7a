//! The draw lifecycle manager and its store.
//!
//! One `DrawEngine` value holds the draw store and the inventory ledger and
//! enforces the whole lifecycle: creation (with stock reservation), manual
//! or scheduled execution, manual winner override, and deletion (with stock
//! release). Each operation is one atomic step of the model: either the
//! whole transition applies or the state is unchanged.

use vstd::prelude::*;
use crate::draw::{Draw, DrawError, DrawStatus, DrawView, ExecuteOutcome, OutcomeView, is_due, opt_id_view};
use crate::eligibility::{distinct_accounts, eligible_of, eligible_ids, lemma_eligible_distinct,
    lp_views};
use crate::identity::{clone_ids, id_views, opt_view};
use crate::inventory::{InventoryItem, ItemView};
use crate::models::{LpSummaryView, UserLpSummary};
use crate::selection::{now_nanos, select_winners};

verus! {

/// The mathematical content of the stored draw records.
pub open spec fn draw_views(s: Seq<Draw>) -> Seq<DrawView> {
    s.map_values(|d: Draw| d@)
}

/// The mathematical content of the stored inventory rows.
pub open spec fn item_views(s: Seq<InventoryItem>) -> Seq<ItemView> {
    s.map_values(|x: InventoryItem| x@)
}

/// Mathematical model of the whole engine state.
#[verifier::ext_equal]
pub struct EngineView {
    pub draws: Seq<DrawView>,
    pub items: Seq<ItemView>,
    pub next_draw_id: int,
    pub next_item_id: int,
}

pub open spec fn has_draw(draws: Seq<DrawView>, id: int) -> bool {
    exists|i: int| 0 <= i < draws.len() && (#[trigger] draws[i]).id == id
}

pub open spec fn index_of_draw(draws: Seq<DrawView>, id: int) -> int {
    choose|i: int| 0 <= i < draws.len() && (#[trigger] draws[i]).id == id
}

pub open spec fn has_item(items: Seq<ItemView>, id: int) -> bool {
    exists|i: int| 0 <= i < items.len() && (#[trigger] items[i]).id == id
}

pub open spec fn index_of_item(items: Seq<ItemView>, id: int) -> int {
    choose|i: int| 0 <= i < items.len() && (#[trigger] items[i]).id == id
}

/// How many units of item `item_id` this one draw holds in reservation:
/// its quantity while it is pending and linked to the item, else nothing.
pub open spec fn reserves(d: DrawView, item_id: int) -> int {
    if d.status is Pending && d.item_id == Option::Some(item_id) {
        d.num
    } else {
        0
    }
}

/// Units of item `item_id` held in reservation across all draws.
pub open spec fn reserved_in(draws: Seq<DrawView>, item_id: int) -> int
    decreases draws.len(),
{
    if draws.len() == 0 {
        0
    } else {
        reserved_in(draws.drop_last(), item_id) + reserves(draws.last(), item_id)
    }
}

impl EngineView {
    pub open spec fn draws_wf(self) -> bool {
        &&& 0 <= self.next_draw_id
        &&& forall|i: int, j: int|
            0 <= i < j < self.draws.len() ==> (#[trigger] self.draws[i]).id != (
            #[trigger] self.draws[j]).id
        &&& forall|i: int|
            0 <= i < self.draws.len() ==> 0 <= (#[trigger] self.draws[i]).id
                < self.next_draw_id
        &&& forall|i: int| 0 <= i < self.draws.len() ==> 1 <= (#[trigger] self.draws[i]).num
        &&& forall|i: int|
            0 <= i < self.draws.len() ==> 0 <= (#[trigger] self.draws[i]).min_lp_require
        &&& forall|i: int|
            0 <= i < self.draws.len() ==> ((#[trigger] self.draws[i]).status is Executed
                <==> self.draws[i].winners.len() >= 1)
        &&& forall|i: int|
            0 <= i < self.draws.len() ==> (#[trigger] self.draws[i]).winners.no_duplicates()
        &&& forall|i: int|
            0 <= i < self.draws.len() ==> ((#[trigger] self.draws[i]).status is Pending
                && self.draws[i].item_id is Some ==> has_item(self.items, self.draws[i].item_id->0))
    }

    pub open spec fn items_wf(self) -> bool {
        &&& 0 <= self.next_item_id
        &&& forall|i: int, j: int|
            0 <= i < j < self.items.len() ==> (#[trigger] self.items[i]).id != (
            #[trigger] self.items[j]).id
        &&& forall|i: int|
            0 <= i < self.items.len() ==> 0 <= (#[trigger] self.items[i]).id
                < self.next_item_id
        &&& forall|i: int| 0 <= i < self.items.len() ==> 0 <= (#[trigger] self.items[i]).count
        &&& forall|i: int|
            0 <= i < self.items.len() ==> (#[trigger] self.items[i]).count + reserved_in(
                self.draws,
                self.items[i].id,
            ) <= i64::MAX
    }

    /// Well-formedness of the whole state: unique identities below the
    /// id counters, positive quantities, a non-negative eligibility floor,
    /// winner lists tied to the executed status, every pending reservation
    /// backed by an existing item, and every item's stock plus outstanding
    /// reservations within machine range.
    pub open spec fn wf(self) -> bool {
        self.draws_wf() && self.items_wf()
    }
}

/// Appending a draw adds exactly its own reservation.
pub proof fn lemma_reserved_push(draws: Seq<DrawView>, d: DrawView, item_id: int)
    ensures
        reserved_in(draws.push(d), item_id) == reserved_in(draws, item_id) + reserves(d, item_id),
{
    assert(draws.push(d).drop_last() =~= draws);
    assert(draws.push(d).last() == d);
}

/// Replacing a draw exchanges its old reservation for its new one.
pub proof fn lemma_reserved_update(draws: Seq<DrawView>, i: int, d: DrawView, item_id: int)
    requires
        0 <= i < draws.len(),
    ensures
        reserved_in(draws.update(i, d), item_id) == reserved_in(draws, item_id) - reserves(
            draws[i],
            item_id,
        ) + reserves(d, item_id),
    decreases draws.len(),
{
    if i == draws.len() - 1 {
        assert(draws.update(i, d).drop_last() =~= draws.drop_last());
        assert(draws.update(i, d).last() == d);
    } else {
        assert(draws.update(i, d).drop_last() =~= draws.drop_last().update(i, d));
        assert(draws.update(i, d).last() == draws.last());
        lemma_reserved_update(draws.drop_last(), i, d, item_id);
    }
}

/// Removing a draw releases exactly its own reservation.
pub proof fn lemma_reserved_remove(draws: Seq<DrawView>, i: int, item_id: int)
    requires
        0 <= i < draws.len(),
    ensures
        reserved_in(draws.remove(i), item_id) == reserved_in(draws, item_id) - reserves(
            draws[i],
            item_id,
        ),
    decreases draws.len(),
{
    if i == draws.len() - 1 {
        assert(draws.remove(i) =~= draws.drop_last());
    } else {
        assert(draws.remove(i).drop_last() =~= draws.drop_last().remove(i));
        assert(draws.remove(i).last() == draws.last());
        lemma_reserved_remove(draws.drop_last(), i, item_id);
    }
}

/// With non-negative quantities, total reservation is non-negative.
pub proof fn lemma_reserved_nonneg(draws: Seq<DrawView>, item_id: int)
    requires
        forall|i: int| 0 <= i < draws.len() ==> 0 <= (#[trigger] draws[i]).num,
    ensures
        0 <= reserved_in(draws, item_id),
    decreases draws.len(),
{
    if draws.len() > 0 {
        lemma_reserved_nonneg(draws.drop_last(), item_id);
    }
}

/// One draw's reservation never exceeds the total.
pub proof fn lemma_reserves_le_reserved(draws: Seq<DrawView>, i: int, item_id: int)
    requires
        forall|i: int| 0 <= i < draws.len() ==> 0 <= (#[trigger] draws[i]).num,
        0 <= i < draws.len(),
    ensures
        reserves(draws[i], item_id) <= reserved_in(draws, item_id),
    decreases draws.len(),
{
    if i == draws.len() - 1 {
        lemma_reserved_nonneg(draws.drop_last(), item_id);
    } else {
        lemma_reserves_le_reserved(draws.drop_last(), i, item_id);
        assert(reserves(draws.last(), item_id) >= 0);
    }
}

/// A draw set in which nothing reserves the item reserves no stock of it.
pub proof fn lemma_reserved_zero(draws: Seq<DrawView>, item_id: int)
    requires
        forall|i: int| 0 <= i < draws.len() ==> reserves(#[trigger] draws[i], item_id) == 0,
    ensures
        reserved_in(draws, item_id) == 0,
    decreases draws.len(),
{
    if draws.len() > 0 {
        lemma_reserved_zero(draws.drop_last(), item_id);
    }
}

/// The record a creation request inserts: a pending draw with no winners.
pub open spec fn pending_draw_view(
    id: int,
    create_qq: Seq<char>,
    item_id: Option<int>,
    fitting: Option<Seq<char>>,
    num: int,
    min_lp_require: int,
    plan_time: int,
    description: Option<Seq<char>>,
    now: int,
) -> DrawView {
    DrawView {
        id,
        create_time: now,
        create_qq,
        item_id,
        fitting,
        num,
        min_lp_require,
        plan_time,
        status: DrawStatus::Pending,
        winners: Seq::empty(),
        description,
    }
}

/// What creation does: without a linked item the pending record is inserted
/// directly; with one, the item must exist (`NotFound`), cover the quantity
/// (`Conflict`) and belong to the creator (`Forbidden`), and on success the
/// stock decrement and the insert apply together.
pub open spec fn spec_create(
    pre: EngineView,
    create_qq: Seq<char>,
    item_id: Option<int>,
    fitting: Option<Seq<char>>,
    num: int,
    min_lp_require: int,
    plan_time: int,
    description: Option<Seq<char>>,
    now: int,
) -> (EngineView, Result<int, DrawError>) {
    let d = pending_draw_view(
        pre.next_draw_id,
        create_qq,
        item_id,
        fitting,
        num,
        min_lp_require,
        plan_time,
        description,
        now,
    );
    match item_id {
        Option::None => (
            EngineView {
                draws: pre.draws.push(d),
                next_draw_id: pre.next_draw_id + 1,
                ..pre
            },
            Result::Ok(pre.next_draw_id),
        ),
        Option::Some(it) => if !has_item(pre.items, it) {
            (pre, Result::Err(DrawError::NotFound))
        } else {
            let ii = index_of_item(pre.items, it);
            if pre.items[ii].count < num {
                (pre, Result::Err(DrawError::Conflict))
            } else if pre.items[ii].seller != create_qq {
                (pre, Result::Err(DrawError::Forbidden))
            } else {
                (
                    EngineView {
                        draws: pre.draws.push(d),
                        items: pre.items.update(
                            ii,
                            ItemView { count: pre.items[ii].count - num, ..pre.items[ii] },
                        ),
                        next_draw_id: pre.next_draw_id + 1,
                        ..pre
                    },
                    Result::Ok(pre.next_draw_id),
                )
            }
        },
    }
}

/// What deletion does: the record leaves the store; if it was still pending
/// with a linked item, that item's stock grows back by the draw's quantity.
/// The restored quantity is reported.
pub open spec fn spec_delete(pre: EngineView, id: int) -> (EngineView, Result<int, DrawError>) {
    if !has_draw(pre.draws, id) {
        (pre, Result::Err(DrawError::NotFound))
    } else {
        let di = index_of_draw(pre.draws, id);
        let d = pre.draws[di];
        if d.status is Pending && d.item_id is Some && has_item(pre.items, d.item_id->0) {
            let ii = index_of_item(pre.items, d.item_id->0);
            (
                EngineView {
                    draws: pre.draws.remove(di),
                    items: pre.items.update(
                        ii,
                        ItemView { count: pre.items[ii].count + d.num, ..pre.items[ii] },
                    ),
                    ..pre
                },
                Result::Ok(d.num),
            )
        } else {
            (EngineView { draws: pre.draws.remove(di), ..pre }, Result::Ok(0))
        }
    }
}

/// What the manual override does: the draw becomes executed with the one
/// given winner, whatever its prior status; inventory is untouched.
pub open spec fn spec_set_winner(pre: EngineView, id: int, winner: Seq<char>) -> (
    EngineView,
    Result<(), DrawError>,
) {
    if !has_draw(pre.draws, id) {
        (pre, Result::Err(DrawError::NotFound))
    } else {
        let di = index_of_draw(pre.draws, id);
        let d = pre.draws[di];
        (
            EngineView {
                draws: pre.draws.update(
                    di,
                    DrawView {
                        status: DrawStatus::Executed,
                        winners: seq![winner],
                        ..d
                    },
                ),
                ..pre
            },
            Result::Ok(()),
        )
    }
}

/// What execution does. Four cases: an absent draw is reported; a draw
/// already executed or unfillable is left untouched and its prior outcome
/// is returned; a pending draw with nobody eligible becomes unfillable; a
/// pending draw with an eligible population becomes executed, carrying
/// exactly min(quantity, population size) pairwise-distinct winners drawn
/// from that population. Inventory is never touched by execution.
pub open spec fn execute_rel(
    pre: EngineView,
    post: EngineView,
    id: int,
    rows: Seq<LpSummaryView>,
    o: OutcomeView,
) -> bool {
    if !has_draw(pre.draws, id) {
        post == pre && o is NotFound
    } else {
        let di = index_of_draw(pre.draws, id);
        let d = pre.draws[di];
        match d.status {
            DrawStatus::Executed => post == pre && o == OutcomeView::Winners(d.winners),
            DrawStatus::Unfillable => post == pre && o is NoEligibleParticipants,
            DrawStatus::Pending => {
                let pool = eligible_of(rows, d.min_lp_require);
                if pool.len() == 0 {
                    &&& post == (EngineView {
                        draws: pre.draws.update(
                            di,
                            DrawView { status: DrawStatus::Unfillable, ..d },
                        ),
                        ..pre
                    })
                    &&& o is NoEligibleParticipants
                } else {
                    &&& o matches OutcomeView::Winners(ws)
                    &&& (o matches OutcomeView::Winners(ws) ==> {
                        &&& ws.len() == if d.num <= pool.len() {
                            d.num
                        } else {
                            pool.len() as int
                        }
                        &&& ws.no_duplicates()
                        &&& ws.to_multiset().subset_of(pool.to_multiset())
                        &&& post == (EngineView {
                            draws: pre.draws.update(
                                di,
                                DrawView { status: DrawStatus::Executed, winners: ws, ..d },
                            ),
                            ..pre
                        })
                    })
                }
            },
        }
    }
}

/// The draw store, the inventory ledger, and the lifecycle manager over
/// both.
pub struct DrawEngine {
    draws: Vec<Draw>,
    items: Vec<InventoryItem>,
    next_draw_id: u64,
    next_item_id: u64,
}

impl View for DrawEngine {
    type V = EngineView;

    closed spec fn view(&self) -> EngineView {
        EngineView {
            draws: draw_views(self.draws@),
            items: item_views(self.items@),
            next_draw_id: self.next_draw_id as int,
            next_item_id: self.next_item_id as int,
        }
    }
}

impl DrawEngine {
    pub open spec fn wf(self) -> bool {
        self@.wf()
    }

    /// An empty store: no draws, no items, ids starting at 1.
    pub fn new() -> (e: DrawEngine)
        ensures
            e.wf(),
            e@.draws.len() == 0,
            e@.items.len() == 0,
            e@.next_draw_id == 1,
            e@.next_item_id == 1,
    {
        let e = DrawEngine {
            draws: Vec::new(),
            items: Vec::new(),
            next_draw_id: 1,
            next_item_id: 1,
        };
        proof {
            assert(e@.draws =~= Seq::<DrawView>::empty());
            assert(e@.items =~= Seq::<ItemView>::empty());
        }
        e
    }

    /// List an inventory row, as the shop does when an item goes on sale.
    /// Returns the id the store assigned.
    pub fn add_item(
        &mut self,
        count: i64,
        price: String,
        name: String,
        seller: String,
        location: String,
    ) -> (id: u64)
        requires
            old(self).wf(),
            0 <= count,
            old(self)@.next_item_id < u64::MAX,
        ensures
            final(self).wf(),
            id == old(self)@.next_item_id,
            final(self)@ == (EngineView {
                items: old(self)@.items.push(
                    ItemView {
                        id: old(self)@.next_item_id,
                        count: count as int,
                        price: price@,
                        name: name@,
                        seller: seller@,
                        location: location@,
                    },
                ),
                next_item_id: old(self)@.next_item_id + 1,
                ..old(self)@
            }),
    {
        let id = self.next_item_id;
        let item = InventoryItem { id, count, price, name, seller, location };
        let ghost iv = item@;
        self.items.push(item);
        self.next_item_id = id + 1;
        proof {
            let pre = old(self)@;
            assert(self@.items =~= pre.items.push(iv));
            assert(self@ =~= (EngineView {
                items: pre.items.push(iv),
                next_item_id: pre.next_item_id + 1,
                ..pre
            }));
            assert forall|i: int| 0 <= i < self@.draws.len() implies reserves(
                #[trigger] self@.draws[i],
                iv.id,
            ) == 0 by {
                if self@.draws[i].status is Pending && self@.draws[i].item_id is Some {
                    assert(has_item(pre.items, self@.draws[i].item_id->0));
                    let j = index_of_item(pre.items, self@.draws[i].item_id->0);
                    assert(pre.items[j].id < pre.next_item_id);
                }
            }
            lemma_reserved_zero(self@.draws, iv.id);
            assert forall|i: int| 0 <= i < self@.items.len() implies (
            #[trigger] self@.items[i]).count + reserved_in(self@.draws, self@.items[i].id)
                <= i64::MAX by {
                if i < pre.items.len() {
                    assert(self@.items[i] == pre.items[i]);
                }
            }
            assert forall|x: int| has_item(pre.items, x) implies has_item(self@.items, x) by {
                let j = choose|j: int|
                    0 <= j < pre.items.len() && (#[trigger] pre.items[j]).id == x;
                assert(self@.items[j].id == x);
            }
            assert forall|i: int, j: int| 0 <= i < j < self@.items.len() implies (
            #[trigger] self@.items[i]).id != (#[trigger] self@.items[j]).id by {
                if j == self@.items.len() - 1 {
                    assert(self@.items[i] == pre.items[i]);
                    assert(pre.items[i].id < pre.next_item_id);
                } else {
                    assert(self@.items[i] == pre.items[i] && self@.items[j] == pre.items[j]);
                }
            }
            assert(self.wf());
        }
        id
    }

    /// The id the next created draw will get.
    pub fn next_draw_id(&self) -> (r: u64)
        ensures
            r == self@.next_draw_id,
    {
        self.next_draw_id
    }

    /// The id the next listed item will get.
    pub fn next_item_id(&self) -> (r: u64)
        ensures
            r == self@.next_item_id,
    {
        self.next_item_id
    }

    /// Index of the item with the given id, if it is present.
    fn find_item(&self, id: u64) -> (r: Option<usize>)
        ensures
            match r {
                Option::Some(i) => i < self@.items.len() && self@.items[i as int].id == id,
                Option::None => !has_item(self@.items, id as int),
            },
    {
        let n = self.items.len();
        let mut i: usize = 0;
        while i < n
            invariant
                n == self@.items.len(),
                0 <= i <= n,
                forall|j: int| 0 <= j < i ==> (#[trigger] self@.items[j]).id != id,
            decreases n - i,
        {
            if self.items[i].id == id {
                return Option::Some(i);
            }
            i += 1;
        }
        Option::None
    }

    /// Index of the draw with the given id, if it is present.
    fn find_draw(&self, id: u64) -> (r: Option<usize>)
        ensures
            match r {
                Option::Some(i) => i < self@.draws.len() && self@.draws[i as int].id == id,
                Option::None => !has_draw(self@.draws, id as int),
            },
    {
        let n = self.draws.len();
        let mut i: usize = 0;
        while i < n
            invariant
                n == self@.draws.len(),
                0 <= i <= n,
                forall|j: int| 0 <= j < i ==> (#[trigger] self@.draws[j]).id != id,
            decreases n - i,
        {
            if self.draws[i].id == id {
                return Option::Some(i);
            }
            i += 1;
        }
        Option::None
    }

    /// Create a draw, reserving stock when an item is linked: the whole of
    /// `spec_create` applies, or on an error nothing changes.
    pub fn create_draw(
        &mut self,
        create_qq: &str,
        item_id: Option<u64>,
        fitting: Option<String>,
        num: i64,
        min_lp_require: i64,
        plan_time: u64,
        description: Option<String>,
        now: u64,
    ) -> (r: Result<u64, DrawError>)
        requires
            old(self).wf(),
            1 <= num,
            0 <= min_lp_require,
            old(self)@.next_draw_id < u64::MAX,
        ensures
            final(self).wf(),
            ({
                let (post, res) = spec_create(
                    old(self)@,
                    create_qq@,
                    opt_id_view(item_id),
                    opt_view(fitting),
                    num as int,
                    min_lp_require as int,
                    plan_time as int,
                    opt_view(description),
                    now as int,
                );
                &&& final(self)@ == post
                &&& match r {
                    Result::Ok(id) => res == Result::<int, DrawError>::Ok(id as int),
                    Result::Err(e) => res == Result::<int, DrawError>::Err(e),
                }
            }),
            r is Err ==> final(self)@ == old(self)@,
            r is Ok ==> r->Ok_0 == old(self)@.next_draw_id,
    {
        let ghost pre = old(self)@;
        let ghost dv = pending_draw_view(
            pre.next_draw_id,
            create_qq@,
            opt_id_view(item_id),
            opt_view(fitting),
            num as int,
            min_lp_require as int,
            plan_time as int,
            opt_view(description),
            now as int,
        );
        match item_id {
            Option::None => {
                let id = self.push_pending_draw(
                    create_qq,
                    item_id,
                    fitting,
                    num,
                    min_lp_require,
                    plan_time,
                    description,
                    now,
                );
                proof {
                    lemma_create_unlinked_wf(pre, self@, dv);
                }
                Result::Ok(id)
            },
            Option::Some(it) => {
                match self.find_item(it) {
                    Option::None => Result::Err(DrawError::NotFound),
                    Option::Some(ii) => {
                        proof {
                            assert(has_item(pre.items, it as int));
                            let si = index_of_item(pre.items, it as int);
                            assert(0 <= si < pre.items.len() && pre.items[si].id == it as int);
                            if si != ii as int {
                                assert(false);
                            }
                        }
                        if self.items[ii].count < num {
                            Result::Err(DrawError::Conflict)
                        } else if !crate::identity::text_eq(self.items[ii].seller.as_str(), create_qq) {
                            Result::Err(DrawError::Forbidden)
                        } else {
                            let reduced = self.items[ii].with_count(self.items[ii].count - num);
                            self.items[ii] = reduced;
                            proof {
                                assert(self@.items =~= pre.items.update(
                                    ii as int,
                                    ItemView {
                                        count: pre.items[ii as int].count - num,
                                        ..pre.items[ii as int]
                                    },
                                ));
                            }
                            let id = self.push_pending_draw(
                                create_qq,
                                item_id,
                                fitting,
                                num,
                                min_lp_require,
                                plan_time,
                                description,
                                now,
                            );
                            proof {
                                assert(self@ =~= (EngineView {
                                    draws: pre.draws.push(dv),
                                    items: pre.items.update(
                                        ii as int,
                                        ItemView {
                                            count: pre.items[ii as int].count - num,
                                            ..pre.items[ii as int]
                                        },
                                    ),
                                    next_draw_id: pre.next_draw_id + 1,
                                    ..pre
                                }));
                                lemma_create_linked_wf(pre, self@, dv, ii as int);
                            }
                            Result::Ok(id)
                        }
                    },
                }
            },
        }
    }

    /// Insert the pending record and advance the id counter; shared tail of
    /// both creation paths. Touches no inventory.
    fn push_pending_draw(
        &mut self,
        create_qq: &str,
        item_id: Option<u64>,
        fitting: Option<String>,
        num: i64,
        min_lp_require: i64,
        plan_time: u64,
        description: Option<String>,
        now: u64,
    ) -> (id: u64)
        requires
            old(self)@.next_draw_id < u64::MAX,
        ensures
            id == old(self)@.next_draw_id,
            final(self)@ == (EngineView {
                draws: old(self)@.draws.push(
                    pending_draw_view(
                        old(self)@.next_draw_id,
                        create_qq@,
                        opt_id_view(item_id),
                        opt_view(fitting),
                        num as int,
                        min_lp_require as int,
                        plan_time as int,
                        opt_view(description),
                        now as int,
                    ),
                ),
                next_draw_id: old(self)@.next_draw_id + 1,
                ..old(self)@
            }),
    {
        let id = self.next_draw_id;
        let d = Draw {
            id,
            create_time: now,
            create_qq: create_qq.to_owned(),
            item_id,
            fitting,
            num,
            min_lp_require,
            plan_time,
            status: DrawStatus::Pending,
            winners: Vec::new(),
            description,
        };
        proof {
            assert(d@ =~= pending_draw_view(
                old(self)@.next_draw_id,
                create_qq@,
                opt_id_view(item_id),
                opt_view(fitting),
                num as int,
                min_lp_require as int,
                plan_time as int,
                opt_view(description),
                now as int,
            ));
        }
        let ghost dv = d@;
        self.draws.push(d);
        self.next_draw_id = id + 1;
        proof {
            assert(self@.draws =~= old(self)@.draws.push(dv));
            assert(self@ =~= (EngineView {
                draws: old(self)@.draws.push(dv),
                next_draw_id: old(self)@.next_draw_id + 1,
                ..old(self)@
            }));
        }
        id
    }
}

/// Creating an unlinked draw preserves well-formedness.
proof fn lemma_create_unlinked_wf(pre: EngineView, post: EngineView, d: DrawView)
    requires
        pre.wf(),
        d.id == pre.next_draw_id,
        d.status is Pending,
        d.item_id is None,
        1 <= d.num,
        0 <= d.min_lp_require,
        d.winners.len() == 0,
        post == (EngineView {
            draws: pre.draws.push(d),
            next_draw_id: pre.next_draw_id + 1,
            ..pre
        }),
    ensures
        post.wf(),
{
    lemma_push_draw_wf(pre, post.draws, d);
    assert forall|i: int| 0 <= i < post.items.len() implies (#[trigger] post.items[i]).count
        + reserved_in(post.draws, post.items[i].id) <= i64::MAX by {
        lemma_reserved_push(pre.draws, d, post.items[i].id);
        assert(reserves(d, post.items[i].id) == 0);
    }
}

/// The generic draw-side obligations of appending a fresh pending record.
proof fn lemma_push_draw_wf(pre: EngineView, draws: Seq<DrawView>, d: DrawView)
    requires
        pre.wf(),
        draws == pre.draws.push(d),
        d.id == pre.next_draw_id,
        d.status is Pending,
        1 <= d.num,
        0 <= d.min_lp_require,
        d.winners.len() == 0,
        d.item_id is Some ==> has_item(pre.items, d.item_id->0),
    ensures
        forall|i: int, j: int|
            0 <= i < j < draws.len() ==> (#[trigger] draws[i]).id != (#[trigger] draws[j]).id,
        forall|i: int| 0 <= i < draws.len() ==> 0 <= (#[trigger] draws[i]).id < pre.next_draw_id + 1,
        forall|i: int| 0 <= i < draws.len() ==> 1 <= (#[trigger] draws[i]).num,
        forall|i: int| 0 <= i < draws.len() ==> 0 <= (#[trigger] draws[i]).min_lp_require,
        forall|i: int|
            0 <= i < draws.len() ==> ((#[trigger] draws[i]).status is Executed <==> draws[i].winners.len() >= 1),
        forall|i: int| 0 <= i < draws.len() ==> (#[trigger] draws[i]).winners.no_duplicates(),
        forall|i: int|
            0 <= i < draws.len() ==> ((#[trigger] draws[i]).status is Pending
                && draws[i].item_id is Some ==> has_item(pre.items, draws[i].item_id->0)),
{
    assert forall|i: int, j: int| 0 <= i < j < draws.len() implies (#[trigger] draws[i]).id != (
    #[trigger] draws[j]).id by {
        if j == draws.len() - 1 {
            assert(draws[i] == pre.draws[i]);
            assert(pre.draws[i].id < pre.next_draw_id);
        } else {
            assert(draws[i] == pre.draws[i] && draws[j] == pre.draws[j]);
        }
    }
    assert forall|i: int|
        0 <= i < draws.len() implies ((#[trigger] draws[i]).status is Pending
        && draws[i].item_id is Some ==> has_item(pre.items, draws[i].item_id->0)) by {
        if i < pre.draws.len() {
            assert(draws[i] == pre.draws[i]);
        } else {
            assert(draws[i] == d);
        }
    }
    assert forall|i: int| 0 <= i < draws.len() implies 1 <= (#[trigger] draws[i]).num by {
        if i < pre.draws.len() {
            assert(draws[i] == pre.draws[i]);
        } else {
            assert(draws[i] == d);
        }
    }
    assert forall|i: int| 0 <= i < draws.len() implies 0 <= (
    #[trigger] draws[i]).min_lp_require by {
        if i < pre.draws.len() {
            assert(draws[i] == pre.draws[i]);
        } else {
            assert(draws[i] == d);
        }
    }
    assert forall|i: int| 0 <= i < draws.len() implies ((#[trigger] draws[i]).status is Executed
        <==> draws[i].winners.len() >= 1) by {
        if i < pre.draws.len() {
            assert(draws[i] == pre.draws[i]);
        } else {
            assert(draws[i] == d);
        }
    }
    assert forall|i: int| 0 <= i < draws.len() implies (
    #[trigger] draws[i]).winners.no_duplicates() by {
        if i < pre.draws.len() {
            assert(draws[i] == pre.draws[i]);
        } else {
            assert(draws[i] == d);
        }
    }
    assert forall|i: int| 0 <= i < draws.len() implies 0 <= (#[trigger] draws[i]).id
        < pre.next_draw_id + 1 by {
        if i < pre.draws.len() {
            assert(draws[i] == pre.draws[i]);
        } else {
            assert(draws[i] == d);
        }
    }
}

/// Creating a linked draw against a covering, owned item preserves
/// well-formedness: the stock decrement balances the new reservation.
proof fn lemma_create_linked_wf(pre: EngineView, post: EngineView, d: DrawView, ii: int)
    requires
        pre.wf(),
        d.id == pre.next_draw_id,
        d.status is Pending,
        0 <= ii < pre.items.len(),
        d.item_id == Option::Some(pre.items[ii].id),
        1 <= d.num <= pre.items[ii].count,
        0 <= d.min_lp_require,
        d.winners.len() == 0,
        post == (EngineView {
            draws: pre.draws.push(d),
            items: pre.items.update(
                ii,
                ItemView { count: pre.items[ii].count - d.num, ..pre.items[ii] },
            ),
            next_draw_id: pre.next_draw_id + 1,
            ..pre
        }),
    ensures
        post.wf(),
{
    let it = pre.items[ii].id;
    assert(has_item(pre.items, it));
    lemma_push_draw_wf(pre, post.draws, d);
    assert forall|x: int| has_item(pre.items, x) implies has_item(post.items, x) by {
        let j = choose|j: int| 0 <= j < pre.items.len() && (#[trigger] pre.items[j]).id == x;
        assert(post.items[j].id == x);
    }
    assert forall|i: int| 0 <= i < post.items.len() implies (#[trigger] post.items[i]).count
        + reserved_in(post.draws, post.items[i].id) <= i64::MAX by {
        lemma_reserved_push(pre.draws, d, post.items[i].id);
        if i == ii {
            assert(reserves(d, it) == d.num);
            assert(post.items[i].count + reserved_in(pre.draws, it) + d.num <= i64::MAX);
        } else {
            assert(post.items[i] == pre.items[i]);
            assert(pre.items[i].id != it);
            assert(reserves(d, post.items[i].id) == 0);
        }
    }
}

impl DrawEngine {
    /// Delete a draw: the record leaves the store, and a still-pending
    /// draw's reservation flows back to its linked item. Returns the
    /// restored quantity for auditability (zero when nothing was restored).
    pub fn delete_draw(&mut self, draw_id: u64) -> (r: Result<i64, DrawError>)
        requires
            old(self).wf(),
        ensures
            final(self).wf(),
            ({
                let (post, res) = spec_delete(old(self)@, draw_id as int);
                &&& final(self)@ == post
                &&& match r {
                    Result::Ok(q) => res == Result::<int, DrawError>::Ok(q as int),
                    Result::Err(e) => res == Result::<int, DrawError>::Err(e),
                }
            }),
            r is Err ==> final(self)@ == old(self)@,
    {
        let ghost pre = old(self)@;
        match self.find_draw(draw_id) {
            Option::None => Result::Err(DrawError::NotFound),
            Option::Some(di) => {
                proof {
                    assert(has_draw(pre.draws, draw_id as int));
                    let si = index_of_draw(pre.draws, draw_id as int);
                    assert(0 <= si < pre.draws.len() && pre.draws[si].id == draw_id as int);
                    if si != di as int {
                        assert(false);
                    }
                }
                let ghost d = pre.draws[di as int];
                let pending = self.draws[di].status.is_pending();
                let mut restored: i64 = 0;
                if pending {
                    if let Option::Some(it) = self.draws[di].item_id {
                        match self.find_item(it) {
                            Option::Some(ii) => {
                                proof {
                                    assert(has_item(pre.items, it as int));
                                    let sj = index_of_item(pre.items, it as int);
                                    assert(pre.items[sj].id == it as int);
                                    if sj != ii as int {
                                        assert(false);
                                    }
                                    lemma_reserves_le_reserved(pre.draws, di as int, it as int);
                                    lemma_reserved_nonneg(pre.draws, it as int);
                                    assert(pre.items[ii as int].count + pre.draws[di as int].num
                                        <= i64::MAX);
                                }
                                let num = self.draws[di].num;
                                let grown = self.items[ii].with_count(self.items[ii].count + num);
                                self.items[ii] = grown;
                                restored = num;
                                proof {
                                    assert(self@.items =~= pre.items.update(
                                        ii as int,
                                        ItemView {
                                            count: pre.items[ii as int].count + d.num,
                                            ..pre.items[ii as int]
                                        },
                                    ));
                                }
                            },
                            Option::None => {
                                proof {
                                    assert(has_item(pre.items, d.item_id->0));
                                    assert(false);
                                }
                            },
                        }
                    }
                }
                self.draws.remove(di);
                proof {
                    assert(self@.draws =~= pre.draws.remove(di as int));
                    lemma_delete_wf(pre, self@, di as int);
                    assert(self@ =~= spec_delete(pre, draw_id as int).0);
                }
                Result::Ok(restored)
            },
        }
    }

    /// Manual override: the draw becomes executed with the single given
    /// winner, whatever its prior status. Inventory is untouched.
    pub fn set_winner(&mut self, draw_id: u64, winner_qq: &str) -> (r: Result<(), DrawError>)
        requires
            old(self).wf(),
        ensures
            final(self).wf(),
            ({
                let (post, res) = spec_set_winner(old(self)@, draw_id as int, winner_qq@);
                &&& final(self)@ == post
                &&& match r {
                    Result::Ok(u) => res == Result::<(), DrawError>::Ok(u),
                    Result::Err(e) => res == Result::<(), DrawError>::Err(e),
                }
            }),
            r is Err ==> final(self)@ == old(self)@,
    {
        let ghost pre = old(self)@;
        match self.find_draw(draw_id) {
            Option::None => Result::Err(DrawError::NotFound),
            Option::Some(di) => {
                proof {
                    assert(has_draw(pre.draws, draw_id as int));
                    let si = index_of_draw(pre.draws, draw_id as int);
                    assert(0 <= si < pre.draws.len() && pre.draws[si].id == draw_id as int);
                    if si != di as int {
                        assert(false);
                    }
                }
                let ghost d = pre.draws[di as int];
                let mut updated = self.draws[di].duplicate();
                updated.status = DrawStatus::Executed;
                let mut ws: Vec<String> = Vec::new();
                ws.push(winner_qq.to_owned());
                updated.winners = ws;
                proof {
                    assert(updated@ =~= (DrawView {
                        status: DrawStatus::Executed,
                        winners: seq![winner_qq@],
                        ..d
                    }));
                }
                self.draws[di] = updated;
                proof {
                    assert(self@.draws =~= pre.draws.update(
                        di as int,
                        DrawView {
                            status: DrawStatus::Executed,
                            winners: seq![winner_qq@],
                            ..d
                        },
                    ));
                    lemma_settle_wf(
                        pre,
                        self@,
                        di as int,
                        DrawStatus::Executed,
                        seq![winner_qq@],
                    );
                    assert(self@ =~= spec_set_winner(pre, draw_id as int, winner_qq@).0);
                }
                Result::Ok(())
            },
        }
    }
}

impl DrawEngine {
    /// Execute a draw against the current eligibility rows. Idempotent at
    /// the status level: a draw already executed or unfillable is left
    /// untouched and its prior outcome is returned. A pending draw either
    /// becomes unfillable (nobody eligible) or executed, with exactly
    /// min(quantity, eligible population) pairwise-distinct winners, every
    /// one of them eligible. Inventory is never touched.
    pub fn execute_draw(&mut self, draw_id: u64, rows: &Vec<UserLpSummary>) -> (o: ExecuteOutcome)
        requires
            old(self).wf(),
            distinct_accounts(lp_views(rows@)),
        ensures
            final(self).wf(),
            execute_rel(old(self)@, final(self)@, draw_id as int, lp_views(rows@), o@),
            final(self)@.items == old(self)@.items,
            final(self)@.draws.len() == old(self)@.draws.len(),
            o@ is NotFound <==> !has_draw(old(self)@.draws, draw_id as int),
    {
        let ghost pre = old(self)@;
        match self.find_draw(draw_id) {
            Option::None => ExecuteOutcome::NotFound,
            Option::Some(di) => {
                proof {
                    assert(has_draw(pre.draws, draw_id as int));
                    let si = index_of_draw(pre.draws, draw_id as int);
                    assert(0 <= si < pre.draws.len() && pre.draws[si].id == draw_id as int);
                    if si != di as int {
                        assert(false);
                    }
                }
                let ghost d = pre.draws[di as int];
                match self.draws[di].status {
                    DrawStatus::Executed => {
                        let ws = clone_ids(&self.draws[di].winners);
                        proof {
                            assert(id_views(ws@) == d.winners);
                        }
                        ExecuteOutcome::Winners(ws)
                    },
                    DrawStatus::Unfillable => ExecuteOutcome::NoEligibleParticipants,
                    DrawStatus::Pending => {
                        let min_lp = self.draws[di].min_lp_require;
                        let pool = eligible_ids(rows, min_lp);
                        let ghost poolv = eligible_of(lp_views(rows@), min_lp as int);
                        if pool.len() == 0 {
                            let mut updated = self.draws[di].duplicate();
                            updated.status = DrawStatus::Unfillable;
                            proof {
                                assert(updated@ =~= (DrawView {
                                    status: DrawStatus::Unfillable,
                                    ..d
                                }));
                            }
                            self.draws[di] = updated;
                            proof {
                                assert(self@.draws =~= pre.draws.update(
                                    di as int,
                                    DrawView { status: DrawStatus::Unfillable, ..d },
                                ));
                                lemma_settle_wf(
                                    pre,
                                    self@,
                                    di as int,
                                    DrawStatus::Unfillable,
                                    d.winners,
                                );
                                assert(self@ =~= (EngineView {
                                    draws: pre.draws.update(
                                        di as int,
                                        DrawView { status: DrawStatus::Unfillable, ..d },
                                    ),
                                    ..pre
                                }));
                            }
                            ExecuteOutcome::NoEligibleParticipants
                        } else {
                            let num = self.draws[di].num;
                            let k: usize = if (num as u64) <= (pool.len() as u64) {
                                num as usize
                            } else {
                                pool.len()
                            };
                            proof {
                                lemma_eligible_distinct(lp_views(rows@), min_lp as int);
                                assert(id_views(pool@).no_duplicates());
                            }
                            let seed = now_nanos() ^ draw_id;
                            let ws = select_winners(pool, k, seed);
                            let ghost wviews = id_views(ws@);
                            let stored = clone_ids(&ws);
                            let mut updated = self.draws[di].duplicate();
                            updated.status = DrawStatus::Executed;
                            updated.winners = stored;
                            proof {
                                assert(updated@ =~= (DrawView {
                                    status: DrawStatus::Executed,
                                    winners: wviews,
                                    ..d
                                }));
                            }
                            self.draws[di] = updated;
                            proof {
                                assert(self@.draws =~= pre.draws.update(
                                    di as int,
                                    DrawView {
                                        status: DrawStatus::Executed,
                                        winners: wviews,
                                        ..d
                                    },
                                ));
                                lemma_settle_wf(
                                    pre,
                                    self@,
                                    di as int,
                                    DrawStatus::Executed,
                                    wviews,
                                );
                                assert(self@ =~= (EngineView {
                                    draws: pre.draws.update(
                                        di as int,
                                        DrawView {
                                            status: DrawStatus::Executed,
                                            winners: wviews,
                                            ..d
                                        },
                                    ),
                                    ..pre
                                }));
                                assert(wviews.len() == if d.num <= poolv.len() {
                                    d.num
                                } else {
                                    poolv.len() as int
                                });
                            }
                            ExecuteOutcome::Winners(ws)
                        }
                    },
                }
            },
        }
    }
}

/// The draws won by the given account, in store order.
pub open spec fn wins_of(draws: Seq<DrawView>, qq: Seq<char>) -> Seq<DrawView>
    decreases draws.len(),
{
    if draws.len() == 0 {
        Seq::empty()
    } else {
        let rest = wins_of(draws.drop_last(), qq);
        if draws.last().winners.contains(qq) {
            rest.push(draws.last())
        } else {
            rest
        }
    }
}

/// All fields fixed at creation agree; only status and winners may differ.
pub open spec fn same_core(a: DrawView, b: DrawView) -> bool {
    b == (DrawView { status: b.status, winners: b.winners, ..a })
}

impl DrawEngine {
    /// Every stored draw record — none omitted, none duplicated — listed
    /// newest first by creation time.
    pub fn get_all_draws(&self) -> (r: Vec<Draw>)
        ensures
            draw_views(r@).to_multiset() == self@.draws.to_multiset(),
            crate::scheduler::sorted_by_create_time_desc(draw_views(r@)),
    {
        let mut tmp: Vec<Draw> = Vec::new();
        let n = self.draws.len();
        let mut i: usize = 0;
        while i < n
            invariant
                n == self@.draws.len(),
                0 <= i <= n,
                draw_views(tmp@) =~= self@.draws.take(i as int),
            decreases n - i,
        {
            tmp.push(self.draws[i].duplicate());
            proof {
                assert(self@.draws.take(i + 1) =~= self@.draws.take(i as int).push(
                    self@.draws[i as int],
                ));
                assert(draw_views(tmp@) =~= self@.draws.take(i + 1));
            }
            i += 1;
        }
        proof {
            assert(self@.draws.take(n as int) =~= self@.draws);
        }
        crate::scheduler::sort_by_create_time_desc(tmp)
    }

    /// The stored item with the given id, if any.
    pub fn get_item(&self, item_id: u64) -> (r: Option<InventoryItem>)
        ensures
            match r {
                Option::Some(item) => has_item(self@.items, item_id as int) && exists|i: int|
                    0 <= i < self@.items.len() && #[trigger] self@.items[i] == item@
                        && item@.id == item_id,
                Option::None => !has_item(self@.items, item_id as int),
            },
    {
        match self.find_item(item_id) {
            Option::Some(ii) => {
                let item = self.items[ii].duplicate();
                proof {
                    assert(self@.items[ii as int] == item@);
                }
                Option::Some(item)
            },
            Option::None => Option::None,
        }
    }

    /// The draws whose winner list carries the given account — all of
    /// them, listed newest first by creation time.
    pub fn get_user_wins(&self, user_qq: &str) -> (r: Vec<Draw>)
        ensures
            draw_views(r@).to_multiset() == wins_of(self@.draws, user_qq@).to_multiset(),
            crate::scheduler::sorted_by_create_time_desc(draw_views(r@)),
    {
        let mut tmp: Vec<Draw> = Vec::new();
        let n = self.draws.len();
        let mut i: usize = 0;
        while i < n
            invariant
                n == self@.draws.len(),
                0 <= i <= n,
                draw_views(tmp@) =~= wins_of(self@.draws.take(i as int), user_qq@),
            decreases n - i,
        {
            proof {
                assert(self@.draws.take(i + 1).drop_last() =~= self@.draws.take(i as int));
                assert(self@.draws.take(i + 1).last() == self@.draws[i as int]);
            }
            if crate::identity::ids_contain(&self.draws[i].winners, user_qq) {
                tmp.push(self.draws[i].duplicate());
            }
            proof {
                assert(draw_views(tmp@) =~= wins_of(self@.draws.take(i + 1), user_qq@));
            }
            i += 1;
        }
        proof {
            assert(self@.draws.take(n as int) =~= self@.draws);
        }
        crate::scheduler::sort_by_create_time_desc(tmp)
    }

    /// The pending draws, ordered by scheduled time, earliest first.
    pub fn get_pending_draws(&self) -> (r: Vec<Draw>)
        ensures
            draw_views(r@).to_multiset() == crate::scheduler::pending_of(self@.draws).to_multiset(),
            crate::scheduler::sorted_by_plan_time(draw_views(r@)),
    {
        let mut tmp: Vec<Draw> = Vec::new();
        let n = self.draws.len();
        let mut i: usize = 0;
        while i < n
            invariant
                n == self@.draws.len(),
                0 <= i <= n,
                draw_views(tmp@) =~= crate::scheduler::pending_of(self@.draws.take(i as int)),
            decreases n - i,
        {
            proof {
                assert(self@.draws.take(i + 1).drop_last() =~= self@.draws.take(i as int));
                assert(self@.draws.take(i + 1).last() == self@.draws[i as int]);
            }
            if self.draws[i].status.is_pending() {
                tmp.push(self.draws[i].duplicate());
            }
            proof {
                assert(draw_views(tmp@) =~= crate::scheduler::pending_of(self@.draws.take(i + 1)));
            }
            i += 1;
        }
        proof {
            assert(self@.draws.take(n as int) =~= self@.draws);
        }
        crate::scheduler::sort_by_plan_time(tmp)
    }
}

/// The id appears in the list.
pub open spec fn id_listed(ids: Seq<u64>, id: int) -> bool {
    exists|p: int| 0 <= p < ids.len() && (#[trigger] ids[p]) as int == id
}

/// The id appears among the first `t` entries of the list.
pub open spec fn id_listed_before(ids: Seq<u64>, t: int, id: int) -> bool {
    exists|p: int| 0 <= p < t <= ids.len() && (#[trigger] ids[p]) as int == id
}

/// Some stored draw carries this id and is due.
pub open spec fn due_id_in(draws: Seq<DrawView>, id: u64, now: int) -> bool {
    exists|i: int|
        0 <= i < draws.len() && (#[trigger] draws[i]).id == id as int && is_due(draws[i], now)
}

/// Every id in the list names a due draw of the store.
pub open spec fn ids_all_due(ids: Seq<u64>, draws: Seq<DrawView>, now: int) -> bool {
    forall|p: int| 0 <= p < ids.len() ==> due_id_in(draws, #[trigger] ids[p], now)
}

/// Some stored draw carries this id, is due, and is scheduled at `plan`.
pub open spec fn due_id_at(draws: Seq<DrawView>, id: u64, plan: int, now: int) -> bool {
    exists|i: int|
        0 <= i < draws.len() && (#[trigger] draws[i]).id == id as int && draws[i].plan_time
            == plan && is_due(draws[i], now)
}

impl DrawEngine {
    /// One scheduler tick: execute every due draw (pending, with its
    /// scheduled time passed), earliest due first, each draw independently
    /// through the same entry point the manual path uses. Returns one
    /// (draw id, outcome) pair per executed draw, so no outcome is
    /// silently dropped. Afterwards every draw that was due is terminal;
    /// draws that were already terminal, and pending draws not yet due,
    /// are exactly as they were; inventory and the id counters never
    /// change.
    #[verifier::rlimit(100)]
    pub fn run_tick(&mut self, now: u64, rows: &Vec<UserLpSummary>) -> (log: Vec<
        (u64, ExecuteOutcome),
    >)
        requires
            old(self).wf(),
            distinct_accounts(lp_views(rows@)),
        ensures
            final(self).wf(),
            final(self)@.items == old(self)@.items,
            final(self)@.next_draw_id == old(self)@.next_draw_id,
            final(self)@.next_item_id == old(self)@.next_item_id,
            final(self)@.draws.len() == old(self)@.draws.len(),
            forall|i: int|
                0 <= i < old(self)@.draws.len() ==> same_core(
                    old(self)@.draws[i],
                    #[trigger] final(self)@.draws[i],
                ),
            forall|i: int|
                0 <= i < old(self)@.draws.len() && (
                #[trigger] old(self)@.draws[i]).status.is_terminal() ==> final(self)@.draws[i]
                    == old(self)@.draws[i],
            forall|i: int|
                0 <= i < old(self)@.draws.len() && is_due(
                    #[trigger] old(self)@.draws[i],
                    now as int,
                ) ==> final(self)@.draws[i].status.is_terminal(),
            forall|i: int|
                0 <= i < old(self)@.draws.len() && (#[trigger] old(self)@.draws[i]).status
                    is Pending && old(self)@.draws[i].plan_time > now ==> final(self)@.draws[i]
                    == old(self)@.draws[i],
            forall|p: int|
                0 <= p < log@.len() ==> due_id_in(
                    old(self)@.draws,
                    (#[trigger] log@[p]).0,
                    now as int,
                ),
            forall|i: int|
                0 <= i < old(self)@.draws.len() && is_due(
                    #[trigger] old(self)@.draws[i],
                    now as int,
                ) ==> exists|p: int|
                    0 <= p < log@.len() && (#[trigger] log@[p]).0 as int == old(self)@.draws[i].id,
            forall|p: int, q: int, i: int, j: int|
                0 <= p < q < log@.len() && 0 <= i < old(self)@.draws.len() && 0 <= j < old(
                    self,
                )@.draws.len() && (#[trigger] old(self)@.draws[i]).id == (#[trigger] log@[p]).0
                    as int && (#[trigger] old(self)@.draws[j]).id == (#[trigger] log@[q]).0
                    as int ==> old(self)@.draws[i].plan_time <= old(self)@.draws[j].plan_time,
    {
        broadcast use vstd::seq_lib::group_to_multiset_ensures;

        let ghost orig = self@;
        let pending = self.get_pending_draws();
        let ghost pviews = draw_views(pending@);
        proof {
            crate::scheduler::lemma_pending_membership(orig.draws);
        }
        let mut ids: Vec<u64> = Vec::new();
        let ghost mut plans: Seq<int> = Seq::empty();
        let np = pending.len();
        let mut q: usize = 0;
        while q < np
            invariant
                np == pending@.len(),
                0 <= q <= np,
                pviews == draw_views(pending@),
                pviews.to_multiset() == crate::scheduler::pending_of(orig.draws).to_multiset(),
                forall|d: DrawView|
                    crate::scheduler::pending_of(orig.draws).contains(d) <==> exists|i: int|
                        0 <= i < orig.draws.len() && #[trigger] orig.draws[i] == d
                            && d.status is Pending,
                ids_all_due(ids@, orig.draws, now as int),
                crate::scheduler::sorted_by_plan_time(pviews),
                plans.len() == ids@.len(),
                forall|p: int|
                    0 <= p < plans.len() ==> due_id_at(
                        orig.draws,
                        ids@[p],
                        #[trigger] plans[p],
                        now as int,
                    ),
                forall|p: int|
                    0 <= p < plans.len() ==> exists|j: int|
                        0 <= j < q && #[trigger] plans[p] == (#[trigger] pviews[j]).plan_time,
                forall|p1: int, p2: int|
                    0 <= p1 <= p2 < plans.len() ==> #[trigger] plans[p1] <= #[trigger] plans[p2],
                forall|j: int|
                    0 <= j < q && (#[trigger] pviews[j]).plan_time <= now ==> id_listed(
                        ids@,
                        pviews[j].id,
                    ),
            decreases np - q,
        {
            if pending[q].plan_time <= now {
                let ghost before = ids@;
                let ghost plans_before = plans;
                ids.push(pending[q].id);
                proof {
                    plans = plans.push(pviews[q as int].plan_time);
                    let d = pviews[q as int];
                    pviews.to_multiset_ensures();
                    crate::scheduler::pending_of(orig.draws).to_multiset_ensures();
                    assert(pviews.contains(d));
                    assert(pviews.to_multiset().count(d) > 0);
                    assert(crate::scheduler::pending_of(orig.draws).to_multiset().count(d) > 0);
                    assert(crate::scheduler::pending_of(orig.draws).contains(d));
                    let i = choose|i: int|
                        0 <= i < orig.draws.len() && #[trigger] orig.draws[i] == d
                            && d.status is Pending;
                    assert(orig.draws[i].id == ids@[ids@.len() - 1] as int);
                    assert(is_due(orig.draws[i], now as int));
                    assert(due_id_in(orig.draws, ids@[ids@.len() - 1], now as int));
                    assert(orig.draws[i].plan_time == plans[plans.len() - 1]);
                    assert(due_id_at(
                        orig.draws,
                        ids@[ids@.len() - 1],
                        plans[plans.len() - 1],
                        now as int,
                    ));
                    assert forall|p: int| 0 <= p < plans.len() implies due_id_at(
                        orig.draws,
                        ids@[p],
                        #[trigger] plans[p],
                        now as int,
                    ) by {
                        if p < plans.len() - 1 {
                            assert(plans[p] == plans_before[p] && ids@[p] == before[p]);
                            assert(due_id_at(orig.draws, before[p], plans_before[p], now as int));
                        }
                    }
                    assert forall|p: int| 0 <= p < plans.len() implies exists|j: int|
                        0 <= j < q + 1 && #[trigger] plans[p] == (
                        #[trigger] pviews[j]).plan_time by {
                        if p < plans.len() - 1 {
                            let j = choose|j: int|
                                0 <= j < q && #[trigger] plans_before[p] == (
                                #[trigger] pviews[j]).plan_time;
                            assert(plans[p] == pviews[j].plan_time);
                        } else {
                            assert(plans[p] == pviews[q as int].plan_time);
                        }
                    }
                    assert forall|p1: int, p2: int|
                        0 <= p1 <= p2 < plans.len() implies #[trigger] plans[p1] <= (
                        #[trigger] plans[p2]) by {
                        if p2 < plans.len() - 1 {
                            assert(plans[p1] == plans_before[p1] && plans[p2] == plans_before[p2]);
                        } else if p1 < plans.len() - 1 {
                            assert(plans[p1] == plans_before[p1]);
                            let j = choose|j: int|
                                0 <= j < q && #[trigger] plans_before[p1] == (
                                #[trigger] pviews[j]).plan_time;
                            assert(pviews[j].plan_time <= pviews[q as int].plan_time);
                            assert(plans[p2] == pviews[q as int].plan_time);
                        }
                    }
                    assert forall|p: int| 0 <= p < ids@.len() implies due_id_in(
                        orig.draws,
                        #[trigger] ids@[p],
                        now as int,
                    ) by {
                        if p < ids@.len() - 1 {
                            assert(ids@[p] == before[p]);
                            assert(due_id_in(orig.draws, before[p], now as int));
                        }
                    }
                    assert forall|j: int|
                        0 <= j < q + 1 && (#[trigger] pviews[j]).plan_time <= now implies id_listed(
                        ids@,
                        pviews[j].id,
                    ) by {
                        if j < q {
                            assert(id_listed(before, pviews[j].id));
                            let p = choose|p: int|
                                0 <= p < before.len() && (#[trigger] before[p]) as int
                                    == pviews[j].id;
                            assert(ids@[p] as int == pviews[j].id);
                        } else {
                            assert(ids@[ids@.len() - 1] as int == pviews[j].id);
                        }
                    }
                }
            }
            q += 1;
        }
        proof {
            assert forall|i: int|
                0 <= i < orig.draws.len() && is_due(
                    #[trigger] orig.draws[i],
                    now as int,
                ) implies id_listed(ids@, orig.draws[i].id) by {
                let d = orig.draws[i];
                pviews.to_multiset_ensures();
                crate::scheduler::pending_of(orig.draws).to_multiset_ensures();
                assert(crate::scheduler::pending_of(orig.draws).contains(d));
                assert(crate::scheduler::pending_of(orig.draws).to_multiset().count(d) > 0);
                assert(pviews.to_multiset().count(d) > 0);
                assert(pviews.contains(d));
                let j = choose|j: int| 0 <= j < pviews.len() && pviews[j] == d;
                assert(pviews[j].plan_time <= now);
                assert(id_listed(ids@, pviews[j].id));
            }
        }
        let ghost due_ids = ids@;
        let ghost due_plans = plans;
        let mut log: Vec<(u64, ExecuteOutcome)> = Vec::new();
        let nt = ids.len();
        let mut t: usize = 0;
        while t < nt
            invariant
                nt == ids@.len(),
                0 <= t <= nt,
                ids@ == due_ids,
                orig.wf(),
                self.wf(),
                distinct_accounts(lp_views(rows@)),
                log@.len() == t,
                forall|p: int| 0 <= p < t ==> (#[trigger] log@[p]).0 == ids@[p],
                ids_all_due(ids@, orig.draws, now as int),
                self@.items == orig.items,
                self@.next_draw_id == orig.next_draw_id,
                self@.next_item_id == orig.next_item_id,
                self@.draws.len() == orig.draws.len(),
                forall|i: int|
                    0 <= i < orig.draws.len() ==> same_core(
                        orig.draws[i],
                        #[trigger] self@.draws[i],
                    ),
                forall|i: int|
                    0 <= i < orig.draws.len() && (
                    #[trigger] orig.draws[i]).status.is_terminal() ==> self@.draws[i]
                        == orig.draws[i],
                forall|i: int|
                    0 <= i < orig.draws.len() && !id_listed(
                        ids@,
                        (#[trigger] orig.draws[i]).id,
                    ) ==> self@.draws[i] == orig.draws[i],
                forall|i: int|
                    0 <= i < orig.draws.len() && id_listed_before(
                        ids@,
                        t as int,
                        (#[trigger] orig.draws[i]).id,
                    ) ==> self@.draws[i].status.is_terminal(),
            decreases nt - t,
        {
            let id = ids[t];
            let ghost prev = self@;
            let o = self.execute_draw(id, rows);
            log.push((id, o));
            proof {
                lemma_execute_step_frame(prev, self@, id as int, lp_views(rows@), o@);
                assert forall|i: int| 0 <= i < orig.draws.len() implies same_core(
                    orig.draws[i],
                    #[trigger] self@.draws[i],
                ) by {
                    assert(same_core(orig.draws[i], prev.draws[i]));
                    assert(same_core(prev.draws[i], self@.draws[i]));
                }
                assert forall|i: int|
                    0 <= i < orig.draws.len() && !id_listed(
                        ids@,
                        (#[trigger] orig.draws[i]).id,
                    ) implies self@.draws[i] == orig.draws[i] by {
                    assert(prev.draws[i] == orig.draws[i]);
                    if prev.draws[i].id == id as int {
                        assert(ids@[t as int] as int == orig.draws[i].id);
                        assert(id_listed(ids@, orig.draws[i].id));
                    }
                }
                assert forall|i: int|
                    0 <= i < orig.draws.len() && id_listed_before(
                        ids@,
                        t + 1,
                        (#[trigger] orig.draws[i]).id,
                    ) implies self@.draws[i].status.is_terminal() by {
                    let p = choose|p: int|
                        0 <= p < t + 1 <= ids@.len() && (#[trigger] ids@[p]) as int
                            == orig.draws[i].id;
                    if p < t {
                        assert(id_listed_before(ids@, t as int, orig.draws[i].id));
                        assert(prev.draws[i].status.is_terminal());
                        assert(self@.draws[i] == prev.draws[i]);
                    } else {
                        assert(prev.draws[i].id == orig.draws[i].id);
                        assert(prev.draws[i].id == id as int);
                        assert(self@.draws[i].status.is_terminal());
                    }
                }
            }
            t += 1;
        }
        proof {
            assert forall|i: int|
                0 <= i < orig.draws.len() && is_due(
                    #[trigger] orig.draws[i],
                    now as int,
                ) implies self@.draws[i].status.is_terminal() by {
                assert(id_listed(due_ids, orig.draws[i].id));
                let p = choose|p: int|
                    0 <= p < due_ids.len() && (#[trigger] due_ids[p]) as int == orig.draws[i].id;
                assert(id_listed_before(due_ids, due_ids.len() as int, orig.draws[i].id));
            }
            assert forall|i: int|
                0 <= i < orig.draws.len() && (#[trigger] orig.draws[i]).status is Pending
                && orig.draws[i].plan_time > now implies self@.draws[i] == orig.draws[i] by {
                if id_listed(due_ids, orig.draws[i].id) {
                    let p = choose|p: int|
                        0 <= p < due_ids.len() && (#[trigger] due_ids[p]) as int
                            == orig.draws[i].id;
                    assert(due_id_in(orig.draws, due_ids[p], now as int));
                    let j = choose|j: int|
                        0 <= j < orig.draws.len() && (#[trigger] orig.draws[j]).id == due_ids[p] as int
                            && is_due(orig.draws[j], now as int);
                    if i != j {
                        assert(orig.draws[i].id != orig.draws[j].id);
                        assert(false);
                    }
                    assert(false);
                }
            }
            assert forall|i: int|
                0 <= i < orig.draws.len() && is_due(
                    #[trigger] orig.draws[i],
                    now as int,
                ) implies exists|p: int|
                0 <= p < log@.len() && (#[trigger] log@[p]).0 as int == orig.draws[i].id by {
                assert(id_listed(due_ids, orig.draws[i].id));
                let p = choose|p: int|
                    0 <= p < due_ids.len() && (#[trigger] due_ids[p]) as int == orig.draws[i].id;
                assert(log@[p].0 as int == orig.draws[i].id);
            }
            assert forall|p: int| 0 <= p < log@.len() implies due_id_in(
                orig.draws,
                (#[trigger] log@[p]).0,
                now as int,
            ) by {
                assert(log@[p].0 == due_ids[p]);
                assert(due_id_in(orig.draws, due_ids[p], now as int));
            }
            assert forall|p: int, q2: int, i: int, j: int|
                0 <= p < q2 < log@.len() && 0 <= i < orig.draws.len() && 0 <= j < orig.draws.len()
                    && (#[trigger] orig.draws[i]).id == (#[trigger] log@[p]).0 as int && (
                #[trigger] orig.draws[j]).id == (#[trigger] log@[q2]).0
                    as int implies orig.draws[i].plan_time <= orig.draws[j].plan_time by {
                assert(log@[p].0 == due_ids[p]);
                assert(log@[q2].0 == due_ids[q2]);
                assert(due_id_at(orig.draws, due_ids[p], due_plans[p], now as int));
                assert(due_id_at(orig.draws, due_ids[q2], due_plans[q2], now as int));
                let i2 = choose|i2: int|
                    0 <= i2 < orig.draws.len() && (#[trigger] orig.draws[i2]).id == due_ids[p]
                        as int && orig.draws[i2].plan_time == due_plans[p] && is_due(
                        orig.draws[i2],
                        now as int,
                    );
                if i2 != i {
                    assert(orig.draws[i2].id != orig.draws[i].id || i2 == i);
                    assert(false);
                }
                let j2 = choose|j2: int|
                    0 <= j2 < orig.draws.len() && (#[trigger] orig.draws[j2]).id == due_ids[q2]
                        as int && orig.draws[j2].plan_time == due_plans[q2] && is_due(
                        orig.draws[j2],
                        now as int,
                    );
                if j2 != j {
                    assert(orig.draws[j2].id != orig.draws[j].id || j2 == j);
                    assert(false);
                }
                assert(due_plans[p] <= due_plans[q2]);
            }
        }
        log
    }
}

/// What one execution step can and cannot touch: inventory and counters
/// never change; every record keeps its creation-time fields; terminal
/// records do not change at all; records with another id do not change;
/// and the addressed record is terminal afterwards.
pub proof fn lemma_execute_step_frame(
    pre: EngineView,
    post: EngineView,
    id: int,
    rows: Seq<LpSummaryView>,
    o: OutcomeView,
)
    requires
        pre.wf(),
        execute_rel(pre, post, id, rows, o),
    ensures
        post.items == pre.items,
        post.next_draw_id == pre.next_draw_id,
        post.next_item_id == pre.next_item_id,
        post.draws.len() == pre.draws.len(),
        forall|i: int|
            0 <= i < pre.draws.len() ==> same_core(pre.draws[i], #[trigger] post.draws[i]),
        forall|i: int|
            0 <= i < pre.draws.len() && (#[trigger] pre.draws[i]).status.is_terminal()
                ==> post.draws[i] == pre.draws[i],
        forall|i: int|
            0 <= i < pre.draws.len() && (#[trigger] pre.draws[i]).id != id ==> post.draws[i]
                == pre.draws[i],
        forall|i: int|
            0 <= i < pre.draws.len() && (#[trigger] pre.draws[i]).id == id
                ==> post.draws[i].status.is_terminal(),
{
    if !has_draw(pre.draws, id) {
        assert(post == pre);
        assert forall|i: int| 0 <= i < pre.draws.len() && (#[trigger] pre.draws[i]).id
            == id implies post.draws[i].status.is_terminal() by {
            assert(has_draw(pre.draws, id));
        }
        assert forall|i: int| 0 <= i < pre.draws.len() implies same_core(
            pre.draws[i],
            #[trigger] post.draws[i],
        ) by {
            assert(post.draws[i] == pre.draws[i]);
        }
    } else {
        let di = index_of_draw(pre.draws, id);
        assert(0 <= di < pre.draws.len() && pre.draws[di].id == id);
        let d = pre.draws[di];
        assert forall|i: int| 0 <= i < pre.draws.len() && i != di implies (
        #[trigger] pre.draws[i]).id != id by {}
        match d.status {
            DrawStatus::Executed => {
                assert(post == pre);
            },
            DrawStatus::Unfillable => {
                assert(post == pre);
            },
            DrawStatus::Pending => {
                let pool = eligible_of(rows, d.min_lp_require);
                if pool.len() == 0 {
                    assert(post.draws == pre.draws.update(
                        di,
                        DrawView { status: DrawStatus::Unfillable, ..d },
                    ));
                } else {
                    assert(o matches OutcomeView::Winners(ws) && post.draws == pre.draws.update(
                        di,
                        DrawView { status: DrawStatus::Executed, winners: ws, ..d },
                    ));
                }
            },
        }
        assert forall|i: int| 0 <= i < pre.draws.len() implies same_core(
            pre.draws[i],
            #[trigger] post.draws[i],
        ) by {
            if i != di {
                assert(post.draws[i] == pre.draws[i]);
            }
        }
    }
}

/// Removing a draw preserves well-formedness, with the stock restore when
/// the draw was still pending against an item.
proof fn lemma_delete_wf(pre: EngineView, post: EngineView, di: int)
    requires
        pre.wf(),
        0 <= di < pre.draws.len(),
        post.draws == pre.draws.remove(di),
        post.next_draw_id == pre.next_draw_id,
        post.next_item_id == pre.next_item_id,
        ({
            let d = pre.draws[di];
            if d.status is Pending && d.item_id is Some && has_item(pre.items, d.item_id->0) {
                post.items == pre.items.update(
                    index_of_item(pre.items, d.item_id->0),
                    ItemView {
                        count: pre.items[index_of_item(pre.items, d.item_id->0)].count + d.num,
                        ..pre.items[index_of_item(pre.items, d.item_id->0)]
                    },
                )
            } else {
                post.items == pre.items
            }
        }),
    ensures
        post.wf(),
{
    let d = pre.draws[di];
    let restoring = d.status is Pending && d.item_id is Some && has_item(pre.items, d.item_id->0);
    assert forall|i: int, j: int| 0 <= i < j < post.draws.len() implies (
    #[trigger] post.draws[i]).id != (#[trigger] post.draws[j]).id by {
        let pi = if i < di {
            i
        } else {
            i + 1
        };
        let pj = if j < di {
            j
        } else {
            j + 1
        };
        assert(post.draws[i] == pre.draws[pi] && post.draws[j] == pre.draws[pj]);
    }
    assert forall|i: int| 0 <= i < post.draws.len() implies exists|pi: int|
        0 <= pi < pre.draws.len() && (#[trigger] post.draws[i]) == pre.draws[pi] by {
        let pi = if i < di {
            i
        } else {
            i + 1
        };
        assert(post.draws[i] == pre.draws[pi]);
    }
    assert forall|x: int| has_item(pre.items, x) implies has_item(post.items, x) by {
        let j = choose|j: int| 0 <= j < pre.items.len() && (#[trigger] pre.items[j]).id == x;
        assert(post.items[j].id == x);
    }
    assert forall|i: int| 0 <= i < post.items.len() implies (#[trigger] post.items[i]).count
        + reserved_in(post.draws, post.items[i].id) <= i64::MAX && 0 <= post.items[i].count by {
        lemma_reserved_remove(pre.draws, di, post.items[i].id);
        lemma_reserved_nonneg(pre.draws, post.items[i].id);
        lemma_reserves_le_reserved(pre.draws, di, post.items[i].id);
        if restoring {
            let ii = index_of_item(pre.items, d.item_id->0);
            assert(0 <= ii < pre.items.len() && pre.items[ii].id == d.item_id->0);
            if i == ii {
                assert(reserves(d, post.items[i].id) == d.num);
            } else {
                assert(post.items[i] == pre.items[i]);
                assert(pre.items[i].id != pre.items[ii].id);
                assert(reserves(d, post.items[i].id) == 0);
            }
        } else {
            assert(post.items[i] == pre.items[i]);
            if d.status is Pending && d.item_id is Some {
                assert(has_item(pre.items, d.item_id->0));
                assert(reserves(d, post.items[i].id) >= 0);
            } else {
                assert(reserves(d, post.items[i].id) == 0);
            }
        }
    }
}

/// Replacing one draw's status and winners (leaving its identity and
/// creation-time fields alone) preserves well-formedness, provided the new
/// status carries winners exactly when it is `Executed`, the winners are
/// pairwise distinct, and no reservation grows.
proof fn lemma_settle_wf(
    pre: EngineView,
    post: EngineView,
    di: int,
    status: DrawStatus,
    winners: Seq<Seq<char>>,
)
    requires
        pre.wf(),
        0 <= di < pre.draws.len(),
        post.draws == pre.draws.update(
            di,
            DrawView { status, winners, ..pre.draws[di] },
        ),
        post.items == pre.items,
        post.next_draw_id == pre.next_draw_id,
        post.next_item_id == pre.next_item_id,
        status is Executed <==> winners.len() >= 1,
        winners.no_duplicates(),
        !(status is Pending),
    ensures
        post.wf(),
{
    let d = pre.draws[di];
    let nd = DrawView { status, winners, ..d };
    assert forall|i: int, j: int| 0 <= i < j < post.draws.len() implies (
    #[trigger] post.draws[i]).id != (#[trigger] post.draws[j]).id by {
        assert(post.draws[i].id == pre.draws[i].id && post.draws[j].id == pre.draws[j].id);
    }
    assert forall|i: int|
        0 <= i < post.draws.len() implies ((#[trigger] post.draws[i]).status is Pending
        && post.draws[i].item_id is Some ==> has_item(post.items, post.draws[i].item_id->0)) by {
        if post.draws[i].status is Pending && post.draws[i].item_id is Some {
            if i != di {
                assert(post.draws[i] == pre.draws[i]);
            } else {
                assert(pre.draws[di].status is Pending);
            }
        }
    }
    assert forall|i: int| 0 <= i < post.items.len() implies (#[trigger] post.items[i]).count
        + reserved_in(post.draws, post.items[i].id) <= i64::MAX by {
        lemma_reserved_update(pre.draws, di, nd, post.items[i].id);
        assert(0 <= reserves(d, post.items[i].id));
        assert(reserves(nd, post.items[i].id) <= reserves(d, post.items[i].id));
    }
}

} // verus!
