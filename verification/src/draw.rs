//! The draw record: one lottery instance with a schedule, a prize quantity
//! and an eligibility floor, together with its status machine, error
//! taxonomy and execution outcome.

use vstd::prelude::*;
use crate::identity::{id_views, opt_view, clone_ids, clone_opt_text};

verus! {

/// Status of a draw: a closed state machine with `Pending` as the initial
/// state and `Executed` / `Unfillable` as terminal states.
#[derive(Clone, Copy, PartialEq, Eq, Structural, Debug)]
pub enum DrawStatus {
    Pending,
    Executed,
    Unfillable,
}

impl DrawStatus {
    /// The small-integer code under which a status is persisted.
    pub fn status_code(&self) -> (c: i32)
        ensures
            c == self.spec_code(),
    {
        match self {
            DrawStatus::Pending => 0,
            DrawStatus::Executed => 1,
            DrawStatus::Unfillable => 2,
        }
    }

    pub open spec fn spec_code(self) -> int {
        match self {
            DrawStatus::Pending => 0,
            DrawStatus::Executed => 1,
            DrawStatus::Unfillable => 2,
        }
    }

    /// A terminal status admits no further transition.
    pub open spec fn is_terminal(self) -> bool {
        self is Executed || self is Unfillable
    }

    /// Whether the draw still awaits execution.
    pub fn is_pending(&self) -> (b: bool)
        ensures
            b == (*self is Pending),
    {
        match self {
            DrawStatus::Pending => true,
            DrawStatus::Executed => false,
            DrawStatus::Unfillable => false,
        }
    }
}

/// Why an operation on the store was refused.
#[derive(Clone, Copy, PartialEq, Eq, Structural, Debug)]
pub enum DrawError {
    /// The draw, or the inventory item it refers to, does not exist.
    NotFound,
    /// The item's stock cannot cover the requested quantity.
    Conflict,
    /// The actor does not own the referenced item.
    Forbidden,
}

/// What executing a draw produced.
pub enum ExecuteOutcome {
    /// The draw is executed; these are its winners.
    Winners(Vec<String>),
    /// Nobody met the eligibility floor; the draw is unfillable.
    NoEligibleParticipants,
    /// No draw with the given id exists.
    NotFound,
}

/// Mathematical model of an execution outcome.
#[verifier::ext_equal]
pub enum OutcomeView {
    Winners(Seq<Seq<char>>),
    NoEligibleParticipants,
    NotFound,
}

impl View for ExecuteOutcome {
    type V = OutcomeView;

    open spec fn view(&self) -> OutcomeView {
        match self {
            ExecuteOutcome::Winners(ws) => OutcomeView::Winners(id_views(ws@)),
            ExecuteOutcome::NoEligibleParticipants => OutcomeView::NoEligibleParticipants,
            ExecuteOutcome::NotFound => OutcomeView::NotFound,
        }
    }
}

/// One lottery instance.
pub struct Draw {
    /// Identity, assigned by the store on creation.
    pub id: u64,
    /// When the draw was created (seconds).
    pub create_time: u64,
    /// Account of the operator who created the draw.
    pub create_qq: String,
    /// Inventory item reserved against this draw, if any.
    pub item_id: Option<u64>,
    /// Optional free-text prize description.
    pub fitting: Option<String>,
    /// Requested prize quantity; always positive.
    pub num: i64,
    /// Eligibility floor: minimum cumulative point balance; never negative.
    pub min_lp_require: i64,
    /// When the scheduler should execute the draw (seconds).
    pub plan_time: u64,
    /// Position in the status machine.
    pub status: DrawStatus,
    /// Winner accounts; empty unless the draw is executed.
    pub winners: Vec<String>,
    /// Optional free-text description.
    pub description: Option<String>,
}

/// Mathematical model of a draw record.
#[verifier::ext_equal]
pub struct DrawView {
    pub id: int,
    pub create_time: int,
    pub create_qq: Seq<char>,
    pub item_id: Option<int>,
    pub fitting: Option<Seq<char>>,
    pub num: int,
    pub min_lp_require: int,
    pub plan_time: int,
    pub status: DrawStatus,
    pub winners: Seq<Seq<char>>,
    pub description: Option<Seq<char>>,
}

pub open spec fn opt_id_view(o: Option<u64>) -> Option<int> {
    match o {
        Option::Some(x) => Option::Some(x as int),
        Option::None => Option::None,
    }
}

impl View for Draw {
    type V = DrawView;

    open spec fn view(&self) -> DrawView {
        DrawView {
            id: self.id as int,
            create_time: self.create_time as int,
            create_qq: self.create_qq@,
            item_id: opt_id_view(self.item_id),
            fitting: opt_view(self.fitting),
            num: self.num as int,
            min_lp_require: self.min_lp_require as int,
            plan_time: self.plan_time as int,
            status: self.status,
            winners: id_views(self.winners@),
            description: opt_view(self.description),
        }
    }
}

impl Draw {
    /// Copy of the record, equal in content.
    pub fn duplicate(&self) -> (r: Draw)
        ensures
            r@ == self@,
    {
        let r = Draw {
            id: self.id,
            create_time: self.create_time,
            create_qq: self.create_qq.clone(),
            item_id: self.item_id,
            fitting: clone_opt_text(&self.fitting),
            num: self.num,
            min_lp_require: self.min_lp_require,
            plan_time: self.plan_time,
            status: self.status,
            winners: clone_ids(&self.winners),
            description: clone_opt_text(&self.description),
        };
        proof {
            assert(r@ =~= self@);
        }
        r
    }
}

/// The draw is due for automatic execution: still pending, and its
/// scheduled time has passed.
pub open spec fn is_due(d: DrawView, now: int) -> bool {
    d.status is Pending && d.plan_time <= now
}

} // verus!
