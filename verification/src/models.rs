//! The persisted record types of the wider system.
//!
//! Most of these are plain data carried between storage and the web layer;
//! only `UserLpSummary` takes part in the verified core, as the row shape of
//! the read-only eligibility source.

use vstd::prelude::*;

verus! {

pub struct User {
    pub qq: String,
    pub main_role_id: Option<i64>,
    pub nickname: String,
    pub password: String,
    pub birthday: Option<String>,
}

pub struct UserWithRole {
    pub qq: String,
    pub main_role_id: Option<i64>,
    pub nickname: String,
    pub password: String,
    pub birthday: Option<String>,
    pub role_name: Option<String>,
}

pub struct Role {
    pub role_id: i64,
    pub name: String,
    pub description: Option<String>,
}

pub struct SessionUser {
    pub qq: String,
    pub nickname: String,
    pub birthday: Option<String>,
    pub main_role_id: Option<i64>,
    pub role_name: Option<String>,
    pub permissions: Vec<String>,
}

pub struct Permission {
    pub name: String,
}

pub struct PermissionLog {
    pub id: i64,
    pub permission_name: String,
    pub user_qq: String,
    pub operator_qq: String,
    pub action: String,
    pub timestamp: String,
}

pub struct LpType {
    pub id: Option<i64>,
    pub name: String,
}

pub struct LpLog {
    pub id: Option<i64>,
    pub upload_time: String,
    pub upload_user_qq: String,
    pub user_qq: String,
    pub process_user_qq: Option<String>,
    pub role: Option<String>,
    pub lp_type: i64,
    pub num: i32,
    pub reason: String,
    pub status: i32,
    pub picture: Option<String>,
    pub process_time: Option<String>,
}

pub struct LuckyDrawLog {
    pub id: Option<i64>,
    pub create_time: String,
    pub create_qq: String,
    pub item_id: Option<i64>,
    pub fitting: Option<String>,
    pub num: i32,
    pub min_lp_require: i32,
    pub plan_time: String,
    pub status: i32,
    pub winner_qq: Option<String>,
    pub description: Option<String>,
}

pub struct ShopItem {
    pub id: Option<i64>,
    pub count: i32,
    pub price: String,
    pub name: String,
    pub seller: String,
    pub location: String,
}

pub struct ShopLog {
    pub id: Option<i64>,
    pub buyer: String,
    pub count: i32,
    pub price: String,
    pub name: String,
    pub time: String,
    pub seller: String,
    pub location: String,
}

/// One row of the eligibility source: a participant identity together with
/// its cumulative approved point balance and per-status request counts.
pub struct UserLpSummary {
    pub qq: String,
    pub nickname: String,
    pub total_lp: i64,
    pub pending_count: i64,
    pub approved_count: i64,
    pub rejected_count: i64,
}

/// Mathematical model of an eligibility row.
#[verifier::ext_equal]
pub struct LpSummaryView {
    pub qq: Seq<char>,
    pub nickname: Seq<char>,
    pub total_lp: int,
    pub pending_count: int,
    pub approved_count: int,
    pub rejected_count: int,
}

impl View for UserLpSummary {
    type V = LpSummaryView;

    open spec fn view(&self) -> LpSummaryView {
        LpSummaryView {
            qq: self.qq@,
            nickname: self.nickname@,
            total_lp: self.total_lp as int,
            pending_count: self.pending_count as int,
            approved_count: self.approved_count as int,
            rejected_count: self.rejected_count as int,
        }
    }
}

pub struct RequestLog {
    pub id: i64,
    pub method: String,
    pub path: String,
    pub user_qq: Option<String>,
    pub body: Option<String>,
    pub status: i32,
    pub timestamp: String,
}

} // verus!
