//! The request and response shapes of the web service's own handlers.
//! Plain data; the handlers themselves live with the I/O layer.

use vstd::prelude::*;

verus! {

pub struct LogQuery {
    pub limit: Option<i32>,
    pub offset: Option<i32>,
    pub user_qq: Option<String>,
}

pub struct LogListResponse {
    pub logs: Vec<crate::models::RequestLog>,
    pub total: i64,
}

pub struct SubmitLpRequest {
    pub upload_user_qq: String,
    pub user_qq: String,
    pub lp_type: i64,
    pub num: i32,
    pub reason: String,
    pub picture: Option<String>,
    pub role: Option<String>,
}

pub struct ProcessLpRequest {
    pub id: i64,
    pub status: i32,
}

pub struct BatchProcessLpRequest {
    pub ids: Vec<i64>,
    pub status: i32,
}

pub struct CreateDrawRequest {
    pub create_qq: String,
    pub item_id: Option<i64>,
    pub fitting: Option<String>,
    pub num: i32,
    pub min_lp_require: i32,
    pub plan_time: String,
    pub description: Option<String>,
}

pub struct SetWinnerRequest {
    pub winner_qq: String,
}

pub struct CreateRoleRequest {
    pub name: String,
    pub description: Option<String>,
}

pub struct AssignRoleRequest {
    pub user_qq: String,
    pub role_id: i64,
}

pub struct RolePermissionRequest {
    pub role_id: i64,
    pub permission_name: String,
}

pub struct CreateItemRequest {
    pub count: i32,
    pub price: String,
    pub name: String,
    pub seller: String,
    pub location: String,
}

pub struct PurchaseRequest {
    pub buyer: String,
    pub item_id: i64,
    pub count: i32,
}

pub struct MyItemsQuery {
    pub seller: String,
}

pub struct UserTransactionsQuery {
    pub user_qq: String,
}

pub struct ProfileResponse {
    pub user: crate::auth::UserInfo,
}

pub struct UpdateUserRequest {
    pub nickname: Option<String>,
    pub birthday: Option<String>,
}

pub struct ChangePasswordRequest {
    pub old_password: String,
    pub new_password: String,
}

} // verus!
