//! The wire types of the browser client: request payloads sent to the web
//! API and the response shapes read back. Plain data throughout.

use vstd::prelude::*;

verus! {

pub struct ErrorResponse {
    pub message: String,
}

pub struct MessageResponse {
    pub message: String,
}

pub struct RegisterRequest {
    pub qq: String,
    pub nickname: String,
    pub password: String,
    pub birthday: Option<String>,
}

pub struct RegisterResponse {
    pub message: String,
}

pub struct LoginRequest {
    pub qq: String,
    pub password: String,
}

pub struct LoginResponse {
    pub token: String,
    pub user: UserInfo,
}

pub struct UserInfo {
    pub qq: String,
    pub nickname: String,
    pub birthday: Option<String>,
    pub role_name: Option<String>,
    pub permissions: Vec<String>,
    pub is_default_password: bool,
}

pub struct ProfileResponse {
    pub user: UserInfo,
}

pub struct UpdateProfileRequest {
    pub nickname: Option<String>,
    pub birthday: Option<String>,
}

pub struct ChangePasswordRequest {
    pub old_password: String,
    pub new_password: String,
}

pub struct UsersResponse {
    pub users: Vec<User>,
}

pub struct User {
    pub qq: String,
    pub nickname: String,
    pub password: String,
    pub birthday: Option<String>,
    pub main_role_id: Option<i64>,
    pub role_name: Option<String>,
}

pub struct PermissionListResponse {
    pub permissions: Vec<Permission>,
}

pub struct PermissionNamesResponse {
    pub permissions: Vec<String>,
}

pub struct Permission {
    pub name: String,
}

pub struct Role {
    pub role_id: i64,
    pub name: String,
    pub description: Option<String>,
}

pub struct RolesResponse {
    pub roles: Vec<Role>,
}

pub struct CreateRoleRequest {
    pub name: String,
    pub description: Option<String>,
}

pub struct AssignRoleRequest {
    pub user_qq: String,
    pub role_id: i64,
}

pub struct RolePermissionRequest {
    pub role_id: i64,
    pub permission_name: String,
}

pub struct RolePermissionsResponse {
    pub permissions: Vec<String>,
}

pub struct LpTypesResponse {
    pub types: Vec<LpType>,
}

pub struct LpType {
    pub id: Option<i64>,
    pub name: String,
}

pub struct SubmitLpRequest {
    pub upload_user_qq: String,
    pub user_qq: String,
    pub lp_type: i64,
    pub num: i32,
    pub reason: String,
    pub picture: Option<String>,
    pub role: Option<String>,
}

pub struct SubmitLpResponse {
    pub message: String,
    pub id: i64,
}

pub struct LpLogsResponse {
    pub logs: Vec<LpLog>,
}

pub struct LpUserDetailResponse {
    pub summary: Option<crate::models::UserLpSummary>,
    pub history: Vec<LpLog>,
}

pub struct LpSummariesResponse {
    pub summaries: Vec<crate::models::UserLpSummary>,
}

pub struct LpLog {
    pub id: Option<i64>,
    pub upload_time: String,
    pub upload_user_qq: String,
    pub user_qq: String,
    pub process_user_qq: Option<String>,
    pub role: Option<String>,
    pub lp_type: i64,
    pub num: i32,
    pub reason: String,
    pub status: i32,
    pub picture: Option<String>,
    pub process_time: Option<String>,
}

pub struct ProcessLpRequest {
    pub id: i64,
    pub status: i32,
}

pub struct BatchProcessLpResponse {
    pub message: String,
    pub approved_count: u64,
    pub requested_count: usize,
}

pub struct LuckyDrawsResponse {
    pub draws: Vec<LuckyDraw>,
}

pub struct LuckyDraw {
    pub id: Option<i64>,
    pub create_time: String,
    pub create_qq: String,
    pub item_id: Option<i64>,
    pub fitting: Option<String>,
    pub num: i32,
    pub min_lp_require: i32,
    pub plan_time: String,
    pub status: i32,
    pub winner_qq: Option<String>,
    pub description: Option<String>,
}

pub struct CreateDrawPayload {
    pub create_qq: String,
    pub item_id: Option<i64>,
    pub fitting: Option<String>,
    pub num: i32,
    pub min_lp_require: i32,
    pub plan_time: String,
    pub description: Option<String>,
}

pub struct CreateDrawResponse {
    pub message: String,
    pub id: i64,
}

pub struct ExecuteDrawResponse {
    pub message: String,
    pub winner: Option<String>,
}

pub struct ShopItemsResponse {
    pub items: Vec<ShopItem>,
}

pub struct ShopItem {
    pub id: Option<i64>,
    pub count: i32,
    pub price: String,
    pub name: String,
    pub seller: String,
    pub location: String,
}

pub struct CreateItemResponse {
    pub message: String,
    pub id: i64,
}

pub struct CreateItemPayload {
    pub count: i32,
    pub price: String,
    pub name: String,
    pub seller: String,
    pub location: String,
}

pub struct PurchasePayload {
    pub buyer: String,
    pub item_id: i64,
    pub count: i32,
}

pub struct ShopLog {
    pub id: Option<i64>,
    pub buyer: String,
    pub count: i32,
    pub price: String,
    pub name: String,
    pub time: String,
    pub seller: String,
    pub location: String,
}

pub struct UserTransactionsResponse {
    pub purchases: Vec<ShopLog>,
    pub sales: Vec<ShopLog>,
}

pub struct RequestLog {
    pub id: i64,
    pub method: String,
    pub path: String,
    pub user_qq: Option<String>,
    pub body: Option<String>,
    pub status: i32,
    pub timestamp: String,
}

pub struct LogListResponse {
    pub logs: Vec<RequestLog>,
    pub total: i64,
}

} // verus!
