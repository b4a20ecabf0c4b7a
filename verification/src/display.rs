//! Presentation helpers of the browser client's log view: paging and the
//! badge classes under which methods and statuses are rendered.

use vstd::prelude::*;
use crate::identity::text_eq;

verus! {

/// Log rows shown per page.
pub const PAGE_SIZE: i32 = 20;

/// How many pages a log of `total` rows fills.
pub open spec fn spec_total_pages(total: int) -> int {
    if total <= 0 {
        0
    } else {
        (total - 1) / (PAGE_SIZE as int) + 1
    }
}

/// How many pages a log of `total` rows fills: none when it is empty,
/// else one page per started block of `PAGE_SIZE` rows.
pub fn calc_total_pages(total: i64) -> (r: i32)
    requires
        total <= i32::MAX as i64 * PAGE_SIZE as i64,
    ensures
        r == spec_total_pages(total as int),
{
    if total <= 0 {
        0
    } else {
        (((total - 1) / (PAGE_SIZE as i64)) + 1) as i32
    }
}

/// The badge class for an HTTP method.
pub open spec fn spec_method_badge(m: Seq<char>) -> Seq<char> {
    if m == "GET"@ {
        "badge badge-success"@
    } else if m == "POST"@ {
        "badge badge-info"@
    } else if m == "PUT"@ || m == "PATCH"@ {
        "badge badge-warning"@
    } else if m == "DELETE"@ {
        "badge badge-danger"@
    } else {
        "badge"@
    }
}

pub fn method_badge_class(method: &str) -> (r: &'static str)
    ensures
        r@ == spec_method_badge(method@),
{
    if text_eq(method, "GET") {
        "badge badge-success"
    } else if text_eq(method, "POST") {
        "badge badge-info"
    } else if text_eq(method, "PUT") || text_eq(method, "PATCH") {
        "badge badge-warning"
    } else if text_eq(method, "DELETE") {
        "badge badge-danger"
    } else {
        "badge"
    }
}

/// The badge class for an HTTP status code.
pub open spec fn spec_status_badge(status: int) -> Seq<char> {
    if 200 <= status <= 299 {
        "badge badge-success"@
    } else if 400 <= status <= 499 {
        "badge badge-warning"@
    } else if 500 <= status <= 599 {
        "badge badge-danger"@
    } else {
        "badge"@
    }
}

pub fn status_badge_class(status: i32) -> (r: &'static str)
    ensures
        r@ == spec_status_badge(status as int),
{
    if 200 <= status && status <= 299 {
        "badge badge-success"
    } else if 400 <= status && status <= 499 {
        "badge badge-warning"
    } else if 500 <= status && status <= 599 {
        "badge badge-danger"
    } else {
        "badge"
    }
}

} // verus!
