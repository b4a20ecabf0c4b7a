use draw_engine::auth::{AuthenticatedUser, Claims};
use draw_engine::display::{calc_total_pages, method_badge_class, status_badge_class};
use draw_engine::draw::DrawError;
use draw_engine::identity::{ids_contain, join_ids, text_eq};
use draw_engine::metrics::{format_duration, u64_string, Metrics};

#[test]
fn join_ids_uses_comma_space_delimiter() {
    let ids = vec!["ann".to_string(), "bob".to_string(), "cid".to_string()];
    assert_eq!(join_ids(&ids, ", "), "ann, bob, cid");
}

#[test]
fn join_ids_on_one_or_none() {
    assert_eq!(join_ids(&vec!["solo".to_string()], ", "), "solo");
    assert_eq!(join_ids(&Vec::new(), ", "), "");
}

#[test]
fn text_eq_compares_content() {
    assert!(text_eq("abc", "abc"));
    assert!(!text_eq("abc", "abd"));
    assert!(!text_eq("abc", "ab"));
    assert!(text_eq("", ""));
}

#[test]
fn ids_contain_finds_exact_entries() {
    let ids = vec!["ann".to_string(), "bob".to_string()];
    assert!(ids_contain(&ids, "ann"));
    assert!(ids_contain(&ids, "bob"));
    assert!(!ids_contain(&ids, "an"));
    assert!(!ids_contain(&ids, "carol"));
    assert!(!ids_contain(&Vec::new(), "ann"));
}

#[test]
fn total_pages_round_up_by_twenty() {
    assert_eq!(calc_total_pages(0), 0);
    assert_eq!(calc_total_pages(-5), 0);
    assert_eq!(calc_total_pages(1), 1);
    assert_eq!(calc_total_pages(20), 1);
    assert_eq!(calc_total_pages(21), 2);
    assert_eq!(calc_total_pages(400), 20);
}

#[test]
fn badge_classes_follow_method_and_status() {
    assert_eq!(method_badge_class("GET"), "badge badge-success");
    assert_eq!(method_badge_class("POST"), "badge badge-info");
    assert_eq!(method_badge_class("PUT"), "badge badge-warning");
    assert_eq!(method_badge_class("PATCH"), "badge badge-warning");
    assert_eq!(method_badge_class("DELETE"), "badge badge-danger");
    assert_eq!(method_badge_class("OPTIONS"), "badge");
    assert_eq!(status_badge_class(200), "badge badge-success");
    assert_eq!(status_badge_class(404), "badge badge-warning");
    assert_eq!(status_badge_class(500), "badge badge-danger");
    assert_eq!(status_badge_class(302), "badge");
}

fn caller(perms: &[&str]) -> AuthenticatedUser {
    AuthenticatedUser(Claims {
        sub: "1234".to_string(),
        nickname: "tester".to_string(),
        exp: 0,
        permissions: perms.iter().map(|p| p.to_string()).collect(),
    })
}

#[test]
fn authenticated_user_reports_identity_and_permissions() {
    let u = caller(&["draw", "audit"]);
    assert_eq!(u.qq(), "1234");
    assert!(u.has_permission("draw"));
    assert!(u.has_permission("audit"));
    assert!(!u.has_permission("admin"));
    assert!(u.require_permission("draw").is_ok());
    assert_eq!(u.require_permission("admin"), Err(DrawError::Forbidden));
}

#[test]
fn metrics_count_independently() {
    let mut m = Metrics::new();
    assert_eq!(m.request_count, 0);
    m.increment_requests();
    m.increment_requests();
    m.increment_errors();
    m.increment_db_queries();
    assert_eq!(m.request_count, 2);
    assert_eq!(m.error_count, 1);
    assert_eq!(m.db_query_count, 1);
}

#[test]
fn numbers_render_in_decimal() {
    assert_eq!(u64_string(0), "0");
    assert_eq!(u64_string(7), "7");
    assert_eq!(u64_string(10), "10");
    assert_eq!(u64_string(90061), "90061");
    assert_eq!(u64_string(u64::MAX), "18446744073709551615");
}

#[test]
fn durations_drop_leading_zero_units() {
    assert_eq!(format_duration(0), "0s");
    assert_eq!(format_duration(59), "59s");
    assert_eq!(format_duration(60), "1m 0s");
    assert_eq!(format_duration(3_700), "1h 1m 40s");
    assert_eq!(format_duration(90_061), "1d 1h 1m 1s");
}

#[test]
fn metrics_counters_wrap_at_the_top() {
    let mut m = Metrics::new();
    m.request_count = u64::MAX;
    m.increment_requests();
    assert_eq!(m.request_count, 0);
}
