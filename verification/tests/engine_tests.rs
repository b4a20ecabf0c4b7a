use draw_engine::draw::{DrawError, DrawStatus, ExecuteOutcome};
use draw_engine::engine::DrawEngine;
use draw_engine::models::UserLpSummary;

fn summary(qq: &str, total_lp: i64) -> UserLpSummary {
    UserLpSummary {
        qq: qq.to_string(),
        nickname: format!("user {}", qq),
        total_lp,
        pending_count: 0,
        approved_count: 0,
        rejected_count: 0,
    }
}

fn item_args() -> (String, String, String) {
    (
        "10".to_string(),
        "prize box".to_string(),
        "warehouse".to_string(),
    )
}

fn engine_with_item(stock: i64, seller: &str) -> (DrawEngine, u64) {
    let mut e = DrawEngine::new();
    let (price, name, location) = item_args();
    let id = e.add_item(stock, price, name, seller.to_string(), location);
    (e, id)
}

fn stock_of(e: &DrawEngine, item_id: u64) -> i64 {
    e.get_item(item_id).expect("item must exist").count
}

#[test]
fn create_without_item_inserts_pending_draw() {
    let mut e = DrawEngine::new();
    let id = e
        .create_draw("alice", None, None, 2, 0, 1_000, None, 500)
        .expect("create must succeed");
    assert_eq!(id, 1);
    let draws = e.get_all_draws();
    assert_eq!(draws.len(), 1);
    assert_eq!(draws[0].id, 1);
    assert_eq!(draws[0].create_qq, "alice");
    assert_eq!(draws[0].status, DrawStatus::Pending);
    assert_eq!(draws[0].status.status_code(), 0);
    assert_eq!(draws[0].num, 2);
    assert_eq!(draws[0].create_time, 500);
    assert!(draws[0].winners.is_empty());
}

#[test]
fn linked_create_reserves_stock_and_delete_restores_it() {
    let (mut e, item) = engine_with_item(10, "alice");
    assert_eq!(stock_of(&e, item), 10);

    let draw = e
        .create_draw("alice", Some(item), None, 4, 0, 1_000, None, 1)
        .expect("create must succeed");
    assert_eq!(stock_of(&e, item), 6);

    let restored = e.delete_draw(draw).expect("delete must succeed");
    assert_eq!(restored, 4);
    assert_eq!(stock_of(&e, item), 10);
    assert!(e.get_all_draws().is_empty());
}

#[test]
fn create_fails_not_found_for_absent_item() {
    let mut e = DrawEngine::new();
    let r = e.create_draw("alice", Some(99), None, 1, 0, 1_000, None, 1);
    assert_eq!(r, Err(DrawError::NotFound));
    assert!(e.get_all_draws().is_empty());
}

#[test]
fn create_fails_conflict_when_stock_short() {
    let (mut e, item) = engine_with_item(3, "alice");
    let r = e.create_draw("alice", Some(item), None, 4, 0, 1_000, None, 1);
    assert_eq!(r, Err(DrawError::Conflict));
    assert_eq!(stock_of(&e, item), 3);
}

#[test]
fn create_fails_forbidden_for_foreign_item() {
    let (mut e, item) = engine_with_item(10, "alice");
    let r = e.create_draw("mallory", Some(item), None, 2, 0, 1_000, None, 1);
    assert_eq!(r, Err(DrawError::Forbidden));
    assert_eq!(stock_of(&e, item), 10);
}

#[test]
fn over_reservation_rejected_on_second_create() {
    let (mut e, item) = engine_with_item(10, "alice");
    let first = e.create_draw("alice", Some(item), None, 6, 0, 1_000, None, 1);
    assert!(first.is_ok());
    assert_eq!(stock_of(&e, item), 4);
    let second = e.create_draw("alice", Some(item), None, 6, 0, 1_000, None, 2);
    assert_eq!(second, Err(DrawError::Conflict));
    assert_eq!(stock_of(&e, item), 4);
}

#[test]
fn execute_absent_draw_reports_not_found() {
    let mut e = DrawEngine::new();
    let rows = vec![summary("a", 500)];
    match e.execute_draw(42, &rows) {
        ExecuteOutcome::NotFound => {}
        _ => panic!("expected NotFound"),
    }
}

#[test]
fn scenario_linked_draw_with_nobody_eligible() {
    // Item with stock 10; draw for 3 units; nobody eligible. The draw
    // becomes unfillable, the reservation is already consumed and is not
    // restored, neither by execution nor by deleting the unfillable draw.
    let (mut e, item) = engine_with_item(10, "alice");
    let draw = e
        .create_draw("alice", Some(item), None, 3, 50, 1_000, None, 1)
        .expect("create must succeed");
    assert_eq!(stock_of(&e, item), 7);

    let rows = vec![summary("low1", 10), summary("low2", 49)];
    match e.execute_draw(draw, &rows) {
        ExecuteOutcome::NoEligibleParticipants => {}
        _ => panic!("expected NoEligibleParticipants"),
    }
    let draws = e.get_all_draws();
    assert_eq!(draws[0].status, DrawStatus::Unfillable);
    assert_eq!(draws[0].status.status_code(), 2);
    assert_eq!(stock_of(&e, item), 7);

    let restored = e.delete_draw(draw).expect("delete must succeed");
    assert_eq!(restored, 0);
    assert_eq!(stock_of(&e, item), 7);
}

#[test]
fn scenario_unlinked_draw_selects_all_three_eligible() {
    // No item; quantity 5; floor 100; three identities qualify, so the
    // draw returns exactly those three and is executed.
    let mut e = DrawEngine::new();
    let draw = e
        .create_draw("op", None, None, 5, 100, 1_000, None, 1)
        .expect("create must succeed");
    let rows = vec![
        summary("rich1", 100),
        summary("poor1", 99),
        summary("rich2", 250),
        summary("poor2", 0),
        summary("rich3", 101),
    ];
    let winners = match e.execute_draw(draw, &rows) {
        ExecuteOutcome::Winners(ws) => ws,
        _ => panic!("expected winners"),
    };
    assert_eq!(winners.len(), 3);
    let mut sorted = winners.clone();
    sorted.sort();
    assert_eq!(sorted, vec!["rich1", "rich2", "rich3"]);
    let draws = e.get_all_draws();
    assert_eq!(draws[0].status, DrawStatus::Executed);
    assert_eq!(draws[0].status.status_code(), 1);
    let mut stored = draws[0].winners.clone();
    stored.sort();
    assert_eq!(stored, sorted);
}

#[test]
fn winners_respect_quantity_bound_and_eligibility_floor() {
    let mut e = DrawEngine::new();
    let draw = e
        .create_draw("op", None, None, 2, 100, 1_000, None, 1)
        .expect("create must succeed");
    let rows = vec![
        summary("a", 100),
        summary("b", 150),
        summary("c", 99),
        summary("d", 300),
        summary("e", 1_000),
    ];
    let winners = match e.execute_draw(draw, &rows) {
        ExecuteOutcome::Winners(ws) => ws,
        _ => panic!("expected winners"),
    };
    assert_eq!(winners.len(), 2);
    assert_ne!(winners[0], winners[1]);
    for w in &winners {
        let row = rows.iter().find(|r| &r.qq == w).expect("winner must be a row");
        assert!(row.total_lp >= 100);
        assert_ne!(w, "c");
    }
}

#[test]
fn execute_twice_returns_same_winners_and_changes_nothing() {
    let (mut e, item) = engine_with_item(10, "alice");
    let draw = e
        .create_draw("alice", Some(item), None, 2, 0, 1_000, None, 1)
        .expect("create must succeed");
    let rows = vec![summary("a", 10), summary("b", 20), summary("c", 30)];

    let mut first = match e.execute_draw(draw, &rows) {
        ExecuteOutcome::Winners(ws) => ws,
        _ => panic!("expected winners"),
    };
    let stock_after_first = stock_of(&e, item);

    let mut second = match e.execute_draw(draw, &rows) {
        ExecuteOutcome::Winners(ws) => ws,
        _ => panic!("second call must report the recorded winners"),
    };
    first.sort();
    second.sort();
    assert_eq!(first, second);
    assert_eq!(stock_of(&e, item), stock_after_first);
    assert_eq!(e.get_all_draws()[0].status, DrawStatus::Executed);
}

#[test]
fn set_winner_overrides_unconditionally() {
    let mut e = DrawEngine::new();
    let draw = e
        .create_draw("op", None, None, 3, 0, 1_000, None, 1)
        .expect("create must succeed");
    e.set_winner(draw, "chosen").expect("set_winner must succeed");
    let draws = e.get_all_draws();
    assert_eq!(draws[0].status, DrawStatus::Executed);
    assert_eq!(draws[0].winners, vec!["chosen".to_string()]);

    e.set_winner(draw, "rechosen").expect("override again");
    assert_eq!(e.get_all_draws()[0].winners, vec!["rechosen".to_string()]);

    assert_eq!(e.set_winner(999, "nobody"), Err(DrawError::NotFound));
}

#[test]
fn delete_absent_draw_reports_not_found() {
    let mut e = DrawEngine::new();
    assert_eq!(e.delete_draw(5), Err(DrawError::NotFound));
}

#[test]
fn delete_executed_draw_does_not_restore_stock() {
    let (mut e, item) = engine_with_item(10, "alice");
    let draw = e
        .create_draw("alice", Some(item), None, 3, 0, 1_000, None, 1)
        .expect("create must succeed");
    let rows = vec![summary("a", 10)];
    match e.execute_draw(draw, &rows) {
        ExecuteOutcome::Winners(_) => {}
        _ => panic!("expected winners"),
    }
    assert_eq!(stock_of(&e, item), 7);
    let restored = e.delete_draw(draw).expect("delete must succeed");
    assert_eq!(restored, 0);
    assert_eq!(stock_of(&e, item), 7);
    assert!(e.get_all_draws().is_empty());
}

#[test]
fn pending_draws_come_back_sorted_by_plan_time() {
    let mut e = DrawEngine::new();
    e.create_draw("op", None, None, 1, 0, 300, None, 1).unwrap();
    e.create_draw("op", None, None, 1, 0, 100, None, 2).unwrap();
    let executed = e.create_draw("op", None, None, 1, 0, 50, None, 3).unwrap();
    e.create_draw("op", None, None, 1, 0, 200, None, 4).unwrap();
    e.set_winner(executed, "w").unwrap();

    let pending = e.get_pending_draws();
    let plans: Vec<u64> = pending.iter().map(|d| d.plan_time).collect();
    assert_eq!(plans, vec![100, 200, 300]);
    for d in &pending {
        assert_eq!(d.status, DrawStatus::Pending);
    }
}

#[test]
fn get_user_wins_lists_only_draws_won_by_the_account() {
    let mut e = DrawEngine::new();
    let d1 = e.create_draw("op", None, None, 1, 0, 10, None, 1).unwrap();
    let d2 = e.create_draw("op", None, None, 1, 0, 20, None, 2).unwrap();
    let d3 = e.create_draw("op", None, None, 1, 0, 30, None, 3).unwrap();
    e.set_winner(d1, "ann").unwrap();
    e.set_winner(d2, "bob").unwrap();
    e.set_winner(d3, "ann").unwrap();

    let wins = e.get_user_wins("ann");
    let ids: Vec<u64> = wins.iter().map(|d| d.id).collect();
    assert_eq!(ids, vec![d3, d1]);
    assert!(e.get_user_wins("carol").is_empty());
}

#[test]
fn draws_are_listed_newest_first() {
    let mut e = DrawEngine::new();
    let oldest = e.create_draw("op", None, None, 1, 0, 10, None, 100).unwrap();
    let newest = e.create_draw("op", None, None, 1, 0, 20, None, 300).unwrap();
    let middle = e.create_draw("op", None, None, 1, 0, 30, None, 200).unwrap();
    let ids: Vec<u64> = e.get_all_draws().iter().map(|d| d.id).collect();
    assert_eq!(ids, vec![newest, middle, oldest]);
}

#[test]
fn tick_executes_due_draws_and_leaves_the_rest() {
    let mut e = DrawEngine::new();
    let due_a = e.create_draw("op", None, None, 1, 0, 100, None, 1).unwrap();
    let due_b = e.create_draw("op", None, None, 1, 1_000, 200, None, 2).unwrap();
    let later = e.create_draw("op", None, None, 1, 0, 900, None, 3).unwrap();
    let rows = vec![summary("a", 10), summary("b", 20)];

    let log = e.run_tick(500, &rows);
    assert_eq!(log.len(), 2);
    assert_eq!(log[0].0, due_a);
    assert_eq!(log[1].0, due_b);
    match &log[0].1 {
        ExecuteOutcome::Winners(ws) => assert_eq!(ws.len(), 1),
        _ => panic!("due_a had eligible participants"),
    }
    match &log[1].1 {
        ExecuteOutcome::NoEligibleParticipants => {}
        _ => panic!("due_b had nobody at its floor"),
    }

    let by_id = |e: &DrawEngine, id: u64| {
        e.get_all_draws().into_iter().find(|d| d.id == id).unwrap()
    };
    assert_eq!(by_id(&e, due_a).status, DrawStatus::Executed);
    assert_eq!(by_id(&e, due_b).status, DrawStatus::Unfillable);
    assert_eq!(by_id(&e, later).status, DrawStatus::Pending);
}

#[test]
fn tick_never_selects_terminal_draws_again() {
    let mut e = DrawEngine::new();
    let d = e.create_draw("op", None, None, 1, 0, 100, None, 1).unwrap();
    let rows = vec![summary("a", 10)];

    let log1 = e.run_tick(500, &rows);
    assert_eq!(log1.len(), 1);
    assert_eq!(log1[0].0, d);
    let winners_after_first = e.get_all_draws()[0].winners.clone();

    let log2 = e.run_tick(600, &rows);
    assert!(log2.is_empty());
    assert_eq!(e.get_all_draws()[0].winners, winners_after_first);
    assert_eq!(e.get_all_draws()[0].status, DrawStatus::Executed);
}

#[test]
fn pending_draws_with_equal_plan_times_all_listed() {
    let mut e = DrawEngine::new();
    let a = e.create_draw("op", None, None, 1, 0, 100, None, 1).unwrap();
    let b = e.create_draw("op", None, None, 1, 0, 100, None, 2).unwrap();
    let pending = e.get_pending_draws();
    assert_eq!(pending.len(), 2);
    let mut ids: Vec<u64> = pending.iter().map(|d| d.id).collect();
    ids.sort();
    assert_eq!(ids, vec![a, b]);
    assert_eq!(pending[0].plan_time, 100);
    assert_eq!(pending[1].plan_time, 100);
}

#[test]
fn empty_store_lists_nothing_and_ticks_quietly() {
    let mut e = DrawEngine::new();
    assert!(e.get_all_draws().is_empty());
    assert!(e.get_pending_draws().is_empty());
    assert!(e.get_user_wins("anyone").is_empty());
    assert!(e.get_item(1).is_none());
    let log = e.run_tick(1_000, &Vec::new());
    assert!(log.is_empty());
}

#[test]
fn tick_processes_earliest_due_first() {
    let mut e = DrawEngine::new();
    let late = e.create_draw("op", None, None, 1, 0, 400, None, 1).unwrap();
    let early = e.create_draw("op", None, None, 1, 0, 100, None, 2).unwrap();
    let mid = e.create_draw("op", None, None, 1, 0, 250, None, 3).unwrap();
    let rows = vec![summary("a", 10)];

    let log = e.run_tick(1_000, &rows);
    let order: Vec<u64> = log.iter().map(|(id, _)| *id).collect();
    assert_eq!(order, vec![early, mid, late]);
}
