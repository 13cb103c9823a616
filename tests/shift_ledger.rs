use pos_ledger::auth::{Role, User};
use pos_ledger::ledger::{Ledger, LedgerError, ShiftStatus};
use pos_ledger::movement::MovementType;

fn cashier(id: &str) -> User {
    User {
        id: id.to_string(),
        username: format!("user-{}", id),
        password_hash: String::new(),
        full_name: format!("Cashier {}", id),
        role: Role::Cashier,
        is_active: true,
        created_at: "2024-01-01T00:00:00+00:00".to_string(),
        last_login: None,
    }
}

fn ledger_with(users: &[&str]) -> Ledger {
    let mut l = Ledger::new();
    for u in users {
        l.users.push(cashier(u));
    }
    l
}

#[test]
fn expected_cash_replays_movements() {
    let mut l = ledger_with(&["u1"]);
    let sid = l.open_shift("u1", "reg-1", 10_000).unwrap();
    l.post_movement(&sid, "cash_in", 5_000, None, None, "u1").unwrap();
    l.post_movement(&sid, "sale", 3_000, None, None, "u1").unwrap();
    l.post_movement(&sid, "cash_out", 2_000, Some("supplies".to_string()), None, "u1").unwrap();
    l.post_movement(&sid, "adjustment", 500, None, None, "u1").unwrap();
    let shift = l.get_open_shift("u1").unwrap();
    assert_eq!(shift.expected_cash, 15_500);
    assert_eq!(shift.initial_cash, 10_000);
    let replay: i64 = l
        .list_movements(&sid)
        .iter()
        .map(|m| match m.movement_type {
            MovementType::CashIn | MovementType::Sale => m.amount,
            MovementType::CashOut | MovementType::Adjustment => -m.amount,
        })
        .sum();
    assert_eq!(replay, shift.expected_cash);
}

#[test]
fn opening_float_is_logged_first() {
    let mut l = ledger_with(&["u1"]);
    let sid = l.open_shift("u1", "reg-1", 2_500).unwrap();
    let ms = l.list_movements(&sid);
    assert_eq!(ms.len(), 1);
    assert_eq!(ms[0].movement_type, MovementType::CashIn);
    assert_eq!(ms[0].amount, 2_500);
    assert_eq!(ms[0].reason.as_deref(), Some("Opening cash"));
    assert!(!l.shifts[0].start_time.is_empty());
}

#[test]
fn movements_listed_most_recent_first() {
    let mut l = ledger_with(&["u1", "u2"]);
    let a = l.open_shift("u1", "reg-1", 100).unwrap();
    let b = l.open_shift("u2", "reg-2", 200).unwrap();
    assert_ne!(a, b);
    l.post_movement(&a, "sale", 1, None, None, "u1").unwrap();
    l.post_movement(&b, "sale", 2, None, None, "u2").unwrap();
    l.post_movement(&a, "cash_out", 3, None, None, "u1").unwrap();
    let amounts: Vec<i64> = l.list_movements(&a).iter().map(|m| m.amount).collect();
    assert_eq!(amounts, vec![3, 1, 100]);
    assert_eq!(l.get_open_shift("u2").unwrap().expected_cash, 202);
}

#[test]
fn second_open_shift_is_refused() {
    let mut l = ledger_with(&["u1"]);
    l.open_shift("u1", "reg-1", 1_000).unwrap();
    assert_eq!(l.open_shift("u1", "reg-1", 1_000), Err(LedgerError::AlreadyOpen));
    assert_eq!(l.shifts.len(), 1);
    assert_eq!(l.movements.len(), 1);
}

#[test]
fn reopen_after_close_is_allowed() {
    let mut l = ledger_with(&["u1"]);
    let sid = l.open_shift("u1", "reg-1", 1_000).unwrap();
    l.close_shift(&sid, 1_000, "u1", None).unwrap();
    assert!(l.open_shift("u1", "reg-1", 500).is_ok());
}

#[test]
fn open_shift_input_errors() {
    let mut l = ledger_with(&["u1"]);
    assert_eq!(l.open_shift("u1", "reg-1", -1), Err(LedgerError::InvalidInput));
    assert_eq!(l.open_shift("nobody", "reg-1", 0), Err(LedgerError::NotFound));
    assert!(l.shifts.is_empty());
}

#[test]
fn closed_shift_refuses_movement_and_close() {
    let mut l = ledger_with(&["u1"]);
    let sid = l.open_shift("u1", "reg-1", 1_000).unwrap();
    l.close_shift(&sid, 1_000, "u1", None).unwrap();
    assert_eq!(
        l.post_movement(&sid, "cash_in", 10, None, None, "u1"),
        Err(LedgerError::ShiftClosed)
    );
    assert_eq!(l.close_shift(&sid, 1_000, "u1", None), Err(LedgerError::ShiftClosed));
    assert_eq!(l.movements.len(), 1);
}

#[test]
fn unknown_shift_is_not_found() {
    let mut l = ledger_with(&["u1"]);
    assert_eq!(
        l.post_movement("missing", "cash_in", 10, None, None, "u1"),
        Err(LedgerError::NotFound)
    );
    assert_eq!(l.close_shift("missing", 0, "u1", None), Err(LedgerError::NotFound));
}

#[test]
fn close_shift_difference() {
    let mut l = ledger_with(&["u1"]);
    let sid = l.open_shift("u1", "reg-1", 100).unwrap();
    let closed = l.close_shift(&sid, 95, "u1", Some("short".to_string())).unwrap();
    assert_eq!(closed, sid);
    let s = &l.shifts[0];
    assert_eq!(s.status, ShiftStatus::Closed);
    assert_eq!(s.actual_cash, Some(95));
    assert_eq!(s.difference, Some(-5));
    assert_eq!(s.notes.as_deref(), Some("short"));
    assert!(s.end_time.is_some());
    assert!(l.get_open_shift("u1").is_none());
}

#[test]
fn negative_amount_rejected() {
    let mut l = ledger_with(&["u1"]);
    let sid = l.open_shift("u1", "reg-1", 100).unwrap();
    assert_eq!(
        l.post_movement(&sid, "cash_in", -5, None, None, "u1"),
        Err(LedgerError::InvalidInput)
    );
    assert_eq!(l.movements.len(), 1);
    assert_eq!(l.shifts[0].expected_cash, 100);
}

#[test]
fn unknown_movement_type_rejected() {
    let mut l = ledger_with(&["u1"]);
    let sid = l.open_shift("u1", "reg-1", 100).unwrap();
    assert_eq!(
        l.post_movement(&sid, "refund", 5, None, None, "u1"),
        Err(LedgerError::InvalidInput)
    );
    assert_eq!(l.movements.len(), 1);
}

#[test]
fn balance_overflow_rejected() {
    let mut l = ledger_with(&["u1"]);
    let sid = l.open_shift("u1", "reg-1", i64::MAX - 1).unwrap();
    assert_eq!(
        l.post_movement(&sid, "cash_in", 2, None, None, "u1"),
        Err(LedgerError::InvalidInput)
    );
    assert!(l.post_movement(&sid, "cash_in", 1, None, None, "u1").is_ok());
    assert_eq!(l.shifts[0].expected_cash, i64::MAX);
}

#[test]
fn movement_tags_round_trip() {
    for (tag, kind) in [
        ("cash_in", MovementType::CashIn),
        ("cash_out", MovementType::CashOut),
        ("sale", MovementType::Sale),
        ("adjustment", MovementType::Adjustment),
    ] {
        assert_eq!(MovementType::from_tag(tag), Some(kind));
        assert_eq!(kind.tag(), tag);
    }
    assert_eq!(MovementType::from_tag("CASH_IN"), None);
    assert_eq!(MovementType::from_tag(""), None);
}

#[test]
fn consistency_check_spots_tampering() {
    let mut l = ledger_with(&["u1", "u2"]);
    assert!(l.is_consistent());
    let sid = l.open_shift("u1", "reg-1", 300).unwrap();
    l.post_movement(&sid, "sale", 50, None, None, "u1").unwrap();
    assert!(l.is_consistent());
    l.shifts[0].expected_cash += 1;
    assert!(!l.is_consistent());
    l.shifts[0].expected_cash -= 1;
    l.shifts[0].initial_cash = 0;
    assert!(!l.is_consistent());
    l.shifts[0].initial_cash = 300;
    l.movements[1].shift_id = "elsewhere".to_string();
    assert!(!l.is_consistent());
}

#[test]
fn open_shift_with_ids_refuses_used_ids() {
    let mut l = ledger_with(&["u1", "u2"]);
    let sid = l
        .open_shift_with_ids("u1", "reg-1", 700, "s-1".to_string(), "m-1".to_string(), "t0".to_string())
        .unwrap();
    assert_eq!(sid, "s-1");
    assert_eq!(l.shifts[0].start_time, "t0");
    assert_eq!(l.movements[0].id, "m-1");
    assert_eq!(l.movements[0].timestamp, "t0");
    assert_eq!(
        l.open_shift_with_ids("u2", "reg-2", 10, "s-1".to_string(), "m-2".to_string(), "t1".to_string()),
        Err(LedgerError::StorageFailure)
    );
    assert_eq!(
        l.open_shift_with_ids("u2", "reg-2", 10, "s-2".to_string(), "m-1".to_string(), "t1".to_string()),
        Err(LedgerError::StorageFailure)
    );
    assert_eq!(l.shifts.len(), 1);
    assert!(l
        .open_shift_with_ids("u2", "reg-2", 10, "s-2".to_string(), "m-2".to_string(), "t1".to_string())
        .is_ok());
}

#[test]
fn post_movement_with_id_refuses_used_id() {
    let mut l = ledger_with(&["u1"]);
    let sid = l
        .open_shift_with_ids("u1", "reg-1", 100, "s-1".to_string(), "m-1".to_string(), "t0".to_string())
        .unwrap();
    assert_eq!(
        l.post_movement_with_id(&sid, "sale", 5, None, None, "u1", "m-1".to_string(), "t1".to_string()),
        Err(LedgerError::StorageFailure)
    );
    assert_eq!(l.shifts[0].expected_cash, 100);
    let id = l
        .post_movement_with_id(&sid, "sale", 5, None, None, "u1", "m-2".to_string(), "t1".to_string())
        .unwrap();
    assert_eq!(id, "m-2");
    assert_eq!(l.movements[1].timestamp, "t1");
    assert_eq!(l.shifts[0].expected_cash, 105);
}
