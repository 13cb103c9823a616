use pos_ledger::auth::{Role, User};
use pos_ledger::catalog::{
    add_product, add_product_with_id, delete_product, get_product_by_barcode, get_product_by_id, get_products,
    initialize_database_with_sample_data, products_below_zero, update_product, update_product_stock,
};
use pos_ledger::ledger::{Ledger, LedgerError};
use pos_ledger::sale::TransactionItem;

fn item(product_id: &str, name: &str, quantity: i64, price: i64, subtotal: i64) -> TransactionItem {
    TransactionItem {
        product_id: product_id.to_string(),
        name: name.to_string(),
        quantity,
        price,
        subtotal,
    }
}

fn store_with_two_products() -> (Ledger, String, String) {
    let mut l = Ledger::new();
    let a = add_product(&mut l, "Tea", "111", 1_000, 10, "Food").unwrap();
    let b = add_product(&mut l, "Cup", "222", 500, 4, "Home").unwrap();
    (l, a, b)
}

fn with_user(l: &mut Ledger, id: &str) {
    l.users.push(User {
        id: id.to_string(),
        username: id.to_string(),
        password_hash: String::new(),
        full_name: id.to_string(),
        role: Role::Cashier,
        is_active: true,
        created_at: String::new(),
        last_login: None,
    });
}

#[test]
fn settle_sale_totals_and_decrements_stock() {
    let (mut l, a, b) = store_with_two_products();
    let items = vec![item(&a, "Tea", 2, 1_000, 1), item(&b, "Cup", 1, 500, 999_999)];
    let t = l.settle_sale(items, "cash").unwrap();
    assert_eq!(t.total, 2_500);
    assert_eq!(t.items[0].subtotal, 2_000);
    assert_eq!(t.items[1].subtotal, 500);
    assert_eq!(t.payment_method, "cash");
    assert_eq!(get_product_by_id(&l, &a).unwrap().stock, 8);
    assert_eq!(get_product_by_id(&l, &b).unwrap().stock, 3);
    assert_eq!(l.transactions.len(), 1);
    assert_eq!(l.transactions[0].total, 2_500);
}

#[test]
fn settle_sale_may_drive_stock_negative() {
    let (mut l, _a, b) = store_with_two_products();
    let t = l.settle_sale(vec![item(&b, "Cup", 3, 500, 0), item(&b, "Cup", 3, 500, 0)], "card").unwrap();
    assert_eq!(t.total, 3_000);
    assert_eq!(get_product_by_id(&l, &b).unwrap().stock, -2);
    let short = products_below_zero(&l);
    assert_eq!(short.len(), 1);
    assert_eq!(short[0].id, b);
}

#[test]
fn settle_sale_rejects_bad_lines() {
    let (mut l, a, _b) = store_with_two_products();
    assert_eq!(
        l.settle_sale(vec![item(&a, "Tea", 0, 1_000, 0)], "cash").map(|t| t.total),
        Err(LedgerError::InvalidInput)
    );
    assert_eq!(
        l.settle_sale(vec![item(&a, "Tea", -1, 1_000, 0)], "cash").map(|t| t.total),
        Err(LedgerError::InvalidInput)
    );
    assert_eq!(
        l.settle_sale(vec![item("ghost", "Ghost", 1, 1, 1)], "cash").map(|t| t.total),
        Err(LedgerError::NotFound)
    );
    assert_eq!(
        l.settle_sale(vec![item(&a, "Tea", 2, i64::MAX, 0)], "cash").map(|t| t.total),
        Err(LedgerError::InvalidInput)
    );
    assert!(l.transactions.is_empty());
    assert_eq!(get_product_by_id(&l, &a).unwrap().stock, 10);
}

#[test]
fn report_summarises_shift() {
    let (mut l, a, _b) = store_with_two_products();
    with_user(&mut l, "u1");
    let sid = l.open_shift("u1", "reg-1", 10_000).unwrap();
    let t = l.settle_sale(vec![item(&a, "Tea", 3, 1_000, 0)], "cash").unwrap();
    l.post_movement(&sid, "sale", 3_000, None, Some(t.id.clone()), "u1").unwrap();
    l.post_movement(&sid, "sale", 700, None, Some("purged".to_string()), "u1").unwrap();
    l.post_movement(&sid, "cash_out", 1_200, None, Some(String::new()), "u1").unwrap();
    l.post_movement(&sid, "adjustment", 300, None, None, "u1").unwrap();
    let rep = l.generate_report(&sid, "u1").unwrap();
    let c = &rep.data.cash_summary;
    assert_eq!(c.total_cash_in, 13_700);
    assert_eq!(c.total_cash_out, 1_500);
    assert_eq!(c.net_movement, 12_200);
    assert_eq!(c.expected_cash, 12_200);
    assert_eq!(c.initial_cash, 10_000);
    assert_eq!(c.actual_cash, None);
    assert_eq!(rep.data.movements.len(), 5);
    assert_eq!(rep.data.movements[0].amount, 300);
    assert_eq!(rep.data.transactions.len(), 1);
    assert_eq!(rep.data.transactions[0].id, t.id);
    assert_eq!(rep.data.transactions[0].total, 3_000);
    assert_eq!(rep.report_type, "daily");
    assert_eq!(rep.generated_by, "u1");
    assert_eq!(rep.shift_id, sid);
    assert!(rep.pdf_path.is_none());
    assert!(l.reports.is_empty());
}

#[test]
fn report_net_movement() {
    let mut l = Ledger::new();
    with_user(&mut l, "u1");
    let sid = l.open_shift("u1", "reg-1", 0).unwrap();
    l.post_movement(&sid, "cash_in", 400, None, None, "u1").unwrap();
    l.post_movement(&sid, "cash_out", 150, None, None, "u1").unwrap();
    let rep = l.generate_report(&sid, "u1").unwrap();
    let c = &rep.data.cash_summary;
    assert_eq!(c.net_movement, (c.expected_cash - c.initial_cash) as i128);
    assert_eq!(c.net_movement, 250);
}

#[test]
fn report_for_unknown_shift_is_not_found() {
    let l = Ledger::new();
    assert_eq!(l.generate_report("nope", "u1").map(|r| r.id), Err(LedgerError::NotFound));
}

#[test]
fn report_round_trip() {
    let mut l = Ledger::new();
    with_user(&mut l, "u1");
    let sid = l.open_shift("u1", "reg-1", 900).unwrap();
    l.post_movement(&sid, "sale", 100, Some("walk-in".to_string()), None, "u1").unwrap();
    let rep = l.generate_report(&sid, "u1").unwrap();
    let copy = l.generate_report(&sid, "u1").unwrap();
    let id = l.save_report(rep).unwrap();
    let back = l.get_report(&id).unwrap();
    assert_eq!(back.id, id);
    assert_eq!(back.shift_id, copy.shift_id);
    assert_eq!(back.data.cash_summary.total_cash_in, copy.data.cash_summary.total_cash_in);
    assert_eq!(back.data.cash_summary.net_movement, 1_000);
    assert_eq!(back.data.shift_info.id, sid);
    assert_eq!(back.data.movements.len(), copy.data.movements.len());
    assert_eq!(back.data.movements[0].reason.as_deref(), Some("walk-in"));
    let dup = l.get_report(&id).unwrap();
    assert_eq!(l.save_report(dup), Err(LedgerError::InvalidInput));
    assert_eq!(l.list_reports().len(), 1);
}

#[test]
fn close_shift_with_report_stores_report() {
    let mut l = Ledger::new();
    with_user(&mut l, "u1");
    let sid = l.open_shift("u1", "reg-1", 100).unwrap();
    let (closed, saved) = l.close_shift_with_report(&sid, 95, "u1", None).unwrap();
    assert_eq!(closed, sid);
    let rid = saved.unwrap();
    let rep = l.get_report(&rid).unwrap();
    assert_eq!(rep.data.cash_summary.difference, Some(-5));
    assert_eq!(rep.data.cash_summary.actual_cash, Some(95));
    assert_eq!(
        l.close_shift_with_report(&sid, 95, "u1", None).map(|v| v.0),
        Err(LedgerError::ShiftClosed)
    );
    assert_eq!(l.reports.len(), 1);
}

#[test]
fn sample_data_fills_empty_catalog_once() {
    let mut l = Ledger::new();
    initialize_database_with_sample_data(&mut l).unwrap();
    let ps = get_products(&l);
    assert_eq!(ps.len(), 5);
    assert_eq!(ps[0].barcode, "1234567890123");
    assert_eq!(ps[0].price, 1_099);
    assert_eq!(ps[4].stock, 30);
    initialize_database_with_sample_data(&mut l).unwrap();
    assert_eq!(get_products(&l).len(), 5);
    assert_ne!(ps[0].id, ps[1].id);
}

#[test]
fn catalog_edits() {
    let (mut l, a, b) = store_with_two_products();
    assert_eq!(add_product(&mut l, "Dup", "111", 1, 1, "X"), Err(LedgerError::InvalidInput));
    assert_eq!(add_product(&mut l, "Neg", "333", -1, 1, "X"), Err(LedgerError::InvalidInput));
    assert_eq!(update_product(&mut l, &a, "Tea", "222", 1, 1, "F"), Err(LedgerError::InvalidInput));
    update_product(&mut l, &a, "Green tea", "111", 1_200, 7, "Drinks").unwrap();
    let p = get_product_by_barcode(&l, "111").unwrap();
    assert_eq!(p.id, a);
    assert_eq!(p.name, "Green tea");
    assert_eq!(p.price, 1_200);
    assert_eq!(p.stock, 7);
    assert_eq!(update_product(&mut l, "ghost", "G", "9", 1, 1, "X"), Err(LedgerError::NotFound));
    update_product_stock(&mut l, &b, 42).unwrap();
    assert_eq!(get_product_by_id(&l, &b).unwrap().stock, 42);
    assert_eq!(update_product_stock(&mut l, "ghost", 1), Err(LedgerError::NotFound));
}

#[test]
fn delete_product_keeps_sold_items() {
    let (mut l, a, b) = store_with_two_products();
    l.settle_sale(vec![item(&a, "Tea", 1, 1_000, 0)], "cash").unwrap();
    assert_eq!(delete_product(&mut l, &a), Err(LedgerError::InvalidInput));
    delete_product(&mut l, &b).unwrap();
    assert!(get_product_by_id(&l, &b).is_none());
    assert_eq!(get_products(&l).len(), 1);
    assert_eq!(delete_product(&mut l, &b), Err(LedgerError::NotFound));
}

#[test]
fn transactions_listed_most_recent_first() {
    let (mut l, a, b) = store_with_two_products();
    let first = l.settle_sale(vec![item(&a, "Tea", 1, 1_000, 0)], "cash").unwrap();
    let second = l.settle_sale(vec![item(&b, "Cup", 2, 500, 0)], "card").unwrap();
    let listed = l.list_transactions();
    assert_eq!(listed.len(), 2);
    assert_eq!(listed[0].id, second.id);
    assert_eq!(listed[0].total, 1_000);
    assert_eq!(listed[1].id, first.id);
    assert_eq!(listed[1].items.len(), 1);
}

#[test]
fn report_net_movement_includes_opening_float() {
    let mut l = Ledger::new();
    with_user(&mut l, "u1");
    let sid = l.open_shift("u1", "reg-1", 1_000).unwrap();
    l.post_movement(&sid, "sale", 250, None, None, "u1").unwrap();
    let rep = l.generate_report(&sid, "u1").unwrap();
    let c = &rep.data.cash_summary;
    assert_eq!(c.net_movement, c.expected_cash as i128);
    assert_eq!(c.net_movement, 1_250);
}

#[test]
fn settle_sale_with_id_refuses_used_id() {
    let (mut l, a, _b) = store_with_two_products();
    let t = l
        .settle_sale_with_id(vec![item(&a, "Tea", 1, 1_000, 0)], "cash", "tx-1".to_string(), "t0".to_string())
        .unwrap();
    assert_eq!(t.id, "tx-1");
    assert_eq!(t.timestamp, "t0");
    assert_eq!(
        l.settle_sale_with_id(vec![item(&a, "Tea", 1, 1_000, 0)], "cash", "tx-1".to_string(), "t1".to_string())
            .map(|t| t.total),
        Err(LedgerError::StorageFailure)
    );
    assert_eq!(get_product_by_id(&l, &a).unwrap().stock, 9);
    assert_eq!(l.transactions.len(), 1);
}

#[test]
fn add_product_with_id_refuses_used_id() {
    let mut l = Ledger::new();
    let id = add_product_with_id(&mut l, "p-1".to_string(), "Tea", "111", 100, 1, "Food").unwrap();
    assert_eq!(id, "p-1");
    assert_eq!(
        add_product_with_id(&mut l, "p-1".to_string(), "Cup", "222", 100, 1, "Home"),
        Err(LedgerError::StorageFailure)
    );
    assert_eq!(
        add_product_with_id(&mut l, "p-2".to_string(), "Cup", "111", 100, 1, "Home"),
        Err(LedgerError::InvalidInput)
    );
    assert_eq!(get_products(&l).len(), 1);
    assert_eq!(get_product_by_id(&l, "p-1").unwrap().name, "Tea");
}

#[test]
fn close_shift_with_report_records_close_and_report() {
    let mut l = Ledger::new();
    with_user(&mut l, "u1");
    let sid = l.open_shift("u1", "reg-1", 100).unwrap();
    let (_, saved) = l.close_shift_with_report(&sid, 120, "u1", Some("over".to_string())).unwrap();
    let rid = saved.unwrap();
    let s = &l.shifts[0];
    assert_eq!(s.difference, Some(20));
    assert_eq!(s.notes.as_deref(), Some("over"));
    assert!(s.end_time.is_some());
    let rep = l.get_report(&rid).unwrap();
    assert_eq!(rep.generated_by, "u1");
    assert_eq!(rep.data.shift_info.notes.as_deref(), Some("over"));
    assert_eq!(rep.data.shift_info.difference, Some(20));
}
