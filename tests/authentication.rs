use pos_ledger::auth::Role;
use pos_ledger::ledger::{Ledger, LedgerError};

#[test]
fn authenticate_accepts_only_active_matching_credentials() {
    let mut l = Ledger::new();
    let id = l.add_user("sari", "s3cret", "Sari", Role::Cashier).unwrap();
    assert_ne!(l.users[0].password_hash, "s3cret");
    assert!(l.authenticate("sari", "wrong").is_none());
    assert!(l.authenticate("nobody", "s3cret").is_none());
    assert!(l.users[0].last_login.is_none());
    let u = l.authenticate("sari", "s3cret").unwrap();
    assert_eq!(u.id, id);
    assert!(u.last_login.is_some());
    assert_eq!(l.users[0].last_login, u.last_login);
    l.users[0].is_active = false;
    assert!(l.authenticate("sari", "s3cret").is_none());
    assert_eq!(
        l.add_user("sari", "other", "Another", Role::Admin),
        Err(LedgerError::InvalidInput)
    );
}

#[test]
fn complete_login_decides_on_check_result() {
    let mut l = Ledger::new();
    l.add_user("budi", "pw", "Budi", Role::Admin).unwrap();
    assert!(l.complete_login(0, false, "t0".to_string()).is_none());
    let u = l.complete_login(0, true, "t1".to_string()).unwrap();
    assert_eq!(u.last_login.as_deref(), Some("t1"));
    assert_eq!(u.role, Role::Admin);
}

#[test]
fn default_users_are_seeded_once() {
    let mut l = Ledger::new();
    l.initialize_default_data().unwrap();
    assert_eq!(l.users.len(), 2);
    assert_eq!(l.users[0].username, "admin");
    assert_eq!(l.users[1].username, "kasir");
    assert_eq!(l.users[1].role, Role::Cashier);
    l.initialize_default_data().unwrap();
    assert_eq!(l.users.len(), 2);
    assert!(l.authenticate("admin", "admin123").is_some());
}

#[test]
fn user_listing_leaves_out_digests() {
    let mut l = Ledger::new();
    l.add_user("dewi", "pw", "Dewi", Role::Cashier).unwrap();
    let users = l.list_users();
    assert_eq!(users.len(), 1);
    assert_eq!(users[0].username, "dewi");
    assert!(users[0].password_hash.is_empty());
    assert!(!l.users[0].password_hash.is_empty());
}
