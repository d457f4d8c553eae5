use budget_api::auth::Auth;
use budget_api::cache::get_redis_connection;
use budget_api::db::Database;
use budget_api::handlers::get_budget;
use budget_api::handlers::get_budgets;
use budget_api::handlers::get_expense;
use budget_api::handlers::get_expenses;
use budget_api::handlers::get_profile;
use budget_api::handlers::delete_budget;
use budget_api::handlers::delete_expense;
use budget_api::handlers::login;
use budget_api::handlers::post_budget;
use budget_api::handlers::post_budget_at;
use budget_api::handlers::post_expense;
use budget_api::handlers::post_expense_at;
use budget_api::handlers::register;
use budget_api::handlers::update_budget;
use budget_api::handlers::update_expense;
use budget_api::handlers::update_profile;
use budget_api::token::decode_jwt;
use budget_api::types::LoginInfo;
use budget_api::types::NewBudget;
use budget_api::types::NewExpense;
use budget_api::types::NewUser;
use budget_api::types::UpdateBudget;
use budget_api::types::UpdateExpense;
use budget_api::types::UpdateUser;

const NOW: u64 = 1_700_000_000;

fn secret() -> Vec<u8> {
    b"test-signing-secret".to_vec()
}

fn new_user(name: &str) -> NewUser {
    NewUser {
        username: name.to_string(),
        password: "p".to_string(),
        email: format!("{}@x.com", name),
    }
}

fn registered(db: &mut Database, name: &str) -> u128 {
    register(db, &new_user(name)).expect("registration should succeed").id
}

#[test]
fn register_unique_username_succeeds_and_never_stores_plaintext() {
    let mut db = Database::new();
    let row = register(&mut db, &new_user("a")).expect("unique username must succeed");
    assert_eq!(row.username, "a");
    assert_eq!(row.email, "a@x.com");
    assert_ne!(row.password_hash, "p");
    assert_eq!(row.password_hash.len(), 60);
    assert!(row.password_hash.starts_with('$'));
}

#[test]
fn register_duplicate_username_is_a_backend_error() {
    let mut db = Database::new();
    registered(&mut db, "a");
    let err = register(&mut db, &new_user("a")).unwrap_err();
    assert_eq!(err.status_code(), 500);
}

#[test]
fn login_wrong_password_is_401() {
    let mut db = Database::new();
    registered(&mut db, "a");
    let form = LoginInfo { username: "a".to_string(), password: "wrong".to_string() };
    let err = login(&db, &form, &secret(), NOW).unwrap_err();
    assert_eq!(err.status_code(), 401);
}

#[test]
fn login_unknown_username_is_404() {
    let db = Database::new();
    let form = LoginInfo { username: "ghost".to_string(), password: "p".to_string() };
    let err = login(&db, &form, &secret(), NOW).unwrap_err();
    assert_eq!(err.status_code(), 404);
}

#[test]
fn login_token_decodes_to_the_same_user() {
    let mut db = Database::new();
    let uid = registered(&mut db, "a");
    let form = LoginInfo { username: "a".to_string(), password: "p".to_string() };
    let token = login(&db, &form, &secret(), NOW).expect("correct credentials must log in");
    assert_eq!(decode_jwt(&token, &secret(), NOW + 10), Ok(uid));
}

#[test]
fn token_is_rejected_once_expired() {
    let mut db = Database::new();
    registered(&mut db, "a");
    let form = LoginInfo { username: "a".to_string(), password: "p".to_string() };
    let token = login(&db, &form, &secret(), NOW).unwrap();
    let err = decode_jwt(&token, &secret(), NOW + 86_400).unwrap_err();
    assert_eq!(err.status_code(), 401);
}

#[test]
fn middleware_rejects_missing_header() {
    let m = Auth.new_transform(secret());
    let err = m.call(None, NOW).unwrap_err();
    assert_eq!(err.status_code(), 401);
}

#[test]
fn middleware_rejects_malformed_header_and_garbage_token() {
    let m = Auth.new_transform(secret());
    assert_eq!(m.call(Some(&b"Basic xyz".to_vec()), NOW).unwrap_err().status_code(), 401);
    assert_eq!(m.call(Some(&b"Bearer not-a-token".to_vec()), NOW).unwrap_err().status_code(), 401);
    assert_eq!(m.call(Some(&b"Bea".to_vec()), NOW).unwrap_err().status_code(), 401);
}

#[test]
fn middleware_accepts_a_fresh_token_and_rejects_a_tampered_one() {
    let mut db = Database::new();
    let uid = registered(&mut db, "a");
    let form = LoginInfo { username: "a".to_string(), password: "p".to_string() };
    let token = login(&db, &form, &secret(), NOW).unwrap();

    let m = Auth.new_transform(secret());
    let mut header = b"Bearer ".to_vec();
    header.extend_from_slice(&token);
    assert_eq!(m.call(Some(&header), NOW + 5), Ok(uid));

    let mut tampered = header.clone();
    let last = tampered.len() - 1;
    tampered[last] = if tampered[last] == b'A' { b'B' } else { b'A' };
    assert_eq!(m.call(Some(&tampered), NOW + 5).unwrap_err().status_code(), 401);

    assert_eq!(m.call(Some(&header), NOW + 90_000).unwrap_err().status_code(), 401);
}

#[test]
fn budget_scenario_register_login_post_get_and_isolation() {
    let mut db = Database::new();
    let mut conn = get_redis_connection();

    let row = register(&mut db, &new_user("a")).expect("registration succeeds");
    let form = LoginInfo { username: "a".to_string(), password: "p".to_string() };
    let token = login(&db, &form, &secret(), NOW).expect("login succeeds");
    let uid = decode_jwt(&token, &secret(), NOW + 1).expect("token is valid");
    assert_eq!(uid, row.id);

    let b = post_budget(&mut db, uid, &NewBudget { name: "Trip".to_string(), total_amount: 10_000 })
        .expect("budget creation succeeds");
    assert_eq!(b.user_id, uid);
    assert_eq!(b.name, "Trip");
    assert_eq!(b.total_amount, 10_000);

    let got = get_budget(&db, &mut conn, uid, b.id, NOW).expect("owner reads own budget");
    assert_eq!(got.id, b.id);
    assert_eq!(got.name, "Trip");

    let other = registered(&mut db, "b");
    let err = get_budget(&db, &mut conn, other, b.id, NOW).unwrap_err();
    assert_eq!(err.status_code(), 404);
}

#[test]
fn update_then_read_returns_the_new_name_from_cache_and_store() {
    let mut db = Database::new();
    let mut conn = get_redis_connection();
    let uid = registered(&mut db, "a");
    let b = post_budget(&mut db, uid, &NewBudget { name: "Trip".to_string(), total_amount: 100 })
        .unwrap();

    // Populate the cache with the pre-update value first.
    let before = get_budget(&db, &mut conn, uid, b.id, NOW).unwrap();
    assert_eq!(before.name, "Trip");

    let form = UpdateBudget { name: Some("X".to_string()), total_amount: None };
    let updated = update_budget(&mut db, &mut conn, uid, b.id, &form, NOW + 1).unwrap();
    assert_eq!(updated.name, "X");
    assert_eq!(updated.total_amount, 100);

    let after = get_budget(&db, &mut conn, uid, b.id, NOW + 2).unwrap();
    assert_eq!(after.name, "X");
    assert_ne!(after.name, "Trip");
}

#[test]
fn update_missing_budget_is_404_and_delete_removes_visibility() {
    let mut db = Database::new();
    let mut conn = get_redis_connection();
    let uid = registered(&mut db, "a");
    let b = post_budget(&mut db, uid, &NewBudget { name: "Trip".to_string(), total_amount: 100 })
        .unwrap();

    let miss = update_budget(
        &mut db,
        &mut conn,
        uid,
        b.id ^ 1,
        &UpdateBudget { name: None, total_amount: None },
        NOW,
    );
    assert_eq!(miss.unwrap_err().status_code(), 404);

    // Warm the cache, then delete: the read after the delete must miss.
    get_budget(&db, &mut conn, uid, b.id, NOW).unwrap();
    delete_budget(&mut db, &mut conn, uid, b.id).unwrap();
    let err = get_budget(&db, &mut conn, uid, b.id, NOW + 1).unwrap_err();
    assert_eq!(err.status_code(), 404);

    // Deleting again still reports success, as a filtered bulk delete does.
    delete_budget(&mut db, &mut conn, uid, b.id).unwrap();
}

#[test]
fn budgets_listing_is_scoped_to_the_caller() {
    let mut db = Database::new();
    let uid = registered(&mut db, "a");
    let other = registered(&mut db, "b");
    post_budget(&mut db, uid, &NewBudget { name: "One".to_string(), total_amount: 1 }).unwrap();
    post_budget(&mut db, uid, &NewBudget { name: "Two".to_string(), total_amount: 2 }).unwrap();
    post_budget(&mut db, other, &NewBudget { name: "Foreign".to_string(), total_amount: 3 })
        .unwrap();

    let mine = get_budgets(&db, uid);
    assert_eq!(mine.len(), 2);
    assert_eq!(mine[0].name, "One");
    assert_eq!(mine[1].name, "Two");
}

#[test]
fn expense_crud_is_scoped_through_the_owning_budget() {
    let mut db = Database::new();
    let mut conn = get_redis_connection();
    let uid = registered(&mut db, "a");
    let other = registered(&mut db, "b");
    let b = post_budget(&mut db, uid, &NewBudget { name: "Trip".to_string(), total_amount: 100 })
        .unwrap();

    let denied = post_expense(
        &mut db,
        other,
        b.id,
        &NewExpense { amount: 5, description: "sneaky".to_string() },
    );
    assert_eq!(denied.unwrap_err().status_code(), 404);

    let x = post_expense(&mut db, uid, b.id, &NewExpense { amount: 5, description: "fuel".to_string() })
        .expect("owner records an expense");
    assert_eq!(x.budget_id, b.id);
    assert_eq!(x.amount, 5);

    let listed = get_expenses(&db, uid, b.id).unwrap();
    assert_eq!(listed.len(), 1);
    assert_eq!(listed[0].description, "fuel");
    assert_eq!(get_expenses(&db, other, b.id).unwrap_err().status_code(), 404);

    let got = get_expense(&db, &mut conn, uid, b.id, x.id, NOW).unwrap();
    assert_eq!(got.description, "fuel");

    let form = UpdateExpense { amount: Some(7), description: None };
    let updated = update_expense(&mut db, &mut conn, uid, b.id, x.id, &form, NOW + 1).unwrap();
    assert_eq!(updated.amount, 7);
    assert_eq!(updated.description, "fuel");
    let reread = get_expense(&db, &mut conn, uid, b.id, x.id, NOW + 2).unwrap();
    assert_eq!(reread.amount, 7);

    delete_expense(&mut db, &mut conn, uid, b.id, x.id).unwrap();
    assert_eq!(get_expense(&db, &mut conn, uid, b.id, x.id, NOW + 3).unwrap_err().status_code(), 404);
}

#[test]
fn deleting_a_budget_cascades_to_its_expenses() {
    let mut db = Database::new();
    let mut conn = get_redis_connection();
    let uid = registered(&mut db, "a");
    let b = post_budget(&mut db, uid, &NewBudget { name: "Trip".to_string(), total_amount: 100 })
        .unwrap();
    post_expense(&mut db, uid, b.id, &NewExpense { amount: 5, description: "fuel".to_string() })
        .unwrap();

    delete_budget(&mut db, &mut conn, uid, b.id).unwrap();
    assert_eq!(get_expenses(&db, uid, b.id).unwrap_err().status_code(), 404);
    assert!(db.expenses.is_empty());
}

#[test]
fn profile_read_update_and_username_conflict() {
    let mut db = Database::new();
    let mut conn = get_redis_connection();
    let uid = registered(&mut db, "a");
    registered(&mut db, "b");

    let p = get_profile(&db, &mut conn, uid, NOW).unwrap();
    assert_eq!(p.id, uid);
    assert_eq!(p.username, "a");
    assert_eq!(p.email, "a@x.com");

    let form = UpdateUser { username: None, password: None, email: Some("new@x.com".to_string()) };
    let updated = update_profile(&mut db, &mut conn, uid, &form, NOW + 1).unwrap();
    assert_eq!(updated.email, "new@x.com");
    assert_eq!(updated.username, "a");

    let reread = get_profile(&db, &mut conn, uid, NOW + 2).unwrap();
    assert_eq!(reread.email, "new@x.com");

    let clash = UpdateUser { username: Some("b".to_string()), password: None, email: None };
    assert_eq!(update_profile(&mut db, &mut conn, uid, &clash, NOW + 3).unwrap_err().status_code(), 500);

    let ghost = update_profile(&mut db, &mut conn, uid ^ 1, &form, NOW + 4);
    assert_eq!(ghost.unwrap_err().status_code(), 404);
}

#[test]
fn changed_password_logs_in_and_old_one_stops_working() {
    let mut db = Database::new();
    let mut conn = get_redis_connection();
    let uid = registered(&mut db, "a");

    let form = UpdateUser { username: None, password: Some("q".to_string()), email: None };
    update_profile(&mut db, &mut conn, uid, &form, NOW).unwrap();

    let old = LoginInfo { username: "a".to_string(), password: "p".to_string() };
    assert_eq!(login(&db, &old, &secret(), NOW).unwrap_err().status_code(), 401);
    let new = LoginInfo { username: "a".to_string(), password: "q".to_string() };
    let token = login(&db, &new, &secret(), NOW).expect("new password logs in");
    assert_eq!(decode_jwt(&token, &secret(), NOW + 1), Ok(uid));
}

#[test]
fn creation_at_a_given_time_stamps_rows_exactly() {
    let mut db = Database::new();
    let uid = registered(&mut db, "a");

    let b = post_budget_at(
        &mut db,
        uid,
        &NewBudget { name: "Trip".to_string(), total_amount: 250 },
        42,
        NOW,
    )
    .expect("fresh identifier and existing owner must succeed");
    assert_eq!(b.id, 42);
    assert_eq!(b.created_at, NOW);
    assert_eq!(b.updated_at, NOW);

    let clash = post_budget_at(
        &mut db,
        uid,
        &NewBudget { name: "Again".to_string(), total_amount: 1 },
        42,
        NOW,
    );
    assert_eq!(clash.unwrap_err().status_code(), 500);

    let x = post_expense_at(
        &mut db,
        uid,
        42,
        &NewExpense { amount: 7, description: "fuel".to_string() },
        77,
        NOW,
    )
    .expect("owner records an expense");
    assert_eq!(x.id, 77);
    assert_eq!(x.date, NOW / 86_400);
    assert_eq!(x.created_at, NOW);
    assert_eq!(x.updated_at, NOW);

    let ghost_owner = post_expense_at(
        &mut db,
        uid ^ 1,
        42,
        &NewExpense { amount: 7, description: "x".to_string() },
        78,
        NOW,
    );
    assert_eq!(ghost_owner.unwrap_err().status_code(), 404);
}
