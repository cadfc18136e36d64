use weekend_at_joes::error::ErrorKind;
use weekend_at_joes::user::{NewUser, User, UserTable};

fn new_user(name: &str) -> NewUser {
    NewUser {
        user_name: name.to_string(),
        display_name: name.to_string(),
        password_hash: "hash".to_string(),
        failed_login_count: 0,
        banned: false,
        roles: vec![1],
    }
}

fn table_with(id: u128) -> UserTable {
    let mut table = UserTable::new();
    assert_eq!(User::create_user(id, new_user("joe"), &mut table), Ok(()));
    table
}

fn row(table: &UserTable, id: u128) -> (Option<i64>, u32) {
    let u = User::get_user(id, table).unwrap();
    (u.locked, u.failed_login_count)
}

#[test]
fn first_failure_sets_no_lock() {
    let mut table = table_with(1);
    assert_eq!(User::record_failed_login_at(1, 0, 1000, &mut table), Ok(1000));
    assert_eq!(row(&table, 1), (Some(1000), 1));
    assert_eq!(User::check_if_locked_at(1, 1001, &mut table), Ok(false));
}

#[test]
fn failure_backoff_is_two_seconds_per_failure() {
    let mut table = table_with(1);
    assert_eq!(User::record_failed_login_at(1, 5, 1000, &mut table), Ok(1010));
    assert_eq!(row(&table, 1), (Some(1010), 6));
    assert_eq!(User::record_failed_login_at(1, 1, 2000, &mut table), Ok(2002));
    assert_eq!(row(&table, 1), (Some(2002), 2));
}

#[test]
fn lock_holds_until_its_end_inclusive() {
    let mut table = table_with(1);
    assert_eq!(User::record_failed_login_at(1, 2, 100, &mut table), Ok(104));
    assert_eq!(User::check_if_locked_at(1, 100, &mut table), Ok(true));
    assert_eq!(User::check_if_locked_at(1, 104, &mut table), Ok(true));
    assert_eq!(row(&table, 1).0, Some(104));
}

#[test]
fn expired_lock_is_cleared_and_stays_clear() {
    let mut table = table_with(1);
    User::record_failed_login_at(1, 2, 100, &mut table).unwrap();
    assert_eq!(User::check_if_locked_at(1, 105, &mut table), Ok(false));
    assert_eq!(row(&table, 1), (None, 3));
    assert_eq!(User::check_if_locked_at(1, 50, &mut table), Ok(false));
    assert_eq!(row(&table, 1), (None, 3));
}

#[test]
fn lockout_scenario_from_three_failures() {
    let mut table = table_with(1);
    User::record_failed_login_at(1, 2, 0, &mut table).unwrap();
    assert_eq!(row(&table, 1).1, 3);
    let until = User::record_failed_login_at(1, 3, 1000, &mut table).unwrap();
    assert_eq!(until - 1000, 6);
    assert_eq!(row(&table, 1).1, 4);
    assert_eq!(User::check_if_locked_at(1, 1007, &mut table), Ok(false));
    assert_eq!(row(&table, 1), (None, 4));
    assert_eq!(User::reset_login_failure_count(1, &mut table), Ok(()));
    assert_eq!(row(&table, 1).1, 0);
}

#[test]
fn successful_login_resets_any_count() {
    let mut table = table_with(1);
    User::record_failed_login_at(1, 41, 0, &mut table).unwrap();
    assert_eq!(User::reset_login_failure_count(1, &mut table), Ok(()));
    assert_eq!(row(&table, 1), (Some(82), 0));
}

#[test]
fn unknown_account_is_not_found() {
    let mut table = table_with(1);
    assert_eq!(User::check_if_locked_at(2, 0, &mut table), Err(ErrorKind::NotFound));
    assert_eq!(User::record_failed_login_at(2, 0, 0, &mut table), Err(ErrorKind::NotFound));
    assert_eq!(User::reset_login_failure_count(2, &mut table), Err(ErrorKind::NotFound));
    assert_eq!(User::set_ban_status(2, true, &mut table), Err(ErrorKind::NotFound));
    assert_eq!(User::is_user_banned(2, &table), Err(ErrorKind::NotFound));
    assert_eq!(User::add_role_to_user(2, 3, &mut table), Err(ErrorKind::NotFound));
    assert!(User::get_user(2, &table).is_err());
    assert!(User::delete_user(2, &mut table).is_err());
    assert_eq!(row(&table, 1), (None, 0));
}

#[test]
fn taken_key_is_a_conflict() {
    let mut table = table_with(1);
    assert_eq!(User::create_user(1, new_user("ann"), &mut table), Err(ErrorKind::Conflict));
    assert_eq!(User::get_user(1, &table).unwrap().user_name, "joe");
}

#[test]
fn ban_is_independent_of_lock() {
    let mut table = table_with(1);
    User::record_failed_login_at(1, 3, 100, &mut table).unwrap();
    assert_eq!(User::set_ban_status(1, true, &mut table), Ok(()));
    assert_eq!(User::is_user_banned(1, &table), Ok(true));
    assert_eq!(row(&table, 1), (Some(106), 4));
    assert_eq!(User::set_ban_status(1, false, &mut table), Ok(()));
    assert_eq!(User::is_user_banned(1, &table), Ok(false));
}

#[test]
fn roles_are_held_once() {
    let mut table = table_with(1);
    User::create_user(2, new_user("ann"), &mut table).unwrap();
    assert_eq!(User::add_role_to_user(1, 7, &mut table), Ok(()));
    assert_eq!(User::add_role_to_user(1, 7, &mut table), Ok(()));
    assert_eq!(User::get_user(1, &table).unwrap().roles, vec![1, 7]);
    assert_eq!(User::get_users_with_role(7, &table), vec![1]);
    assert_eq!(User::get_users_with_role(1, &table), vec![1, 2]);
    assert_eq!(User::get_users_with_role(9, &table), Vec::<u128>::new());
}

#[test]
fn delete_and_rename() {
    let mut table = table_with(1);
    User::create_user(2, new_user("ann"), &mut table).unwrap();
    assert_eq!(User::update_user_display_name_safe(2, "Annie".to_string(), &mut table), Ok(()));
    assert_eq!(User::get_user(2, &table).unwrap().display_name, "Annie");
    assert_eq!(User::get_user(2, &table).unwrap().user_name, "ann");
    let gone = User::delete_user(1, &mut table).unwrap();
    assert_eq!(gone.uuid, 1);
    assert!(!table.contains(1));
    assert!(table.contains(2));
}

#[test]
fn clock_backed_operations_use_the_current_time() {
    let mut table = table_with(1);
    // a lock that ended at the epoch has expired now
    User::record_failed_login_at(1, 0, 0, &mut table).unwrap();
    assert_eq!(User::check_if_locked(1, &mut table), Ok(false));
    assert_eq!(row(&table, 1).0, None);
    // a ten second lock set now is still in force
    let until = User::record_failed_login(1, 5, &mut table).unwrap();
    assert!(until > 1_600_000_000);
    assert_eq!(User::check_if_locked(1, &mut table), Ok(true));
    assert_eq!(row(&table, 1), (Some(until), 6));
}

#[test]
fn concurrent_failures_can_lose_an_update() {
    let mut table = table_with(1);
    User::record_failed_login_at(1, 2, 0, &mut table).unwrap();
    // two failed attempts both read the count before either records
    let seen_by_first = row(&table, 1).1;
    let seen_by_second = row(&table, 1).1;
    User::record_failed_login_at(1, seen_by_first, 500, &mut table).unwrap();
    User::record_failed_login_at(1, seen_by_second, 501, &mut table).unwrap();
    assert_eq!(row(&table, 1), (Some(507), 4));
}

#[test]
fn accounts_by_user_name() {
    let mut table = table_with(1);
    User::create_user(2, new_user("ann"), &mut table).unwrap();
    assert_eq!(User::get_user_by_user_name("ann", &table).unwrap().uuid, 2);
    assert!(User::get_user_by_user_name("bob", &table).is_err());
    assert_eq!(User::update_user_display_name("joe".to_string(), "Joseph".to_string(), &mut table), Ok(()));
    assert_eq!(User::get_user(1, &table).unwrap().display_name, "Joseph");
    assert_eq!(User::update_user_display_name("bob".to_string(), "Bob".to_string(), &mut table), Err(ErrorKind::NotFound));
    assert_eq!(User::delete_user_by_name("ann".to_string(), &mut table).unwrap().uuid, 2);
    assert!(!table.contains(2));
    assert!(User::delete_user_by_name("ann".to_string(), &mut table).is_err());
}
