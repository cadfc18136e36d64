use weekend_at_joes::error::ErrorKind;
use weekend_at_joes::question::{PoolState, Question, QuestionPool};
use weekend_at_joes::user::{NewUser, User, UserTable};

const BUCKET: u128 = 10;

fn users() -> UserTable {
    let mut table = UserTable::new();
    for id in [100u128, 200] {
        let n = NewUser {
            user_name: format!("u{}", id),
            display_name: format!("u{}", id),
            password_hash: String::new(),
            failed_login_count: 0,
            banned: false,
            roles: vec![],
        };
        User::create_user(id, n, &mut table).unwrap();
    }
    table
}

fn pool(ids: &[u128]) -> QuestionPool {
    let mut pool = QuestionPool::new();
    pool.create_bucket(BUCKET).unwrap();
    for id in ids {
        pool.create_question(*id, BUCKET, None).unwrap();
    }
    pool
}

fn state(pool: &QuestionPool, id: u128) -> PoolState {
    pool.get_question(id).unwrap().state
}

#[test]
fn new_question_is_in_pool() {
    let mut pool = pool(&[]);
    let q = pool.create_question(1, BUCKET, Some(100)).unwrap();
    assert_eq!(q, Question { uuid: 1, bucket_uuid: BUCKET, author_uuid: Some(100), state: PoolState::InPool });
    assert_eq!(pool.create_question(1, BUCKET, None), Err(ErrorKind::Conflict));
    assert_eq!(pool.create_question(2, 99, None), Err(ErrorKind::NotFound));
    assert_eq!(pool.create_bucket(BUCKET), Err(ErrorKind::Conflict));
}

#[test]
fn double_checkout_conflicts_until_returned() {
    let mut pool = pool(&[1]);
    assert_eq!(pool.checkout(1), Ok(()));
    assert_eq!(pool.checkout(1), Err(ErrorKind::Conflict));
    assert_eq!(state(&pool, 1), PoolState::CheckedOut);
    assert_eq!(pool.return_to_pool(1), Ok(()));
    assert_eq!(pool.checkout(1), Ok(()));
    assert_eq!(pool.checkout(7), Err(ErrorKind::NotFound));
}

#[test]
fn returning_a_pooled_question_is_a_no_op() {
    let mut pool = pool(&[1, 2]);
    assert_eq!(pool.return_to_pool(1), Ok(()));
    assert_eq!(state(&pool, 1), PoolState::InPool);
    assert_eq!(pool.count_in_pool(BUCKET), Ok(2));
    assert_eq!(pool.return_to_pool(7), Err(ErrorKind::NotFound));
}

#[test]
fn selection_skips_checked_out_questions() {
    let mut pool = pool(&[1, 2, 3]);
    pool.checkout(2).unwrap();
    for pick in 0..20u64 {
        let q = pool.select_random(BUCKET, pick).unwrap();
        assert_ne!(q.uuid, 2);
        assert_eq!(q.state, PoolState::InPool);
    }
    assert_eq!(pool.select_random(BUCKET, 0).unwrap().uuid, 1);
    assert_eq!(pool.select_random(BUCKET, 1).unwrap().uuid, 3);
    assert_eq!(pool.select_random(BUCKET, 5).unwrap().uuid, 3);
}

#[test]
fn empty_pool_and_unknown_bucket() {
    let mut pool = pool(&[1]);
    pool.create_bucket(20).unwrap();
    assert_eq!(pool.select_random(20, 0), Err(ErrorKind::EmptyPool));
    assert_eq!(pool.count_in_pool(20), Ok(0));
    pool.checkout(1).unwrap();
    assert_eq!(pool.select_random(BUCKET, 3), Err(ErrorKind::EmptyPool));
    assert_eq!(pool.select_random(30, 0), Err(ErrorKind::NotFound));
    assert_eq!(pool.count_in_pool(30), Err(ErrorKind::NotFound));
    assert!(pool.get_questions_for_bucket(30).is_err());
}

#[test]
fn rotation_scenario_with_one_question_out() {
    let mut pool = pool(&[1, 2]);
    pool.checkout(2).unwrap();
    for pick in 0..10u64 {
        assert_eq!(pool.select_random(BUCKET, pick).unwrap().uuid, 1);
    }
    assert_eq!(pool.checkout(2), Err(ErrorKind::Conflict));
    assert_eq!(pool.checkout(1), Ok(()));
    assert_eq!(pool.select_random(BUCKET, 0), Err(ErrorKind::EmptyPool));
}

#[test]
fn counts_and_listing_per_bucket() {
    let mut pool = pool(&[1, 2, 3]);
    pool.create_bucket(20).unwrap();
    pool.create_question(4, 20, None).unwrap();
    pool.checkout(3).unwrap();
    assert_eq!(pool.count_in_pool(BUCKET), Ok(2));
    assert_eq!(pool.count_in_pool(20), Ok(1));
    let listed: Vec<u128> = pool.get_questions_for_bucket(BUCKET).unwrap().iter().map(|q| q.uuid).collect();
    assert_eq!(listed, vec![1, 2, 3]);
}

#[test]
fn select_and_checkout_takes_the_question() {
    let mut pool = pool(&[1, 2]);
    let q = pool.select_and_checkout(BUCKET, 1).unwrap();
    assert_eq!(q.uuid, 2);
    assert_eq!(q.state, PoolState::CheckedOut);
    assert_eq!(state(&pool, 2), PoolState::CheckedOut);
    assert_eq!(pool.select_and_checkout(BUCKET, 1).unwrap().uuid, 1);
    assert_eq!(pool.select_and_checkout(BUCKET, 0), Err(ErrorKind::EmptyPool));
}

#[test]
fn favorites_are_a_set() {
    let users = users();
    let mut pool = pool(&[1, 2]);
    assert_eq!(pool.favorite(1, 100, &users), Ok(()));
    assert_eq!(pool.favorite(1, 100, &users), Ok(()));
    assert_eq!(pool.list_favorites(100, &users), Ok(vec![1]));
    assert_eq!(pool.unfavorite(1, 100, &users), Ok(()));
    assert_eq!(pool.unfavorite(1, 100, &users), Ok(()));
    assert_eq!(pool.list_favorites(100, &users), Ok(vec![]));
}

#[test]
fn favorites_are_independent_of_state() {
    let users = users();
    let mut pool = pool(&[1, 2]);
    pool.checkout(2).unwrap();
    pool.favorite(2, 100, &users).unwrap();
    pool.favorite(1, 100, &users).unwrap();
    pool.favorite(1, 200, &users).unwrap();
    assert_eq!(pool.list_favorites(100, &users), Ok(vec![2, 1]));
    assert_eq!(pool.list_favorites(200, &users), Ok(vec![1]));
    assert_eq!(state(&pool, 2), PoolState::CheckedOut);
}

#[test]
fn favorites_of_unknown_ids_are_not_found() {
    let users = users();
    let mut pool = pool(&[1]);
    assert_eq!(pool.favorite(9, 100, &users), Err(ErrorKind::NotFound));
    assert_eq!(pool.favorite(1, 300, &users), Err(ErrorKind::NotFound));
    assert_eq!(pool.unfavorite(9, 100, &users), Err(ErrorKind::NotFound));
    assert_eq!(pool.list_favorites(300, &users), Err(ErrorKind::NotFound));
}

#[test]
fn delete_removes_question_and_its_favorites() {
    let users = users();
    let mut pool = pool(&[1, 2]);
    pool.checkout(1).unwrap();
    pool.favorite(1, 100, &users).unwrap();
    pool.favorite(2, 100, &users).unwrap();
    pool.favorite(1, 200, &users).unwrap();
    let q = pool.delete_question(1).unwrap();
    assert_eq!(q.state, PoolState::CheckedOut);
    assert_eq!(pool.list_favorites(100, &users), Ok(vec![2]));
    assert_eq!(pool.list_favorites(200, &users), Ok(vec![]));
    assert_eq!(pool.get_question(1), Err(ErrorKind::NotFound));
    assert_eq!(pool.delete_question(1), Err(ErrorKind::NotFound));
    assert_eq!(pool.count_in_pool(BUCKET), Ok(1));
}

#[test]
fn two_selections_can_meet_but_only_one_checkout_wins() {
    let mut pool = pool(&[1]);
    let first = pool.select_random(BUCKET, 3).unwrap();
    let second = pool.select_random(BUCKET, 8).unwrap();
    assert_eq!(first.uuid, second.uuid);
    assert_eq!(pool.checkout(first.uuid), Ok(()));
    assert_eq!(pool.checkout(second.uuid), Err(ErrorKind::Conflict));
}
