use vstd::prelude::*;

use crate::clock::{now_timestamp, TIMESTAMP_BOUND};
use crate::error::ErrorKind;
use vstd::string::StringExecFns;

verus! {

/// An account record.
pub struct User {
    /// The primary key.
    pub uuid: u128,
    /// The name used to log in.
    pub user_name: String,
    /// The name shown beside the user's posts.
    pub display_name: String,
    /// The stored hash of the password.
    pub password_hash: String,
    /// While present and not yet passed, login attempts are refused.
    /// Seconds since the Unix epoch.
    pub locked: Option<i64>,
    /// Consecutive failed login attempts.
    pub failed_login_count: u32,
    /// A banned user cannot log in, independently of any lock.
    pub banned: bool,
    /// Role identifiers; `add_role_to_user` adds a role only where it is missing.
    pub roles: Vec<i32>,
}

/// The fields of an account that is about to be registered.
pub struct NewUser {
    pub user_name: String,
    pub display_name: String,
    pub password_hash: String,
    pub failed_login_count: u32,
    pub banned: bool,
    pub roles: Vec<i32>,
}

/// The account table: rows keyed by a unique `uuid`.
pub struct UserTable {
    rows: Vec<User>,
}

impl View for UserTable {
    type V = Seq<User>;

    closed spec fn view(&self) -> Seq<User> {
        self.rows@
    }
}

/// No two rows share a key.
pub open spec fn user_ids_unique(rows: Seq<User>) -> bool {
    forall|i: int, j: int|
        0 <= i < rows.len() && 0 <= j < rows.len() && #[trigger] rows[i].uuid == #[trigger] rows[j].uuid
            ==> i == j
}

/// Some row has the key `id`.
pub open spec fn has_user(rows: Seq<User>, id: u128) -> bool {
    exists|i: int| 0 <= i < rows.len() && #[trigger] rows[i].uuid == id
}

/// The rows after the row keyed by `id`, and no other, has been replaced by `f` of itself.
pub open spec fn update_user(rows: Seq<User>, id: u128, f: spec_fn(User) -> User) -> Seq<User> {
    rows.map_values(|u: User| if u.uuid == id { f(u) } else { u })
}

/// The row keyed by `id` (meaningful where `has_user(rows, id)`).
pub open spec fn user_row(rows: Seq<User>, id: u128) -> User {
    rows[choose|i: int| 0 <= i < rows.len() && rows[i].uuid == id]
}

/// With unique keys, the row at a position holding `id` is the row keyed by `id`.
pub proof fn lemma_user_row_at(rows: Seq<User>, id: u128, i: int)
    requires
        user_ids_unique(rows),
        0 <= i < rows.len(),
        rows[i].uuid == id,
    ensures
        user_row(rows, id) == rows[i],
        has_user(rows, id),
{
    let j = choose|j: int| 0 <= j < rows.len() && rows[j].uuid == id;
    assert(rows[j].uuid == rows[i].uuid);
}

/// `after` is `before` with only the row keyed by `id` changed, and `change`
/// holds of that row's old and new values.
pub open spec fn user_changed(before: Seq<User>, after: Seq<User>, id: u128, change: spec_fn(User, User) -> bool) -> bool {
    &&& after.len() == before.len()
    &&& forall|k: int|
        0 <= k < before.len() ==> if before[k].uuid == id {
            change(before[k], #[trigger] after[k])
        } else {
            after[k] == before[k]
        }
}

/// Every field of `b` but the roles is that of `a`.
pub open spec fn same_but_roles(a: User, b: User) -> bool {
    &&& b.uuid == a.uuid
    &&& b.user_name == a.user_name
    &&& b.display_name == a.display_name
    &&& b.password_hash == a.password_hash
    &&& b.locked == a.locked
    &&& b.failed_login_count == a.failed_login_count
    &&& b.banned == a.banned
}

/// Granting `role` adds it once: a role already held leaves the list as it is.
pub open spec fn role_granted(a: User, b: User, role: i32) -> bool {
    &&& same_but_roles(a, b)
    &&& b.roles@ == if a.roles@.contains(role) { a.roles@ } else { a.roles@.push(role) }
}

/// Every field of `b` but the display name is that of `a`, whose display name is `name`.
pub open spec fn renamed(a: User, b: User, name: String) -> bool {
    b == User { display_name: name, ..a }
}

/// The row that registering `n` under the key `id` adds: unlocked.
pub open spec fn registered(id: u128, n: NewUser) -> User {
    User {
        uuid: id,
        user_name: n.user_name,
        display_name: n.display_name,
        password_hash: n.password_hash,
        locked: None,
        failed_login_count: n.failed_login_count,
        banned: n.banned,
        roles: n.roles,
    }
}

/// The keys of the rows that hold `role`, in table order.
pub open spec fn ids_with_role(rows: Seq<User>, role: i32) -> Seq<u128>
    decreases rows.len(),
{
    if rows.len() == 0 {
        Seq::empty()
    } else {
        let rest = ids_with_role(rows.drop_last(), role);
        if rows.last().roles@.contains(role) {
            rest.push(rows.last().uuid)
        } else {
            rest
        }
    }
}

/// Updating the row keyed by `id` by a change that keeps keys keeps them
/// unique, and the row keyed by `id` is then the changed row.
pub proof fn lemma_update_user_row(rows: Seq<User>, id: u128, f: spec_fn(User) -> User)
    requires
        user_ids_unique(rows),
        has_user(rows, id),
        forall|u: User| #[trigger] f(u).uuid == u.uuid,
    ensures
        user_ids_unique(update_user(rows, id, f)),
        has_user(update_user(rows, id, f), id),
        user_row(update_user(rows, id, f), id) == f(user_row(rows, id)),
{
    let after = update_user(rows, id, f);
    let i = choose|i: int| 0 <= i < rows.len() && rows[i].uuid == id;
    lemma_user_row_at(rows, id, i);
    assert forall|a: int, b: int|
        0 <= a < after.len() && 0 <= b < after.len() && #[trigger] after[a].uuid == #[trigger] after[b].uuid
        implies a == b by {
        assert(after[a].uuid == rows[a].uuid);
        assert(after[b].uuid == rows[b].uuid);
    }
    assert(after[i].uuid == id);
    lemma_user_row_at(after, id, i);
}

/// Some row has the user name `name`.
pub open spec fn has_user_named(rows: Seq<User>, name: Seq<char>) -> bool {
    exists|i: int| 0 <= i < rows.len() && #[trigger] rows[i].user_name@ == name
}

/// Position `i` holds the first row, in table order, with the user name `name`.
pub open spec fn first_named(rows: Seq<User>, name: Seq<char>, i: int) -> bool {
    &&& 0 <= i < rows.len()
    &&& rows[i].user_name@ == name
    &&& forall|k: int| 0 <= k < i ==> #[trigger] rows[k].user_name@ != name
}

/// A lock is in force at `now` while its end has not yet passed.
pub open spec fn locked_at(u: User, now: i64) -> bool {
    match u.locked {
        Some(until) => now <= until,
        None => false,
    }
}

/// The stored lock has ended before `now`.
pub open spec fn lock_expired(u: User, now: i64) -> bool {
    match u.locked {
        Some(until) => until < now,
        None => false,
    }
}

/// The record as a check at `now` leaves it: a lock that has ended is cleared.
pub open spec fn expire_lock(u: User, now: i64) -> User {
    if lock_expired(u, now) {
        User { locked: None, ..u }
    } else {
        u
    }
}

/// The record after a successful login: no failures counted.
pub open spec fn failures_cleared(u: User) -> User {
    User { failed_login_count: 0, ..u }
}

/// The end of the lock that a failure after `count` earlier failures sets:
/// two seconds for each earlier failure.
pub open spec fn lock_end(count: u32, now: i64) -> int {
    now + 2 * count
}

/// The record after a failed login that followed `count` earlier failures.
pub open spec fn after_failed_login(u: User, count: u32, now: i64) -> User {
    User { locked: Some(lock_end(count, now) as i64), failed_login_count: (count + 1) as u32, ..u }
}

/// What a lock check at `now` does: an unknown key gives `NotFound` and
/// changes nothing; otherwise the result says whether the row was locked at
/// `now`, and a lock of that row that had ended is cleared.
pub open spec fn lock_check(before: Seq<User>, after: Seq<User>, id: u128, now: i64, r: Result<bool, ErrorKind>) -> bool {
    if has_user(before, id) {
        &&& r == Ok::<bool, ErrorKind>(locked_at(user_row(before, id), now))
        &&& after == update_user(before, id, |u: User| expire_lock(u, now))
    } else {
        r == Err::<bool, ErrorKind>(ErrorKind::NotFound) && after == before
    }
}

/// What recording a failure after `count` earlier ones at `now` does: an
/// unknown key gives `NotFound` and changes nothing; otherwise the row gets
/// the lock and count of `after_failed_login`, and the end of the lock is
/// returned.
pub open spec fn failed_login(
    before: Seq<User>,
    after: Seq<User>,
    id: u128,
    count: u32,
    now: i64,
    r: Result<i64, ErrorKind>,
) -> bool {
    if has_user(before, id) {
        &&& r == Ok::<i64, ErrorKind>(lock_end(count, now) as i64)
        &&& after == update_user(before, id, |u: User| after_failed_login(u, count, now))
    } else {
        r == Err::<i64, ErrorKind>(ErrorKind::NotFound) && after == before
    }
}

impl UserTable {
    /// The table's invariant: keys are unique.
    pub open spec fn wf(&self) -> bool {
        user_ids_unique(self@)
    }

    /// An empty table.
    pub fn new() -> (r: UserTable)
        ensures
            r.wf(),
            r@ == Seq::<User>::empty(),
    {
        UserTable { rows: Vec::new() }
    }

    /// Whether a row has the key `id`.
    pub fn contains(&self, id: u128) -> (r: bool)
        ensures
            r == has_user(self@, id),
    {
        self.find(id).is_some()
    }

    /// The position of the first row with the user name `name`, if there is one.
    fn find_named(&self, name: &str) -> (r: Option<usize>)
        ensures
            match r {
                Some(i) => first_named(self@, name@, i as int),
                None => !has_user_named(self@, name@),
            },
    {
        let wanted = String::from_str(name);
        let mut i: usize = 0;
        while i < self.rows.len()
            invariant
                i <= self.rows@.len(),
                wanted@ == name@,
                forall|k: int| 0 <= k < i ==> #[trigger] self.rows@[k].user_name@ != name@,
            decreases self.rows@.len() - i,
        {
            if self.rows[i].user_name == wanted {
                return Some(i);
            }
            i += 1;
        }
        None
    }

    /// The position of the row keyed by `id`, if there is one.
    fn find(&self, id: u128) -> (r: Option<usize>)
        ensures
            match r {
                Some(i) => i < self@.len() && self@[i as int].uuid == id,
                None => !has_user(self@, id),
            },
    {
        let mut i: usize = 0;
        while i < self.rows.len()
            invariant
                i <= self.rows@.len(),
                forall|k: int| 0 <= k < i ==> self.rows@[k].uuid != id,
            decreases self.rows@.len() - i,
        {
            if self.rows[i].uuid == id {
                return Some(i);
            }
            i += 1;
        }
        None
    }
}

impl User {
    /// Reports whether the account is locked at `now`. A lock whose end has
    /// passed is cleared in the same update and reported as no lock.
    pub fn check_if_locked_at(user_uuid: u128, now: i64, table: &mut UserTable) -> (r: Result<bool, ErrorKind>)
        requires
            old(table).wf(),
        ensures
            final(table).wf(),
            lock_check(old(table)@, final(table)@, user_uuid, now, r),
    {
        match table.find(user_uuid) {
            None => Err(ErrorKind::NotFound),
            Some(i) => {
                proof { lemma_user_row_at(table@, user_uuid, i as int); }
                let ghost before = table@;
                let (locked, expired) = match table.rows[i].locked {
                    Some(until) => (now <= until, until < now),
                    None => (false, false),
                };
                if expired {
                    table.rows[i].locked = None;
                }
                assert(table@ =~= update_user(before, user_uuid, |u: User| expire_lock(u, now)));
                Ok(locked)
            }
        }
    }

    /// Reports whether the account is locked now, clearing a lock that has
    /// ended (see `check_if_locked_at`).
    pub fn check_if_locked(user_uuid: u128, table: &mut UserTable) -> (r: Result<bool, ErrorKind>)
        requires
            old(table).wf(),
        ensures
            final(table).wf(),
            exists|now: i64| -TIMESTAMP_BOUND < now < TIMESTAMP_BOUND && #[trigger] lock_check(old(table)@, final(table)@, user_uuid, now, r),
    {
        let now = now_timestamp();
        let r = Self::check_if_locked_at(user_uuid, now, table);
        assert(lock_check(old(table)@, table@, user_uuid, now, r));
        r
    }

    /// Records a failed login that followed `current_failed_attempts` earlier
    /// failures: the account is locked until `now` plus two seconds for each
    /// earlier failure, and the failure count goes up by one, in one update.
    /// Returns the end of the lock.
    pub fn record_failed_login_at(
        user_uuid: u128,
        current_failed_attempts: u32,
        now: i64,
        table: &mut UserTable,
    ) -> (r: Result<i64, ErrorKind>)
        requires
            old(table).wf(),
            current_failed_attempts < u32::MAX,
            lock_end(current_failed_attempts, now) <= i64::MAX,
        ensures
            final(table).wf(),
            failed_login(old(table)@, final(table)@, user_uuid, current_failed_attempts, now, r),
    {
        match table.find(user_uuid) {
            None => Err(ErrorKind::NotFound),
            Some(i) => {
                let ghost before = table@;
                let delay_seconds: i64 = 2 * (current_failed_attempts as i64);
                let expires: i64 = now + delay_seconds;
                table.rows[i].locked = Some(expires);
                table.rows[i].failed_login_count = current_failed_attempts + 1;
                assert(table@ =~= update_user(
                    before,
                    user_uuid,
                    |u: User| after_failed_login(u, current_failed_attempts, now),
                ));
                Ok(expires)
            }
        }
    }

    /// Records a failed login at the current time (see `record_failed_login_at`).
    pub fn record_failed_login(user_uuid: u128, current_failed_attempts: u32, table: &mut UserTable) -> (r: Result<i64, ErrorKind>)
        requires
            old(table).wf(),
            current_failed_attempts < u32::MAX,
        ensures
            final(table).wf(),
            exists|now: i64| -TIMESTAMP_BOUND < now < TIMESTAMP_BOUND && #[trigger] failed_login(old(table)@, final(table)@, user_uuid, current_failed_attempts, now, r),
    {
        let now = now_timestamp();
        assert(now < TIMESTAMP_BOUND);
        let r = Self::record_failed_login_at(user_uuid, current_failed_attempts, now, table);
        assert(failed_login(old(table)@, table@, user_uuid, current_failed_attempts, now, r));
        r
    }

    /// Resets the failure count to zero after a successful login.
    pub fn reset_login_failure_count(user_uuid: u128, table: &mut UserTable) -> (r: Result<(), ErrorKind>)
        requires
            old(table).wf(),
        ensures
            final(table).wf(),
            has_user(old(table)@, user_uuid) ==> r is Ok
                && final(table)@ == update_user(old(table)@, user_uuid, |u: User| failures_cleared(u)),
            !has_user(old(table)@, user_uuid) ==> r == Err::<(), ErrorKind>(ErrorKind::NotFound)
                && final(table)@ == old(table)@,
    {
        match table.find(user_uuid) {
            None => Err(ErrorKind::NotFound),
            Some(i) => {
                let ghost before = table@;
                table.rows[i].failed_login_count = 0;
                assert(table@ =~= update_user(before, user_uuid, |u: User| failures_cleared(u)));
                Ok(())
            }
        }
    }

    /// Sets or clears the ban flag; the lock is not touched.
    pub fn set_ban_status(user_uuid: u128, is_banned: bool, table: &mut UserTable) -> (r: Result<(), ErrorKind>)
        requires
            old(table).wf(),
        ensures
            final(table).wf(),
            has_user(old(table)@, user_uuid) ==> r is Ok
                && final(table)@ == update_user(old(table)@, user_uuid, |u: User| User { banned: is_banned, ..u }),
            !has_user(old(table)@, user_uuid) ==> r == Err::<(), ErrorKind>(ErrorKind::NotFound)
                && final(table)@ == old(table)@,
    {
        match table.find(user_uuid) {
            None => Err(ErrorKind::NotFound),
            Some(i) => {
                let ghost before = table@;
                table.rows[i].banned = is_banned;
                assert(table@ =~= update_user(before, user_uuid, |u: User| User { banned: is_banned, ..u }));
                Ok(())
            }
        }
    }

    /// Whether the account has its ban flag set.
    pub fn is_user_banned(user_uuid: u128, table: &UserTable) -> (r: Result<bool, ErrorKind>)
        requires
            table.wf(),
        ensures
            has_user(table@, user_uuid) ==> r == Ok::<bool, ErrorKind>(user_row(table@, user_uuid).banned),
            !has_user(table@, user_uuid) ==> r == Err::<bool, ErrorKind>(ErrorKind::NotFound),
    {
        match table.find(user_uuid) {
            None => Err(ErrorKind::NotFound),
            Some(i) => {
                proof { lemma_user_row_at(table@, user_uuid, i as int); }
                Ok(table.rows[i].banned)
            }
        }
    }

    /// The row keyed by `user_uuid`.
    pub fn get_user(user_uuid: u128, table: &UserTable) -> (r: Result<&User, ErrorKind>)
        requires
            table.wf(),
        ensures
            has_user(table@, user_uuid) ==> (r matches Ok(u) && *u == user_row(table@, user_uuid)),
            !has_user(table@, user_uuid) ==> (r matches Err(e) && e == ErrorKind::NotFound),
    {
        match table.find(user_uuid) {
            None => Err(ErrorKind::NotFound),
            Some(i) => {
                proof { lemma_user_row_at(table@, user_uuid, i as int); }
                Ok(&table.rows[i])
            }
        }
    }

    /// Registers `new_user` under the key `user_uuid`, unlocked. A key that
    /// is already taken gives `Conflict`.
    pub fn create_user(user_uuid: u128, new_user: NewUser, table: &mut UserTable) -> (r: Result<(), ErrorKind>)
        requires
            old(table).wf(),
        ensures
            final(table).wf(),
            !has_user(old(table)@, user_uuid) ==> r is Ok
                && final(table)@ == old(table)@.push(registered(user_uuid, new_user)),
            has_user(old(table)@, user_uuid) ==> r == Err::<(), ErrorKind>(ErrorKind::Conflict)
                && final(table)@ == old(table)@,
    {
        if table.contains(user_uuid) {
            return Err(ErrorKind::Conflict);
        }
        let row = User {
            uuid: user_uuid,
            user_name: new_user.user_name,
            display_name: new_user.display_name,
            password_hash: new_user.password_hash,
            locked: None,
            failed_login_count: new_user.failed_login_count,
            banned: new_user.banned,
            roles: new_user.roles,
        };
        table.rows.push(row);
        Ok(())
    }

    /// Removes the row keyed by `user_uuid` and hands it back.
    pub fn delete_user(user_uuid: u128, table: &mut UserTable) -> (r: Result<User, ErrorKind>)
        requires
            old(table).wf(),
        ensures
            final(table).wf(),
            has_user(old(table)@, user_uuid) ==> exists|i: int|
                0 <= i < old(table)@.len() && old(table)@[i].uuid == user_uuid
                    && r == Ok::<User, ErrorKind>(old(table)@[i])
                    && final(table)@ == old(table)@.remove(i),
            !has_user(old(table)@, user_uuid) ==> r == Err::<User, ErrorKind>(ErrorKind::NotFound)
                && final(table)@ == old(table)@,
    {
        match table.find(user_uuid) {
            None => Err(ErrorKind::NotFound),
            Some(i) => {
                let ghost before = table@;
                let row = table.rows.remove(i);
                assert(before[i as int].uuid == user_uuid);
                Ok(row)
            }
        }
    }

    /// Grants `user_role` to the account, unless it already holds it.
    pub fn add_role_to_user(user_uuid: u128, user_role: i32, table: &mut UserTable) -> (r: Result<(), ErrorKind>)
        requires
            old(table).wf(),
        ensures
            final(table).wf(),
            has_user(old(table)@, user_uuid) ==> r is Ok
                && user_changed(old(table)@, final(table)@, user_uuid, |a: User, b: User| role_granted(a, b, user_role)),
            !has_user(old(table)@, user_uuid) ==> r == Err::<(), ErrorKind>(ErrorKind::NotFound)
                && final(table)@ == old(table)@,
    {
        match table.find(user_uuid) {
            None => Err(ErrorKind::NotFound),
            Some(i) => {
                if !holds_role(&table.rows[i].roles, user_role) {
                    table.rows[i].roles.push(user_role);
                }
                Ok(())
            }
        }
    }

    /// Sets the display name of the account.
    pub fn update_user_display_name_safe(user_uuid: u128, new_display_name: String, table: &mut UserTable) -> (r: Result<(), ErrorKind>)
        requires
            old(table).wf(),
        ensures
            final(table).wf(),
            has_user(old(table)@, user_uuid) ==> r is Ok
                && user_changed(old(table)@, final(table)@, user_uuid, |a: User, b: User| renamed(a, b, new_display_name)),
            !has_user(old(table)@, user_uuid) ==> r == Err::<(), ErrorKind>(ErrorKind::NotFound)
                && final(table)@ == old(table)@,
    {
        match table.find(user_uuid) {
            None => Err(ErrorKind::NotFound),
            Some(i) => {
                table.rows[i].display_name = new_display_name;
                Ok(())
            }
        }
    }

    /// The account with the user name `name` (the first in table order).
    pub fn get_user_by_user_name<'a>(name: &str, table: &'a UserTable) -> (r: Result<&'a User, ErrorKind>)
        ensures
            has_user_named(table@, name@) ==> (r matches Ok(u) && exists|i: int| first_named(table@, name@, i) && *u == table@[i]),
            !has_user_named(table@, name@) ==> (r matches Err(e) && e == ErrorKind::NotFound),
    {
        match table.find_named(name) {
            None => Err(ErrorKind::NotFound),
            Some(i) => Ok(&table.rows[i]),
        }
    }

    /// Sets the display name of the account with the user name
    /// `current_user_name` (the first in table order).
    pub fn update_user_display_name(current_user_name: String, new_display_name: String, table: &mut UserTable) -> (r: Result<(), ErrorKind>)
        requires
            old(table).wf(),
        ensures
            final(table).wf(),
            has_user_named(old(table)@, current_user_name@) ==> r is Ok && exists|i: int|
                first_named(old(table)@, current_user_name@, i)
                    && user_changed(old(table)@, final(table)@, old(table)@[i].uuid, |a: User, b: User| renamed(a, b, new_display_name)),
            !has_user_named(old(table)@, current_user_name@) ==> r == Err::<(), ErrorKind>(ErrorKind::NotFound)
                && final(table)@ == old(table)@,
    {
        match table.find_named(current_user_name.as_str()) {
            None => Err(ErrorKind::NotFound),
            Some(i) => {
                table.rows[i].display_name = new_display_name;
                Ok(())
            }
        }
    }

    /// Removes the account with the user name `name` (the first in table
    /// order) and hands it back.
    pub fn delete_user_by_name(name: String, table: &mut UserTable) -> (r: Result<User, ErrorKind>)
        requires
            old(table).wf(),
        ensures
            final(table).wf(),
            has_user_named(old(table)@, name@) ==> exists|i: int|
                first_named(old(table)@, name@, i) && r == Ok::<User, ErrorKind>(old(table)@[i])
                    && final(table)@ == old(table)@.remove(i),
            !has_user_named(old(table)@, name@) ==> r == Err::<User, ErrorKind>(ErrorKind::NotFound)
                && final(table)@ == old(table)@,
    {
        match table.find_named(name.as_str()) {
            None => Err(ErrorKind::NotFound),
            Some(i) => Ok(table.rows.remove(i)),
        }
    }

    /// The keys of all accounts that hold `user_role`, in table order.
    pub fn get_users_with_role(user_role: i32, table: &UserTable) -> (r: Vec<u128>)
        ensures
            r@ == ids_with_role(table@, user_role),
    {
        let mut ids: Vec<u128> = Vec::new();
        let mut i: usize = 0;
        while i < table.rows.len()
            invariant
                i <= table@.len(),
                ids@ == ids_with_role(table@.take(i as int), user_role),
            decreases table@.len() - i,
        {
            assert(table@.take(i + 1).drop_last() =~= table@.take(i as int));
            if holds_role(&table.rows[i].roles, user_role) {
                ids.push(table.rows[i].uuid);
            }
            i += 1;
        }
        assert(table@.take(i as int) =~= table@);
        ids
    }
}

/// Whether `roles` holds `role`.
fn holds_role(roles: &Vec<i32>, role: i32) -> (r: bool)
    ensures
        r == roles@.contains(role),
{
    let mut i: usize = 0;
    while i < roles.len()
        invariant
            i <= roles@.len(),
            forall|k: int| 0 <= k < i ==> roles@[k] != role,
        decreases roles@.len() - i,
    {
        if roles[i] == role {
            return true;
        }
        i += 1;
    }
    false
}

/// The first failed login sets no lock: its end is the moment of the failure
/// itself, so every later check finds the account unlocked.
pub proof fn lemma_first_failure_does_not_lock(
    before: Seq<User>,
    after: Seq<User>,
    id: u128,
    now: i64,
    r: Result<i64, ErrorKind>,
    later: i64,
)
    requires
        user_ids_unique(before),
        has_user(before, id),
        failed_login(before, after, id, 0, now, r),
        now < later,
    ensures
        r matches Ok(until) && until <= now,
        !locked_at(user_row(after, id), later),
{
    lemma_update_user_row(before, id, |u: User| after_failed_login(u, 0, now));
}

/// After `n >= 1` earlier failures a failed login locks the account for
/// `2 * n` seconds and stores `n + 1` failures.
pub proof fn lemma_failure_backoff(
    before: Seq<User>,
    after: Seq<User>,
    id: u128,
    n: u32,
    now: i64,
    r: Result<i64, ErrorKind>,
)
    requires
        user_ids_unique(before),
        has_user(before, id),
        n >= 1,
        n < u32::MAX,
        now + 2 * n <= i64::MAX,
        failed_login(before, after, id, n, now, r),
    ensures
        r == Ok::<i64, ErrorKind>((now + 2 * n) as i64),
        user_row(after, id).locked == Some((now + 2 * n) as i64),
        user_row(after, id).failed_login_count == n + 1,
{
    lemma_update_user_row(before, id, |u: User| after_failed_login(u, n, now));
}

/// A check made after a lock has ended reports the account unlocked, and
/// leaves it so that a second check, at any time, reports it unlocked too and
/// changes nothing.
pub proof fn lemma_expired_lock_check_is_idempotent(
    before: Seq<User>,
    middle: Seq<User>,
    after: Seq<User>,
    id: u128,
    now: i64,
    later: i64,
    first: Result<bool, ErrorKind>,
    second: Result<bool, ErrorKind>,
)
    requires
        user_ids_unique(before),
        has_user(before, id),
        lock_expired(user_row(before, id), now),
        lock_check(before, middle, id, now, first),
        lock_check(middle, after, id, later, second),
    ensures
        first == Ok::<bool, ErrorKind>(false),
        second == Ok::<bool, ErrorKind>(false),
        after == middle,
{
    let f = |u: User| expire_lock(u, now);
    lemma_update_user_row(before, id, f);
    let g = |u: User| expire_lock(u, later);
    lemma_update_user_row(middle, id, g);
    assert(after =~= middle);
}

/// A successful login leaves no failures counted, whatever the count was.
pub proof fn lemma_reset_clears_failures(before: Seq<User>, after: Seq<User>, id: u128)
    requires
        user_ids_unique(before),
        has_user(before, id),
        after == update_user(before, id, |u: User| failures_cleared(u)),
    ensures
        user_row(after, id).failed_login_count == 0,
{
    lemma_update_user_row(before, id, |u: User| failures_cleared(u));
}

} // verus!
