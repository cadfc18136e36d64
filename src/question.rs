use vstd::prelude::*;

use crate::error::ErrorKind;
use crate::user::{has_user, UserTable};

verus! {

/// Whether a question can be handed out.
#[derive(Debug, Clone, Copy, PartialEq, Eq, Structural)]
pub enum PoolState {
    /// Waiting in its bucket to be answered.
    InPool,
    /// Taken by an answering workflow ("on the floor").
    CheckedOut,
}

/// A pool item.
#[derive(Debug, Clone, Copy, PartialEq, Eq, Structural)]
pub struct Question {
    /// The primary key.
    pub uuid: u128,
    /// The bucket that the question belongs to; never reassigned.
    pub bucket_uuid: u128,
    /// The account that submitted the question, if any.
    pub author_uuid: Option<u128>,
    /// Whether the question is in the pool or checked out.
    pub state: PoolState,
}

/// An account's mark on a question.
#[derive(Debug, Clone, Copy, PartialEq, Eq, Structural)]
pub struct Favorite {
    pub question_uuid: u128,
    pub user_uuid: u128,
}

/// The buckets, their questions and the favorites index.
pub struct QuestionPool {
    buckets: Vec<u128>,
    questions: Vec<Question>,
    favorites: Vec<Favorite>,
}

/// No two questions share a key.
pub open spec fn question_ids_unique(qs: Seq<Question>) -> bool {
    forall|i: int, j: int|
        0 <= i < qs.len() && 0 <= j < qs.len() && #[trigger] qs[i].uuid == #[trigger] qs[j].uuid ==> i == j
}

/// Some question has the key `id`.
pub open spec fn has_question(qs: Seq<Question>, id: u128) -> bool {
    exists|i: int| 0 <= i < qs.len() && #[trigger] qs[i].uuid == id
}

/// The question keyed by `id` (meaningful where `has_question(qs, id)`).
pub open spec fn question_row(qs: Seq<Question>, id: u128) -> Question {
    qs[choose|i: int| 0 <= i < qs.len() && qs[i].uuid == id]
}

/// With unique keys, the question at a position holding `id` is the question keyed by `id`.
pub proof fn lemma_question_row_at(qs: Seq<Question>, id: u128, i: int)
    requires
        question_ids_unique(qs),
        0 <= i < qs.len(),
        qs[i].uuid == id,
    ensures
        question_row(qs, id) == qs[i],
        has_question(qs, id),
{
    let j = choose|j: int| 0 <= j < qs.len() && qs[j].uuid == id;
    assert(qs[j].uuid == qs[i].uuid);
}

/// The questions with the question keyed by `id` moved to `state`.
pub open spec fn set_state(qs: Seq<Question>, id: u128, state: PoolState) -> Seq<Question> {
    qs.map_values(|q: Question| if q.uuid == id { Question { state: state, ..q } } else { q })
}

/// The questions of `bucket` that are in the pool, in table order.
pub open spec fn in_pool(qs: Seq<Question>, bucket: u128) -> Seq<Question>
    decreases qs.len(),
{
    if qs.len() == 0 {
        Seq::empty()
    } else {
        let rest = in_pool(qs.drop_last(), bucket);
        let q = qs.last();
        if q.bucket_uuid == bucket && q.state == PoolState::InPool {
            rest.push(q)
        } else {
            rest
        }
    }
}

/// The questions of `bucket`, whatever their state, in table order.
pub open spec fn in_bucket(qs: Seq<Question>, bucket: u128) -> Seq<Question>
    decreases qs.len(),
{
    if qs.len() == 0 {
        Seq::empty()
    } else {
        let rest = in_bucket(qs.drop_last(), bucket);
        if qs.last().bucket_uuid == bucket {
            rest.push(qs.last())
        } else {
            rest
        }
    }
}

/// The keys of the questions that `user` marked, in the order of the marks.
pub open spec fn favorite_ids(favs: Seq<Favorite>, user: u128) -> Seq<u128>
    decreases favs.len(),
{
    if favs.len() == 0 {
        Seq::empty()
    } else {
        let rest = favorite_ids(favs.drop_last(), user);
        if favs.last().user_uuid == user {
            rest.push(favs.last().question_uuid)
        } else {
            rest
        }
    }
}

/// The marks after `fav` is added: a mark that is already there is not added again.
pub open spec fn add_mark(favs: Seq<Favorite>, fav: Favorite) -> Seq<Favorite> {
    if favs.contains(fav) {
        favs
    } else {
        favs.push(fav)
    }
}

/// A mark on `question`, by `user` where one is given, by anyone otherwise.
pub open spec fn marks(f: Favorite, question: u128, user: Option<u128>) -> bool {
    f.question_uuid == question && match user {
        Some(u) => f.user_uuid == u,
        None => true,
    }
}

/// The marks that `marks(_, question, user)` does not select, in order.
pub open spec fn favorites_without(favs: Seq<Favorite>, question: u128, user: Option<u128>) -> Seq<Favorite>
    decreases favs.len(),
{
    if favs.len() == 0 {
        Seq::empty()
    } else {
        let rest = favorites_without(favs.drop_last(), question, user);
        if marks(favs.last(), question, user) {
            rest
        } else {
            rest.push(favs.last())
        }
    }
}

/// Every mark that `favorites_without` keeps comes from `favs` and is not
/// selected, and a list without repeats stays without repeats.
pub proof fn lemma_favorites_without(favs: Seq<Favorite>, question: u128, user: Option<u128>)
    ensures
        forall|k: int|
            0 <= k < favorites_without(favs, question, user).len() ==> {
                let f = #[trigger] favorites_without(favs, question, user)[k];
                !marks(f, question, user) && favs.contains(f)
            },
        favs.no_duplicates() ==> favorites_without(favs, question, user).no_duplicates(),
    decreases favs.len(),
{
    if favs.len() > 0 {
        let init = favs.drop_last();
        lemma_favorites_without(init, question, user);
        let rest = favorites_without(init, question, user);
        let out = favorites_without(favs, question, user);
        assert forall|k: int| 0 <= k < out.len() implies {
            let f = #[trigger] out[k];
            !marks(f, question, user) && favs.contains(f)
        } by {
            if k < rest.len() {
                assert(out[k] == rest[k]);
                let j = choose|j: int| 0 <= j < init.len() && init[j] == rest[k];
                assert(favs[j] == init[j]);
            } else {
                assert(favs[favs.len() - 1] == out[k]);
            }
        }
        if favs.no_duplicates() {
            assert(init.no_duplicates()) by {
                assert forall|a: int, b: int| 0 <= a < init.len() && 0 <= b < init.len() && a != b
                    implies init[a] != init[b] by {
                    assert(init[a] == favs[a] && init[b] == favs[b]);
                }
            }
            if !marks(favs.last(), question, user) {
                assert(!rest.contains(favs.last())) by {
                    if rest.contains(favs.last()) {
                        let k = choose|k: int| 0 <= k < rest.len() && rest[k] == favs.last();
                        let j = choose|j: int| 0 <= j < init.len() && init[j] == rest[k];
                        assert(favs[j] == favs[favs.len() - 1]);
                    }
                }
                assert forall|a: int, b: int| 0 <= a < out.len() && 0 <= b < out.len() && a != b
                    implies out[a] != out[b] by {
                    if a < rest.len() && b < rest.len() {
                        assert(out[a] == rest[a] && out[b] == rest[b]);
                    } else if a < rest.len() {
                        assert(out[a] == rest[a]);
                    } else {
                        assert(out[b] == rest[b]);
                    }
                }
            }
        }
    }
}

/// Some mark by `user` is on the question keyed by `id`.
pub open spec fn marked_by(favs: Seq<Favorite>, user: u128, id: u128) -> bool {
    exists|j: int| 0 <= j < favs.len() && favs[j].user_uuid == user && #[trigger] favs[j].question_uuid == id
}

/// Every key in `favorite_ids(favs, user)` is the question of a mark by `user`.
pub proof fn lemma_favorite_ids(favs: Seq<Favorite>, user: u128)
    ensures
        forall|k: int|
            0 <= k < favorite_ids(favs, user).len() ==> marked_by(favs, user, #[trigger] favorite_ids(favs, user)[k]),
    decreases favs.len(),
{
    if favs.len() > 0 {
        let init = favs.drop_last();
        lemma_favorite_ids(init, user);
        let rest = favorite_ids(init, user);
        let out = favorite_ids(favs, user);
        assert forall|k: int| 0 <= k < out.len() implies marked_by(favs, user, #[trigger] out[k]) by {
            if k < rest.len() {
                assert(out[k] == rest[k]);
                assert(marked_by(init, user, rest[k]));
                let j = choose|j: int| 0 <= j < init.len() && init[j].user_uuid == user && #[trigger] init[j].question_uuid == rest[k];
                assert(favs[j] == init[j]);
            } else {
                assert(favs[favs.len() - 1].question_uuid == out[k]);
            }
        }
    }
}

/// What `checkout` does to the questions: an unknown key gives `NotFound`, a
/// question already out gives `Conflict`, both changing nothing; a question
/// in the pool is moved out.
pub open spec fn checkout_step(before: Seq<Question>, after: Seq<Question>, id: u128, r: Result<(), ErrorKind>) -> bool {
    if !has_question(before, id) {
        r == Err::<(), ErrorKind>(ErrorKind::NotFound) && after == before
    } else if question_row(before, id).state == PoolState::CheckedOut {
        r == Err::<(), ErrorKind>(ErrorKind::Conflict) && after == before
    } else {
        r == Ok::<(), ErrorKind>(()) && after == set_state(before, id, PoolState::CheckedOut)
    }
}

/// What `return_to_pool` does to the questions: an unknown key gives
/// `NotFound` and changes nothing; otherwise the question is in the pool
/// afterwards, whatever its state was.
pub open spec fn return_step(before: Seq<Question>, after: Seq<Question>, id: u128, r: Result<(), ErrorKind>) -> bool {
    if !has_question(before, id) {
        r == Err::<(), ErrorKind>(ErrorKind::NotFound) && after == before
    } else {
        r == Ok::<(), ErrorKind>(()) && after == set_state(before, id, PoolState::InPool)
    }
}

impl QuestionPool {
    /// The bucket keys.
    pub closed spec fn buckets(&self) -> Seq<u128> {
        self.buckets@
    }

    /// The questions, in table order.
    pub closed spec fn questions(&self) -> Seq<Question> {
        self.questions@
    }

    /// The favorites index.
    pub closed spec fn favorites(&self) -> Seq<Favorite> {
        self.favorites@
    }

    /// The pool's invariant: keys are unique, every question lies in a known
    /// bucket, every mark is held once and names a known question.
    pub open spec fn wf(&self) -> bool {
        &&& self.buckets().no_duplicates()
        &&& question_ids_unique(self.questions())
        &&& forall|i: int|
            0 <= i < self.questions().len() ==> self.buckets().contains(#[trigger] self.questions()[i].bucket_uuid)
        &&& self.favorites().no_duplicates()
        &&& forall|k: int|
            0 <= k < self.favorites().len() ==> has_question(self.questions(), #[trigger] self.favorites()[k].question_uuid)
    }

    /// An empty pool.
    pub fn new() -> (r: QuestionPool)
        ensures
            r.wf(),
            r.buckets() == Seq::<u128>::empty(),
            r.questions() == Seq::<Question>::empty(),
            r.favorites() == Seq::<Favorite>::empty(),
    {
        QuestionPool { buckets: Vec::new(), questions: Vec::new(), favorites: Vec::new() }
    }

    fn has_bucket(&self, bucket: u128) -> (r: bool)
        ensures
            r == self.buckets().contains(bucket),
    {
        let mut i: usize = 0;
        while i < self.buckets.len()
            invariant
                i <= self.buckets@.len(),
                forall|k: int| 0 <= k < i ==> self.buckets@[k] != bucket,
            decreases self.buckets@.len() - i,
        {
            if self.buckets[i] == bucket {
                return true;
            }
            i += 1;
        }
        false
    }

    fn find(&self, id: u128) -> (r: Option<usize>)
        ensures
            match r {
                Some(i) => i < self.questions().len() && self.questions()[i as int].uuid == id,
                None => !has_question(self.questions(), id),
            },
    {
        let mut i: usize = 0;
        while i < self.questions.len()
            invariant
                i <= self.questions@.len(),
                forall|k: int| 0 <= k < i ==> self.questions@[k].uuid != id,
            decreases self.questions@.len() - i,
        {
            if self.questions[i].uuid == id {
                return Some(i);
            }
            i += 1;
        }
        None
    }

    /// Adds an empty bucket. A key that is already taken gives `Conflict`.
    pub fn create_bucket(&mut self, bucket_uuid: u128) -> (r: Result<(), ErrorKind>)
        requires
            old(self).wf(),
        ensures
            final(self).wf(),
            final(self).questions() == old(self).questions(),
            final(self).favorites() == old(self).favorites(),
            !old(self).buckets().contains(bucket_uuid) ==> r is Ok
                && final(self).buckets() == old(self).buckets().push(bucket_uuid),
            old(self).buckets().contains(bucket_uuid) ==> r == Err::<(), ErrorKind>(ErrorKind::Conflict)
                && final(self).buckets() == old(self).buckets(),
    {
        if self.has_bucket(bucket_uuid) {
            return Err(ErrorKind::Conflict);
        }
        self.buckets.push(bucket_uuid);
        proof {
            assert forall|i: int| 0 <= i < self.questions@.len() implies
                self.buckets@.contains(#[trigger] self.questions@[i].bucket_uuid) by {
                assert(old(self).buckets@.contains(self.questions@[i].bucket_uuid));
                let j = choose|j: int| 0 <= j < old(self).buckets@.len() && old(self).buckets@[j] == self.questions@[i].bucket_uuid;
                assert(self.buckets@[j] == old(self).buckets@[j]);
            }
        }
        Ok(())
    }

    /// Adds a question to a known bucket, in the pool. An unknown bucket
    /// gives `NotFound`; a key that is already taken gives `Conflict`.
    pub fn create_question(&mut self, uuid: u128, bucket_uuid: u128, author_uuid: Option<u128>) -> (r: Result<Question, ErrorKind>)
        requires
            old(self).wf(),
        ensures
            final(self).wf(),
            final(self).buckets() == old(self).buckets(),
            final(self).favorites() == old(self).favorites(),
            !old(self).buckets().contains(bucket_uuid) ==> r == Err::<Question, ErrorKind>(ErrorKind::NotFound)
                && final(self).questions() == old(self).questions(),
            old(self).buckets().contains(bucket_uuid) && has_question(old(self).questions(), uuid)
                ==> r == Err::<Question, ErrorKind>(ErrorKind::Conflict) && final(self).questions() == old(self).questions(),
            old(self).buckets().contains(bucket_uuid) && !has_question(old(self).questions(), uuid) ==> {
                let q = Question { uuid: uuid, bucket_uuid: bucket_uuid, author_uuid: author_uuid, state: PoolState::InPool };
                r == Ok::<Question, ErrorKind>(q) && final(self).questions() == old(self).questions().push(q)
            },
    {
        if !self.has_bucket(bucket_uuid) {
            return Err(ErrorKind::NotFound);
        }
        if self.find(uuid).is_some() {
            return Err(ErrorKind::Conflict);
        }
        let q = Question { uuid, bucket_uuid, author_uuid, state: PoolState::InPool };
        let ghost before = self.questions@;
        self.questions.push(q);
        proof {
            assert forall|k: int| 0 <= k < self.favorites@.len() implies
                has_question(self.questions@, #[trigger] self.favorites@[k].question_uuid) by {
                let j = choose|j: int| 0 <= j < before.len() && before[j].uuid == self.favorites@[k].question_uuid;
                assert(self.questions@[j] == before[j]);
            }
        }
        Ok(q)
    }

    /// The question keyed by `uuid`.
    pub fn get_question(&self, uuid: u128) -> (r: Result<Question, ErrorKind>)
        requires
            self.wf(),
        ensures
            has_question(self.questions(), uuid) ==> r == Ok::<Question, ErrorKind>(question_row(self.questions(), uuid)),
            !has_question(self.questions(), uuid) ==> r == Err::<Question, ErrorKind>(ErrorKind::NotFound),
    {
        match self.find(uuid) {
            None => Err(ErrorKind::NotFound),
            Some(i) => {
                proof { lemma_question_row_at(self.questions@, uuid, i as int); }
                Ok(self.questions[i])
            }
        }
    }

    /// Moves the question at position `i` to `state`, keeping the invariant.
    fn put_state(&mut self, i: usize, state: PoolState)
        requires
            old(self).wf(),
            i < old(self).questions().len(),
        ensures
            final(self).wf(),
            final(self).buckets() == old(self).buckets(),
            final(self).favorites() == old(self).favorites(),
            final(self).questions() == set_state(old(self).questions(), old(self).questions()[i as int].uuid, state),
    {
        let ghost before = self.questions@;
        let ghost id = before[i as int].uuid;
        self.questions[i].state = state;
        proof {
            assert(self.questions@ =~= set_state(before, id, state));
            assert forall|k: int| 0 <= k < self.favorites@.len() implies
                has_question(self.questions@, #[trigger] self.favorites@[k].question_uuid) by {
                let j = choose|j: int| 0 <= j < before.len() && before[j].uuid == self.favorites@[k].question_uuid;
                assert(self.questions@[j].uuid == before[j].uuid);
            }
        }
    }

    /// Takes a question out of the pool for an answering workflow, in one
    /// conditional update: only a question in the pool can be taken, so two
    /// workflows never hold the same question.
    pub fn checkout(&mut self, uuid: u128) -> (r: Result<(), ErrorKind>)
        requires
            old(self).wf(),
        ensures
            final(self).wf(),
            final(self).buckets() == old(self).buckets(),
            final(self).favorites() == old(self).favorites(),
            checkout_step(old(self).questions(), final(self).questions(), uuid, r),
    {
        match self.find(uuid) {
            None => Err(ErrorKind::NotFound),
            Some(i) => {
                proof { lemma_question_row_at(self.questions@, uuid, i as int); }
                if self.questions[i].state == PoolState::CheckedOut {
                    return Err(ErrorKind::Conflict);
                }
                self.put_state(i, PoolState::CheckedOut);
                Ok(())
            }
        }
    }

    /// Puts a question back in the pool. A question that is already there
    /// stays as it is, without an error, so that a caller can retry.
    pub fn return_to_pool(&mut self, uuid: u128) -> (r: Result<(), ErrorKind>)
        requires
            old(self).wf(),
        ensures
            final(self).wf(),
            final(self).buckets() == old(self).buckets(),
            final(self).favorites() == old(self).favorites(),
            return_step(old(self).questions(), final(self).questions(), uuid, r),
    {
        match self.find(uuid) {
            None => Err(ErrorKind::NotFound),
            Some(i) => {
                self.put_state(i, PoolState::InPool);
                Ok(())
            }
        }
    }

    /// The questions of `bucket_uuid` that are in the pool, in table order.
    fn collect_in_pool(&self, bucket_uuid: u128) -> (r: Vec<Question>)
        ensures
            r@ == in_pool(self.questions(), bucket_uuid),
    {
        let mut found: Vec<Question> = Vec::new();
        let mut i: usize = 0;
        while i < self.questions.len()
            invariant
                i <= self.questions@.len(),
                found@ == in_pool(self.questions@.take(i as int), bucket_uuid),
            decreases self.questions@.len() - i,
        {
            assert(self.questions@.take(i + 1).drop_last() =~= self.questions@.take(i as int));
            let q = self.questions[i];
            if q.bucket_uuid == bucket_uuid && q.state == PoolState::InPool {
                found.push(q);
            }
            i += 1;
        }
        assert(self.questions@.take(i as int) =~= self.questions@);
        found
    }

    /// Picks a question of `bucket_uuid` that is in the pool: the one at
    /// position `pick` modulo their number, so that a uniformly drawn `pick`
    /// picks near-uniformly. The question stays in the pool; `checkout` takes
    /// it. An unknown bucket gives `NotFound`, a bucket with no question in
    /// the pool `EmptyPool`.
    pub fn select_random(&self, bucket_uuid: u128, pick: u64) -> (r: Result<Question, ErrorKind>)
        requires
            self.wf(),
        ensures
            !self.buckets().contains(bucket_uuid) ==> r == Err::<Question, ErrorKind>(ErrorKind::NotFound),
            self.buckets().contains(bucket_uuid) && in_pool(self.questions(), bucket_uuid).len() == 0
                ==> r == Err::<Question, ErrorKind>(ErrorKind::EmptyPool),
            self.buckets().contains(bucket_uuid) && in_pool(self.questions(), bucket_uuid).len() > 0 ==> {
                let eligible = in_pool(self.questions(), bucket_uuid);
                r == Ok::<Question, ErrorKind>(eligible[pick as int % eligible.len() as int])
            },
    {
        if !self.has_bucket(bucket_uuid) {
            return Err(ErrorKind::NotFound);
        }
        let eligible = self.collect_in_pool(bucket_uuid);
        if eligible.len() == 0 {
            return Err(ErrorKind::EmptyPool);
        }
        let k: usize = (pick % (eligible.len() as u64)) as usize;
        Ok(eligible[k])
    }

    /// Selects as `select_random` does and checks the selected question out in
    /// the same update, so that no other workflow can be handed it in between.
    /// Returns the question as it is stored afterwards.
    pub fn select_and_checkout(&mut self, bucket_uuid: u128, pick: u64) -> (r: Result<Question, ErrorKind>)
        requires
            old(self).wf(),
        ensures
            final(self).wf(),
            final(self).buckets() == old(self).buckets(),
            final(self).favorites() == old(self).favorites(),
            !old(self).buckets().contains(bucket_uuid) ==> r == Err::<Question, ErrorKind>(ErrorKind::NotFound)
                && final(self).questions() == old(self).questions(),
            old(self).buckets().contains(bucket_uuid) && in_pool(old(self).questions(), bucket_uuid).len() == 0
                ==> r == Err::<Question, ErrorKind>(ErrorKind::EmptyPool) && final(self).questions() == old(self).questions(),
            old(self).buckets().contains(bucket_uuid) && in_pool(old(self).questions(), bucket_uuid).len() > 0 ==> {
                let eligible = in_pool(old(self).questions(), bucket_uuid);
                let q = eligible[pick as int % eligible.len() as int];
                &&& r == Ok::<Question, ErrorKind>(Question { state: PoolState::CheckedOut, ..q })
                &&& final(self).questions() == set_state(old(self).questions(), q.uuid, PoolState::CheckedOut)
            },
    {
        let q = match self.select_random(bucket_uuid, pick) {
            Ok(q) => q,
            Err(e) => return Err(e),
        };
        proof { lemma_selection_is_in_pool(self.questions@, bucket_uuid, pick); }
        let i = match self.find(q.uuid) {
            Some(i) => i,
            None => return Err(ErrorKind::NotFound),
        };
        proof { lemma_question_row_at(self.questions@, q.uuid, i as int); }
        self.put_state(i, PoolState::CheckedOut);
        Ok(Question { state: PoolState::CheckedOut, ..q })
    }

    /// The number of questions of `bucket_uuid` that are in the pool.
    pub fn count_in_pool(&self, bucket_uuid: u128) -> (r: Result<u64, ErrorKind>)
        requires
            self.wf(),
        ensures
            !self.buckets().contains(bucket_uuid) ==> r == Err::<u64, ErrorKind>(ErrorKind::NotFound),
            self.buckets().contains(bucket_uuid) ==> r == Ok::<u64, ErrorKind>(in_pool(self.questions(), bucket_uuid).len() as u64),
    {
        if !self.has_bucket(bucket_uuid) {
            return Err(ErrorKind::NotFound);
        }
        let eligible = self.collect_in_pool(bucket_uuid);
        Ok(eligible.len() as u64)
    }

    /// All questions of `bucket_uuid`, whatever their state, in table order.
    pub fn get_questions_for_bucket(&self, bucket_uuid: u128) -> (r: Result<Vec<Question>, ErrorKind>)
        requires
            self.wf(),
        ensures
            !self.buckets().contains(bucket_uuid) ==> r is Err && r->Err_0 == ErrorKind::NotFound,
            self.buckets().contains(bucket_uuid) ==> r is Ok && r->Ok_0@ == in_bucket(self.questions(), bucket_uuid),
    {
        if !self.has_bucket(bucket_uuid) {
            return Err(ErrorKind::NotFound);
        }
        let mut found: Vec<Question> = Vec::new();
        let mut i: usize = 0;
        while i < self.questions.len()
            invariant
                i <= self.questions@.len(),
                found@ == in_bucket(self.questions@.take(i as int), bucket_uuid),
            decreases self.questions@.len() - i,
        {
            assert(self.questions@.take(i + 1).drop_last() =~= self.questions@.take(i as int));
            if self.questions[i].bucket_uuid == bucket_uuid {
                found.push(self.questions[i]);
            }
            i += 1;
        }
        assert(self.questions@.take(i as int) =~= self.questions@);
        Ok(found)
    }

    fn has_favorite(&self, fav: Favorite) -> (r: bool)
        ensures
            r == self.favorites().contains(fav),
    {
        let mut i: usize = 0;
        while i < self.favorites.len()
            invariant
                i <= self.favorites@.len(),
                forall|k: int| 0 <= k < i ==> self.favorites@[k] != fav,
            decreases self.favorites@.len() - i,
        {
            if self.favorites[i] == fav {
                return true;
            }
            i += 1;
        }
        false
    }

    /// The marks that `marks(_, question, user)` does not select.
    fn favorites_without(&self, question: u128, user: Option<u128>) -> (r: Vec<Favorite>)
        ensures
            r@ == favorites_without(self.favorites(), question, user),
    {
        let mut kept: Vec<Favorite> = Vec::new();
        let mut i: usize = 0;
        while i < self.favorites.len()
            invariant
                i <= self.favorites@.len(),
                kept@ == favorites_without(self.favorites@.take(i as int), question, user),
            decreases self.favorites@.len() - i,
        {
            assert(self.favorites@.take(i + 1).drop_last() =~= self.favorites@.take(i as int));
            let f = self.favorites[i];
            let selected = f.question_uuid == question && match user {
                Some(u) => f.user_uuid == u,
                None => true,
            };
            if !selected {
                kept.push(f);
            }
            i += 1;
        }
        assert(self.favorites@.take(i as int) =~= self.favorites@);
        kept
    }

    /// Marks the question as a favorite of the account. Marking twice keeps
    /// one mark. An unknown question or account gives `NotFound`.
    pub fn favorite(&mut self, question_uuid: u128, user_uuid: u128, users: &UserTable) -> (r: Result<(), ErrorKind>)
        requires
            old(self).wf(),
        ensures
            final(self).wf(),
            final(self).buckets() == old(self).buckets(),
            final(self).questions() == old(self).questions(),
            !has_question(old(self).questions(), question_uuid) || !has_user(users@, user_uuid)
                ==> r == Err::<(), ErrorKind>(ErrorKind::NotFound) && final(self).favorites() == old(self).favorites(),
            has_question(old(self).questions(), question_uuid) && has_user(users@, user_uuid) ==> {
                &&& r == Ok::<(), ErrorKind>(())
                &&& final(self).favorites() == add_mark(
                    old(self).favorites(),
                    Favorite { question_uuid: question_uuid, user_uuid: user_uuid },
                )
            },
    {
        if self.find(question_uuid).is_none() || !users.contains(user_uuid) {
            return Err(ErrorKind::NotFound);
        }
        let fav = Favorite { question_uuid, user_uuid };
        if self.has_favorite(fav) {
            return Ok(());
        }
        let ghost before = self.favorites@;
        self.favorites.push(fav);
        proof {
            assert forall|a: int, b: int| 0 <= a < self.favorites@.len() && 0 <= b < self.favorites@.len() && a != b
                implies self.favorites@[a] != self.favorites@[b] by {
                if a < before.len() && b < before.len() {
                    assert(self.favorites@[a] == before[a] && self.favorites@[b] == before[b]);
                } else if a < before.len() {
                    assert(self.favorites@[a] == before[a]);
                } else {
                    assert(self.favorites@[b] == before[b]);
                }
            }
            assert forall|k: int| 0 <= k < self.favorites@.len() implies
                has_question(self.questions@, #[trigger] self.favorites@[k].question_uuid) by {
                if k < before.len() {
                    assert(self.favorites@[k] == before[k]);
                }
            }
        }
        Ok(())
    }

    /// Removes the account's mark from the question. Removing a mark that is
    /// not there is no error. An unknown question or account gives `NotFound`.
    pub fn unfavorite(&mut self, question_uuid: u128, user_uuid: u128, users: &UserTable) -> (r: Result<(), ErrorKind>)
        requires
            old(self).wf(),
        ensures
            final(self).wf(),
            final(self).buckets() == old(self).buckets(),
            final(self).questions() == old(self).questions(),
            !has_question(old(self).questions(), question_uuid) || !has_user(users@, user_uuid)
                ==> r == Err::<(), ErrorKind>(ErrorKind::NotFound) && final(self).favorites() == old(self).favorites(),
            has_question(old(self).questions(), question_uuid) && has_user(users@, user_uuid)
                ==> r == Ok::<(), ErrorKind>(())
                && final(self).favorites() == favorites_without(old(self).favorites(), question_uuid, Some(user_uuid)),
    {
        if self.find(question_uuid).is_none() || !users.contains(user_uuid) {
            return Err(ErrorKind::NotFound);
        }
        let kept = self.favorites_without(question_uuid, Some(user_uuid));
        let ghost before = self.favorites@;
        proof { lemma_favorites_without(before, question_uuid, Some(user_uuid)); }
        self.favorites = kept;
        proof {
            assert forall|k: int| 0 <= k < self.favorites@.len() implies
                has_question(self.questions@, #[trigger] self.favorites@[k].question_uuid) by {
                let j = choose|j: int| 0 <= j < before.len() && before[j] == self.favorites@[k];
            }
        }
        Ok(())
    }

    /// The keys of the questions that the account marked.
    pub fn list_favorites(&self, user_uuid: u128, users: &UserTable) -> (r: Result<Vec<u128>, ErrorKind>)
        requires
            self.wf(),
        ensures
            !has_user(users@, user_uuid) ==> r is Err && r->Err_0 == ErrorKind::NotFound,
            has_user(users@, user_uuid) ==> r is Ok && r->Ok_0@ == favorite_ids(self.favorites(), user_uuid),
    {
        if !users.contains(user_uuid) {
            return Err(ErrorKind::NotFound);
        }
        let mut ids: Vec<u128> = Vec::new();
        let mut i: usize = 0;
        while i < self.favorites.len()
            invariant
                i <= self.favorites@.len(),
                ids@ == favorite_ids(self.favorites@.take(i as int), user_uuid),
            decreases self.favorites@.len() - i,
        {
            assert(self.favorites@.take(i + 1).drop_last() =~= self.favorites@.take(i as int));
            if self.favorites[i].user_uuid == user_uuid {
                ids.push(self.favorites[i].question_uuid);
            }
            i += 1;
        }
        assert(self.favorites@.take(i as int) =~= self.favorites@);
        Ok(ids)
    }

    /// Removes the question, whatever its state, together with every mark on
    /// it, and hands it back.
    pub fn delete_question(&mut self, uuid: u128) -> (r: Result<Question, ErrorKind>)
        requires
            old(self).wf(),
        ensures
            final(self).wf(),
            final(self).buckets() == old(self).buckets(),
            !has_question(old(self).questions(), uuid) ==> r == Err::<Question, ErrorKind>(ErrorKind::NotFound)
                && final(self).questions() == old(self).questions()
                && final(self).favorites() == old(self).favorites(),
            has_question(old(self).questions(), uuid) ==> exists|i: int|
                0 <= i < old(self).questions().len() && old(self).questions()[i].uuid == uuid
                    && r == Ok::<Question, ErrorKind>(old(self).questions()[i])
                    && final(self).questions() == old(self).questions().remove(i)
                    && final(self).favorites() == favorites_without(old(self).favorites(), uuid, None),
    {
        match self.find(uuid) {
            None => Err(ErrorKind::NotFound),
            Some(i) => {
                let ghost qs = self.questions@;
                let ghost favs = self.favorites@;
                let kept = self.favorites_without(uuid, None);
                let q = self.questions.remove(i);
                self.favorites = kept;
                proof {
                    lemma_favorites_without(favs, uuid, None);
                    let after = self.questions@;
                    assert(after =~= qs.remove(i as int));
                    assert forall|a: int, b: int|
                        0 <= a < after.len() && 0 <= b < after.len() && #[trigger] after[a].uuid == #[trigger] after[b].uuid
                        implies a == b by {
                        let oa = if a < i { a } else { a + 1 };
                        let ob = if b < i { b } else { b + 1 };
                        assert(after[a] == qs[oa] && after[b] == qs[ob]);
                    }
                    assert forall|k: int| 0 <= k < after.len() implies
                        self.buckets@.contains(#[trigger] after[k].bucket_uuid) by {
                        let ok = if k < i { k } else { k + 1 };
                        assert(after[k] == qs[ok]);
                    }
                    assert forall|k: int| 0 <= k < self.favorites@.len() implies
                        has_question(after, #[trigger] self.favorites@[k].question_uuid) by {
                        let f = self.favorites@[k];
                        let j = choose|j: int| 0 <= j < favs.len() && favs[j] == f;
                        assert(has_question(qs, favs[j].question_uuid));
                        let m = choose|m: int| 0 <= m < qs.len() && qs[m].uuid == f.question_uuid;
                        assert(m != i);
                        let n = if m < i { m } else { m - 1 };
                        assert(after[n] == qs[m]);
                    }
                }
                Ok(q)
            }
        }
    }
}

} // verus!

verus! {

/// Moving a question to a state keeps the keys, and the question keyed by
/// `id` is then the old one in that state.
pub proof fn lemma_set_state_row(qs: Seq<Question>, id: u128, state: PoolState)
    requires
        question_ids_unique(qs),
        has_question(qs, id),
    ensures
        question_ids_unique(set_state(qs, id, state)),
        has_question(set_state(qs, id, state), id),
        question_row(set_state(qs, id, state), id) == (Question { state: state, ..question_row(qs, id) }),
{
    let after = set_state(qs, id, state);
    let i = choose|i: int| 0 <= i < qs.len() && qs[i].uuid == id;
    lemma_question_row_at(qs, id, i);
    assert forall|a: int, b: int|
        0 <= a < after.len() && 0 <= b < after.len() && #[trigger] after[a].uuid == #[trigger] after[b].uuid
        implies a == b by {
        assert(after[a].uuid == qs[a].uuid);
        assert(after[b].uuid == qs[b].uuid);
    }
    assert(after[i].uuid == id);
    lemma_question_row_at(after, id, i);
}

/// Checkout is exclusive: right after a checkout of a question, a second
/// checkout of it gives `Conflict`, whether or not the first succeeded; once
/// the question is returned, a checkout succeeds again.
pub proof fn lemma_checkout_is_exclusive(
    q0: Seq<Question>,
    q1: Seq<Question>,
    q2: Seq<Question>,
    q3: Seq<Question>,
    q4: Seq<Question>,
    id: u128,
    first: Result<(), ErrorKind>,
    second: Result<(), ErrorKind>,
    back: Result<(), ErrorKind>,
    again: Result<(), ErrorKind>,
)
    requires
        question_ids_unique(q0),
        has_question(q0, id),
        checkout_step(q0, q1, id, first),
        checkout_step(q1, q2, id, second),
        return_step(q2, q3, id, back),
        checkout_step(q3, q4, id, again),
    ensures
        second == Err::<(), ErrorKind>(ErrorKind::Conflict),
        back == Ok::<(), ErrorKind>(()),
        again == Ok::<(), ErrorKind>(()),
        question_row(q4, id).state == PoolState::CheckedOut,
{
    lemma_set_state_row(q0, id, PoolState::CheckedOut);
    lemma_set_state_row(q2, id, PoolState::InPool);
    lemma_set_state_row(q3, id, PoolState::CheckedOut);
}

/// Returning a question that is already in the pool succeeds and changes nothing.
pub proof fn lemma_return_in_pool_is_no_op(before: Seq<Question>, after: Seq<Question>, id: u128, r: Result<(), ErrorKind>)
    requires
        question_ids_unique(before),
        has_question(before, id),
        question_row(before, id).state == PoolState::InPool,
        return_step(before, after, id, r),
    ensures
        r == Ok::<(), ErrorKind>(()),
        after == before,
{
    let i = choose|i: int| 0 <= i < before.len() && before[i].uuid == id;
    lemma_question_row_at(before, id, i);
    assert(after =~= before);
}

/// Every question that the pool of `bucket` lists is a question of the table,
/// in `bucket`, and in the pool.
pub proof fn lemma_in_pool(qs: Seq<Question>, bucket: u128)
    ensures
        forall|k: int|
            0 <= k < in_pool(qs, bucket).len() ==> {
                let q = #[trigger] in_pool(qs, bucket)[k];
                q.state == PoolState::InPool && q.bucket_uuid == bucket && qs.contains(q)
            },
    decreases qs.len(),
{
    if qs.len() > 0 {
        let init = qs.drop_last();
        lemma_in_pool(init, bucket);
        let rest = in_pool(init, bucket);
        let out = in_pool(qs, bucket);
        assert forall|k: int| 0 <= k < out.len() implies {
            let q = #[trigger] out[k];
            q.state == PoolState::InPool && q.bucket_uuid == bucket && qs.contains(q)
        } by {
            if k < rest.len() {
                assert(out[k] == rest[k]);
                let j = choose|j: int| 0 <= j < init.len() && init[j] == rest[k];
                assert(qs[j] == init[j]);
            } else {
                assert(qs[qs.len() - 1] == out[k]);
            }
        }
    }
}

/// Selection never hands out a question that is checked out: whatever the
/// pick, the selected question is stored in the bucket and in the pool.
pub proof fn lemma_selection_is_in_pool(qs: Seq<Question>, bucket: u128, pick: u64)
    requires
        question_ids_unique(qs),
        in_pool(qs, bucket).len() > 0,
    ensures
        ({
            let eligible = in_pool(qs, bucket);
            let q = eligible[pick as int % eligible.len() as int];
            &&& q.bucket_uuid == bucket
            &&& has_question(qs, q.uuid)
            &&& question_row(qs, q.uuid) == q
            &&& q.state == PoolState::InPool
        }),
{
    let eligible = in_pool(qs, bucket);
    let k = pick as int % eligible.len() as int;
    lemma_in_pool(qs, bucket);
    let q = eligible[k];
    assert(qs.contains(q));
    let i = choose|i: int| 0 <= i < qs.len() && qs[i] == q;
    lemma_question_row_at(qs, q.uuid, i);
}

/// Marking a question twice leaves exactly one mark; removing a mark twice
/// leaves none, and the second removal changes nothing.
pub proof fn lemma_marks_are_idempotent(favs: Seq<Favorite>, question_uuid: u128, user_uuid: u128)
    requires
        favs.no_duplicates(),
    ensures
        ({
            let fav = Favorite { question_uuid: question_uuid, user_uuid: user_uuid };
            let once = add_mark(favs, fav);
            let twice = add_mark(once, fav);
            &&& twice == once
            &&& exists|k: int| 0 <= k < twice.len() && twice[k] == fav
                && forall|j: int| 0 <= j < twice.len() && #[trigger] twice[j] == fav ==> j == k
        }),
        ({
            let fav = Favorite { question_uuid: question_uuid, user_uuid: user_uuid };
            let once = favorites_without(favs, question_uuid, Some(user_uuid));
            let twice = favorites_without(once, question_uuid, Some(user_uuid));
            &&& twice == once
            &&& !twice.contains(fav)
        }),
{
    let fav = Favorite { question_uuid: question_uuid, user_uuid: user_uuid };
    let once = add_mark(favs, fav);
    assert(once.contains(fav)) by {
        if !favs.contains(fav) {
            assert(once[favs.len() as int] == fav);
        }
    }
    assert(once.no_duplicates()) by {
        if !favs.contains(fav) {
            assert forall|a: int, b: int| 0 <= a < once.len() && 0 <= b < once.len() && a != b
                implies once[a] != once[b] by {
                if a < favs.len() && b < favs.len() {
                    assert(once[a] == favs[a] && once[b] == favs[b]);
                } else if a < favs.len() {
                    assert(once[a] == favs[a]);
                } else {
                    assert(once[b] == favs[b]);
                }
            }
        }
    }
    let k = choose|k: int| 0 <= k < once.len() && once[k] == fav;
    assert forall|j: int| 0 <= j < once.len() && #[trigger] once[j] == fav implies j == k by {
        assert(once[j] == once[k]);
    }
    assert(add_mark(once, fav) == once);
    assert(0 <= k < once.len() && once[k] == fav && forall|j: int| 0 <= j < once.len() && #[trigger] once[j] == fav ==> j == k);

    let removed = favorites_without(favs, question_uuid, Some(user_uuid));
    lemma_favorites_without(favs, question_uuid, Some(user_uuid));
    lemma_nothing_to_remove(removed, question_uuid, Some(user_uuid));
}

/// Where no mark is selected, `favorites_without` keeps the list as it is.
pub proof fn lemma_nothing_to_remove(favs: Seq<Favorite>, question: u128, user: Option<u128>)
    requires
        forall|k: int| 0 <= k < favs.len() ==> !marks(#[trigger] favs[k], question, user),
    ensures
        favorites_without(favs, question, user) == favs,
    decreases favs.len(),
{
    if favs.len() > 0 {
        let init = favs.drop_last();
        assert forall|k: int| 0 <= k < init.len() implies !marks(#[trigger] init[k], question, user) by {
            assert(init[k] == favs[k]);
        }
        lemma_nothing_to_remove(init, question, user);
        assert(!marks(favs[favs.len() - 1], question, user));
        assert(init.push(favs.last()) =~= favs);
    }
}

/// Once a question is deleted, together with the marks on it, no account's
/// list of favorites names it.
pub proof fn lemma_delete_clears_favorites(favs: Seq<Favorite>, question_uuid: u128, user_uuid: u128)
    ensures
        !favorite_ids(favorites_without(favs, question_uuid, None), user_uuid).contains(question_uuid),
{
    let after = favorites_without(favs, question_uuid, None);
    lemma_favorites_without(favs, question_uuid, None);
    lemma_favorite_ids(after, user_uuid);
    let ids = favorite_ids(after, user_uuid);
    if ids.contains(question_uuid) {
        let k = choose|k: int| 0 <= k < ids.len() && ids[k] == question_uuid;
        assert(marked_by(after, user_uuid, ids[k]));
        let j = choose|j: int| 0 <= j < after.len() && after[j].user_uuid == user_uuid && #[trigger] after[j].question_uuid == ids[k];
        assert(!marks(after[j], question_uuid, None));
    }
}

} // verus!
