use vstd::prelude::*;

verus! {

/// A discussion forum: a titled container of threads.
pub struct Forum {
    pub id: i32,
    pub title: String,
    pub description: String,
}

/// The fields of a forum that is about to be created; the store assigns the id.
pub struct NewForum {
    pub title: String,
    pub description: String,
}

} // verus!
