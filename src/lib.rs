//! Account lockout and question rotation for a forum backend.
//!
//! The library keeps its records in in-memory tables whose methods are the
//! single, atomic updates that the storage layer performs: every state change
//! below happens inside one `&mut` call and is therefore a compare-and-set on
//! the row it touches.

pub mod clock;

pub mod error;
pub mod forum;
pub mod identifiers;
pub mod question;
pub mod user;
