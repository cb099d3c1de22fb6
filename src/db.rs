//! Rows of the persistent store and the decisions taken around its queries.

use vstd::prelude::*;
use crate::text::{chars_of, contains, contains_seq};

verus! {

#[derive(Clone, Debug)]
pub enum DatabaseError {
    InsertError,
    NotFoundError,
    InvalidCookiesError,
    DBError { message: String },
    SQLError { sql: String },
}

/// A registered recorder: its room and when it was added.
#[derive(Clone, Debug)]
pub struct RecorderRow {
    pub room_id: u64,
    pub created_at: String,
}

#[derive(Clone, Debug)]
pub struct AccountRow {
    pub uid: u64,
    pub name: String,
    pub avatar: String,
    pub csrf: String,
    pub cookies: String,
    pub created_at: String,
}

#[derive(Clone, Debug)]
pub struct MessageRow {
    pub id: i64,
    pub title: String,
    pub content: String,
    pub read: u8,
    pub created_at: String,
}

/// One recorded session of a room; `live_id` is the session timestamp.
#[derive(Clone, Debug)]
pub struct RecordRow {
    pub live_id: u64,
    pub room_id: u64,
    pub title: String,
    pub length: i64,
    pub size: i64,
    pub created_at: String,
}

#[derive(Clone, Debug)]
pub struct VideoRow {
    pub id: i64,
    pub room_id: u64,
    pub cover: String,
    pub file: String,
    pub length: i64,
    pub size: i64,
    pub status: i64,
    pub bvid: String,
    pub title: String,
    pub desc: String,
    pub tags: String,
    pub area: i64,
    pub created_at: String,
}

pub open spec fn is_not_found(e: DatabaseError) -> bool {
    e matches DatabaseError::NotFoundError
}

/// A delete or update by key must touch exactly one row.
pub fn expect_one_row(rows_affected: u64) -> (r: Result<(), DatabaseError>)
    ensures
        rows_affected == 1 <==> r is Ok,
        r is Err ==> is_not_found(r->Err_0),
{
    if rows_affected != 1 {
        Err(DatabaseError::NotFoundError)
    } else {
        Ok(())
    }
}

/// What follows the insertion of a session record.
pub enum InsertFollowUp {
    /// The record was inserted: it is the result.
    Inserted { row: RecordRow },
    /// The session is registered already: the stored record is the result.
    FetchExisting { room_id: u64, live_id: u64 },
    /// The insertion failed otherwise.
    Failed { err: DatabaseError },
}

/// Whether a store error reports a duplicate key.
pub open spec fn is_duplicate_key(message: Seq<char>) -> bool {
    contains_seq(message, "UNIQUE constraint failed"@)
}

/// Decides, from the outcome of inserting `row` (`None` for success, else the
/// store's error message), what registering the session returns: the new row,
/// the stored one when the session exists already, or the error.
pub fn after_record_insert(row: RecordRow, error: Option<String>) -> (r: InsertFollowUp)
    ensures
        match error {
            None => r == InsertFollowUp::Inserted { row },
            Some(m) => if is_duplicate_key(m@) {
                r == InsertFollowUp::FetchExisting { room_id: row.room_id, live_id: row.live_id }
            } else {
                match r {
                    InsertFollowUp::Failed { err: DatabaseError::DBError { message } } => message
                        == m,
                    _ => false,
                }
            },
        },
{
    match error {
        None => InsertFollowUp::Inserted { row },
        Some(m) => {
            let cs = chars_of(m.as_str());
            let pat = chars_of("UNIQUE constraint failed");
            if contains(cs.as_slice(), pat.as_slice()) {
                InsertFollowUp::FetchExisting { room_id: row.room_id, live_id: row.live_id }
            } else {
                InsertFollowUp::Failed { err: DatabaseError::DBError { message: m } }
            }
        },
    }
}

} // verus!
