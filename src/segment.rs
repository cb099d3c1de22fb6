//! Segment descriptors, stream kinds and the recorder's error type.

use vstd::prelude::*;
use crate::db::DatabaseError;

verus! {

/// One cached media segment: where it came from (or its file name, when it was
/// read back from disk), its sequence number and its size in bytes.
/// Every segment weighs exactly one cache unit.
#[derive(Clone, Debug)]
pub struct TsEntry {
    pub url: String,
    pub sequence: u64,
    pub size: u64,
}

#[derive(Clone, Copy, PartialEq, Eq, Debug, Structural)]
pub enum StreamType {
    TS,
    FMP4,
}

#[derive(Clone, Debug)]
pub enum RecorderError {
    NotStarted,
    EmptyCache,
    M3u8ParseFailed,
    InvalidM3u8Url { url: String },
    EmptyHeader,
    InvalidTimestamp,
    InvalidPlaylist,
    InvalidDBOP { err: DatabaseError },
    ClientError { message: String },
}

/// A segment of one fetch cycle: its sequence number, its resolved URL, the
/// file it is written to, and the byte count of its download (`None` when the
/// download failed).
#[derive(Clone, Debug)]
pub struct Fetch {
    pub sequence: u64,
    pub url: String,
    pub path: String,
    pub size: Option<u64>,
}

/// A regular file of a session directory: its name and its length.
#[derive(Clone, Debug)]
pub struct DirFile {
    pub name: String,
    pub size: u64,
}

pub open spec fn strictly_increasing(es: Seq<TsEntry>) -> bool {
    forall|i: int, j: int| 0 <= i < j < es.len() ==> es[i].sequence < es[j].sequence
}

pub open spec fn sequences(es: Seq<TsEntry>) -> Seq<u64> {
    es.map_values(|e: TsEntry| e.sequence)
}

/// The bytes of all the segments.
pub open spec fn total_size(es: Seq<TsEntry>) -> nat
    decreases es.len(),
{
    if es.len() == 0 {
        0
    } else {
        total_size(es.drop_last()) + es.last().size as nat
    }
}

/// `n`, or `u64::MAX` where `n` does not fit.
pub open spec fn capped(n: nat) -> u64 {
    if n <= u64::MAX {
        n as u64
    } else {
        u64::MAX
    }
}

pub proof fn lemma_total_size_push(es: Seq<TsEntry>, e: TsEntry)
    ensures
        total_size(es.push(e)) == total_size(es) + e.size,
{
    assert(es.push(e).drop_last() =~= es);
}

pub proof fn lemma_capped_add(a: nat, b: u64)
    ensures
        capped(a + b as nat) == if capped(a) as nat + b > u64::MAX {
            u64::MAX
        } else {
            (capped(a) + b) as u64
        },
{
}

} // verus!
