//! Per-room session state: live/offline transitions and the segment cache.

use vstd::prelude::*;
use crate::fetch::{extract_timestamp, is_invalid_timestamp, is_invalid_url, resolved_url, segment_url,
    timestamp_digits_of, timestamp_spec};
use crate::listing::{
    file_sequence, first_for, fs_entries, is_listing_of, lemma_increasing_same_members,
    lemma_listing_empty, read_back,
};
use crate::text::{dec, last_component, last_component_of, push_decimal};
use crate::segment::{DirFile, RecorderError, 
    capped, lemma_capped_add, lemma_total_size_push, sequences, strictly_increasing, total_size,
    Fetch,
    StreamType, TsEntry,
};

verus! {

/// What a room-status poll reported.
pub enum RoomStatus {
    /// The status could not be fetched; the session is taken to be still live.
    Unreachable,
    /// The room reported its state; `play` is the play URL and stream kind,
    /// where one was resolved for a live room.
    Reported { live: bool, play: Option<(String, StreamType)> },
}

/// A change of live state worth telling the user about.
#[derive(Clone, Copy, PartialEq, Eq, Debug, Structural)]
pub enum Notice {
    Quiet,
    LiveStarted,
    LiveEnded,
}

/// All mutable state of one room's recording.
pub struct BiliRecorder {
    pub room_id: u64,
    pub live_status: bool,
    pub m3u8_url: String,
    pub stream_type: StreamType,
    /// The greatest sequence number taken from a playlist in this session.
    pub last_sequence: u64,
    /// The session identity: the timestamp of its initialization segment, 0 while unknown.
    pub timestamp: u64,
    /// Bytes of the initialization segment and of all cached segments.
    pub cache_size: u64,
    pub entries: Vec<TsEntry>,
    pub header: Option<TsEntry>,
}

pub open spec fn header_size(h: Option<TsEntry>) -> nat {
    match h {
        Some(e) => e.size as nat,
        None => 0,
    }
}

/// The greatest sequence number after a batch, starting from `last`.
pub open spec fn last_after(last: u64, batch: Seq<Fetch>) -> u64
    decreases batch.len(),
{
    if batch.len() == 0 {
        last
    } else {
        let l = last_after(last, batch.drop_last());
        if batch.last().sequence > l {
            batch.last().sequence
        } else {
            l
        }
    }
}

pub open spec fn entry_of(f: Fetch) -> TsEntry {
    TsEntry { url: f.url, sequence: f.sequence, size: f.size.unwrap() }
}

/// The cache entries that a batch adds after `last`: each downloaded segment
/// whose sequence number exceeds every one seen before it.
pub open spec fn accepted(last: u64, batch: Seq<Fetch>) -> Seq<TsEntry>
    decreases batch.len(),
{
    if batch.len() == 0 {
        Seq::empty()
    } else {
        let init = batch.drop_last();
        let f = batch.last();
        if f.sequence > last_after(last, init) && f.size.is_some() {
            accepted(last, init).push(entry_of(f))
        } else {
            accepted(last, init)
        }
    }
}

/// `<cache_root>/<room_id>/<timestamp>`: the directory of one session's files.
pub open spec fn work_dir_spec(cache_root: Seq<char>, room_id: u64, timestamp: u64) -> Seq<char> {
    cache_root + "/"@ + dec(room_id as nat) + "/"@ + dec(timestamp as nat)
}

/// The directory of one session's files.
pub fn work_dir(cache_root: &str, room_id: u64, timestamp: u64) -> (r: String)
    ensures
        r@ == work_dir_spec(cache_root@, room_id, timestamp),
{
    let mut r = String::from_str(cache_root);
    r.append("/");
    push_decimal(&mut r, room_id);
    r.append("/");
    push_decimal(&mut r, timestamp);
    assert(r@ =~= work_dir_spec(cache_root@, room_id, timestamp));
    r
}

/// The index, in a playlist whose first entry has sequence number `ms`, of its
/// first entry above `last`.
pub open spec fn first_fresh(ms: u64, last: u64) -> int {
    if ms > last {
        0
    } else {
        last - ms + 1
    }
}

/// How many entries of a playlist of `n` entries starting at `ms` lie above
/// `last` and have a sequence number that fits in a `u64`.
pub open spec fn fresh_count(ms: u64, last: u64, n: nat) -> int {
    let hi = if n <= u64::MAX - ms + 1 {
        n as int
    } else {
        u64::MAX - ms + 1
    };
    if hi > first_fresh(ms, last) {
        hi - first_fresh(ms, last)
    } else {
        0
    }
}

/// Bytes of an optional header and a segment list, capped at `u64::MAX`.
fn capped_total(h: u64, es: &Vec<TsEntry>) -> (r: u64)
    ensures
        r == capped(h as nat + total_size(es@)),
{
    let mut acc: u64 = h;
    let mut i: usize = 0;
    assert(es@.subrange(0, 0) =~= Seq::<TsEntry>::empty());
    while i < es.len()
        invariant
            i <= es@.len(),
            acc == capped(h as nat + total_size(es@.subrange(0, i as int))),
        decreases es.len() - i,
    {
        proof {
            assert(es@.subrange(0, i + 1) =~= es@.subrange(0, i as int).push(es@[i as int]));
            lemma_total_size_push(es@.subrange(0, i as int), es@[i as int]);
            lemma_capped_add(h as nat + total_size(es@.subrange(0, i as int)), es@[i as int].size);
        }
        acc = acc.saturating_add(es[i].size);
        i = i + 1;
    }
    assert(es@.subrange(0, es@.len() as int) =~= es@);
    acc
}

impl BiliRecorder {
    pub open spec fn wf(&self) -> bool {
        &&& strictly_increasing(self.entries@)
        &&& self.entries@.len() > 0 ==> self.entries@.last().sequence <= self.last_sequence
        &&& self.cache_size == capped(header_size(self.header) + total_size(self.entries@))
    }

    /// The state that an offline transition leaves: no cache, no header, no identity.
    pub open spec fn is_cleared(&self) -> bool {
        &&& self.entries@.len() == 0
        &&& self.header.is_none()
        &&& self.timestamp == 0
        &&& self.last_sequence == 0
        &&& self.cache_size == 0
    }

    /// A session for a room; `play` is the play URL resolved at creation, if any.
    pub fn new(room_id: u64, live: bool, play: Option<(String, StreamType)>) -> (r: BiliRecorder)
        ensures
            r.wf(),
            r.is_cleared(),
            r.room_id == room_id,
            r.live_status == live,
            r.m3u8_url@ == match play {
                Some((u, _)) if live => u@,
                _ => Seq::<char>::empty(),
            },
            r.stream_type == match play {
                Some((_, k)) if live => k,
                _ => StreamType::FMP4,
            },
    {
        let mut url = String::new();
        let mut kind = StreamType::FMP4;
        if live {
            if let Some((u, k)) = play {
                url = u;
                kind = k;
            }
        }
        BiliRecorder {
            room_id,
            live_status: live,
            m3u8_url: url,
            stream_type: kind,
            last_sequence: 0,
            timestamp: 0,
            cache_size: 0,
            entries: Vec::new(),
            header: None,
        }
    }

    /// Drops the cache, the counters, the header and the session identity.
    pub fn reset(&mut self)
        ensures
            final(self).wf(),
            final(self).is_cleared(),
            final(self).room_id == old(self).room_id,
            final(self).live_status == old(self).live_status,
            final(self).m3u8_url == old(self).m3u8_url,
            final(self).stream_type == old(self).stream_type,
    {
        self.last_sequence = 0;
        self.entries = Vec::new();
        self.header = None;
        self.timestamp = 0;
        self.cache_size = 0;
    }

    /// Applies a room-status poll. An unreachable status keeps the session as
    /// live; a reported offline room clears the session. Returns whether the
    /// room is now taken to be live, and which transition, if any, took place.
    pub fn on_status(&mut self, status: RoomStatus) -> (r: (bool, Notice))
        requires
            old(self).wf(),
        ensures
            final(self).wf(),
            final(self).room_id == old(self).room_id,
            r.0 == final(self).live_status,
            match status {
                RoomStatus::Unreachable => {
                    &&& r == (true, Notice::Quiet)
                    &&& final(self).entries == old(self).entries
                    &&& final(self).header == old(self).header
                    &&& final(self).timestamp == old(self).timestamp
                    &&& final(self).last_sequence == old(self).last_sequence
                    &&& final(self).cache_size == old(self).cache_size
                    &&& final(self).m3u8_url == old(self).m3u8_url
                    &&& final(self).stream_type == old(self).stream_type
                },
                RoomStatus::Reported { live, play } => {
                    &&& r.0 == live
                    &&& r.1 == if live && !old(self).live_status {
                        Notice::LiveStarted
                    } else if !live && old(self).live_status {
                        Notice::LiveEnded
                    } else {
                        Notice::Quiet
                    }
                    &&& live ==> {
                        &&& final(self).entries == old(self).entries
                        &&& final(self).header == old(self).header
                        &&& final(self).timestamp == old(self).timestamp
                        &&& final(self).last_sequence == old(self).last_sequence
                        &&& final(self).cache_size == old(self).cache_size
                        &&& match play {
                            Some((u, k)) => final(self).m3u8_url == u && final(self).stream_type == k,
                            None => final(self).m3u8_url == old(self).m3u8_url
                                && final(self).stream_type == old(self).stream_type,
                        }
                    }
                    &&& !live ==> {
                        &&& final(self).is_cleared()
                        &&& final(self).m3u8_url == old(self).m3u8_url
                        &&& final(self).stream_type == old(self).stream_type
                    }
                },
            },
    {
        match status {
            RoomStatus::Unreachable => {
                self.live_status = true;
                (true, Notice::Quiet)
            },
            RoomStatus::Reported { live, play } => {
                let notice = if live && !self.live_status {
                    Notice::LiveStarted
                } else if !live && self.live_status {
                    Notice::LiveEnded
                } else {
                    Notice::Quiet
                };
                if live {
                    if let Some((u, k)) = play {
                        self.m3u8_url = u;
                        self.stream_type = k;
                    }
                } else {
                    self.reset();
                }
                self.live_status = live;
                (live, notice)
            },
        }
    }

    /// Whether the initialization segment is still to be fetched.
    pub fn needs_header(&self) -> (r: bool)
        ensures
            r == (self.header.is_none() && self.stream_type == StreamType::FMP4),
    {
        self.header.is_none() && self.stream_type == StreamType::FMP4
    }

    /// Fixes the session identity from the initialization-segment reference.
    pub fn start_session(&mut self, header_ref: &str) -> (r: Result<u64, RecorderError>)
        requires
            old(self).wf(),
        ensures
            final(self).wf(),
            match r {
                Ok(t) => timestamp_spec(timestamp_digits_of(header_ref@)) == Some(t)
                    && final(self).timestamp == t,
                Err(e) => timestamp_spec(timestamp_digits_of(header_ref@)).is_none()
                    && is_invalid_timestamp(e) && final(self).timestamp == old(self).timestamp,
            },
            final(self).entries == old(self).entries,
            final(self).header == old(self).header,
            final(self).last_sequence == old(self).last_sequence,
            final(self).cache_size == old(self).cache_size,
            final(self).room_id == old(self).room_id,
            final(self).live_status == old(self).live_status,
            final(self).m3u8_url == old(self).m3u8_url,
            final(self).stream_type == old(self).stream_type,
    {
        let r = extract_timestamp(header_ref);
        if let Ok(t) = r {
            self.timestamp = t;
        }
        r
    }

    /// Records the downloaded initialization segment; one that is already
    /// recorded stays as it is.
    pub fn set_header(&mut self, url: String, size: u64)
        requires
            old(self).wf(),
        ensures
            final(self).wf(),
            old(self).header.is_none() ==> final(self).header == Some(
                TsEntry { url, sequence: 0, size },
            ),
            old(self).header.is_some() ==> final(self).header == old(self).header,
            final(self).entries == old(self).entries,
            final(self).last_sequence == old(self).last_sequence,
            final(self).timestamp == old(self).timestamp,
            final(self).room_id == old(self).room_id,
            final(self).live_status == old(self).live_status,
            final(self).m3u8_url == old(self).m3u8_url,
            final(self).stream_type == old(self).stream_type,
    {
        if self.header.is_none() {
            proof {
                lemma_capped_add(total_size(self.entries@), size);
            }
            self.cache_size = self.cache_size.saturating_add(size);
            self.header = Some(TsEntry { url, sequence: 0, size });
        }
    }

    /// Rebuilds the cache from the files of the session directory, where it
    /// holds any segment; otherwise leaves the session as it is.
    pub fn restore(&mut self, files: &Vec<DirFile>)
        requires
            old(self).wf(),
        ensures
            final(self).wf(),
            final(self).header == old(self).header,
            final(self).timestamp == old(self).timestamp,
            final(self).room_id == old(self).room_id,
            final(self).live_status == old(self).live_status,
            final(self).m3u8_url == old(self).m3u8_url,
            final(self).stream_type == old(self).stream_type,
            (forall|i: int|
                0 <= i < files@.len() ==> (#[trigger] file_sequence(files@[i].name@)).is_none())
                ==> {
                &&& final(self).entries == old(self).entries
                &&& final(self).last_sequence == old(self).last_sequence
                &&& final(self).cache_size == old(self).cache_size
            },
            !(forall|i: int|
                0 <= i < files@.len() ==> (#[trigger] file_sequence(files@[i].name@)).is_none())
                ==> {
                &&& is_listing_of(files@, final(self).entries@)
                &&& final(self).entries@.len() > 0
                &&& final(self).last_sequence == final(self).entries@.last().sequence
            },
    {
        let es = fs_entries(files);
        proof {
            lemma_listing_empty(files@, es@);
        }
        if es.len() == 0 {
            return;
        }
        let h: u64 = match &self.header {
            Some(e) => e.size,
            None => 0,
        };
        self.cache_size = capped_total(h, &es);
        self.last_sequence = es[es.len() - 1].sequence;
        self.entries = es;
    }

    /// The downloads of one fetch cycle: each playlist entry above the last
    /// sequence number seen, with its resolved URL and the file it goes to.
    pub fn plan_segments(&self, cache_root: &str, media_sequence: u64, uris: &Vec<String>) -> (r:
        Result<Vec<Fetch>, RecorderError>)
        ensures
            match r {
                Ok(v) => {
                    &&& v@.len() == fresh_count(media_sequence, self.last_sequence, uris@.len())
                    &&& forall|j: int|
                        0 <= j < v@.len() ==> {
                            let k = first_fresh(media_sequence, self.last_sequence) + j;
                            &&& (#[trigger] v@[j]).sequence == media_sequence + k
                            &&& resolved_url(self.m3u8_url@, uris@[k]@) == Some(v@[j].url@)
                            &&& v@[j].path@ == work_dir_spec(
                                cache_root@,
                                self.room_id,
                                self.timestamp,
                            ) + "/"@ + last_component(v@[j].url@)
                            &&& v@[j].size.is_none()
                        }
                },
                Err(e) => {
                    &&& fresh_count(media_sequence, self.last_sequence, uris@.len()) > 0
                    &&& resolved_url(
                        self.m3u8_url@,
                        uris@[first_fresh(media_sequence, self.last_sequence)]@,
                    ).is_none()
                    &&& is_invalid_url(e, self.m3u8_url@)
                },
            },
    {
        let dir = work_dir(cache_root, self.room_id, self.timestamp);
        let ghost ff = first_fresh(media_sequence, self.last_sequence);
        let mut v: Vec<Fetch> = Vec::new();
        let mut i: usize = 0;
        while i < uris.len() && media_sequence <= u64::MAX - i as u64
            invariant
                i <= uris@.len(),
                dir@ == work_dir_spec(cache_root@, self.room_id, self.timestamp),
                ff == first_fresh(media_sequence, self.last_sequence),
                i <= u64::MAX - media_sequence + 1,
                v@.len() == fresh_count(media_sequence, self.last_sequence, i as nat),
                forall|j: int|
                    0 <= j < v@.len() ==> {
                        let k = ff + j;
                        &&& (#[trigger] v@[j]).sequence == media_sequence + k
                        &&& resolved_url(self.m3u8_url@, uris@[k]@) == Some(v@[j].url@)
                        &&& v@[j].path@ == work_dir_spec(cache_root@, self.room_id, self.timestamp)
                            + "/"@ + last_component(v@[j].url@)
                        &&& v@[j].size.is_none()
                    },
            decreases uris.len() - i,
        {
            let seq = media_sequence + i as u64;
            if seq > self.last_sequence {
                let url = match segment_url(self.m3u8_url.as_str(), uris[i].as_str()) {
                    Ok(u) => u,
                    Err(e) => {
                        return Err(e);
                    },
                };
                let mut path = dir.clone();
                path.append("/");
                let name = last_component_of(url.as_str());
                path.append(name.as_str());
                let ghost vj = v@.len();
                v.push(Fetch { sequence: seq, url, path, size: None });
                assert(ff + vj == i);
            }
            i = i + 1;
        }
        assert(v@.len() == fresh_count(media_sequence, self.last_sequence, uris@.len()));
        Ok(v)
    }

    /// Adds the segments of one fetch cycle, in playlist order. A segment is
    /// taken only if its sequence number exceeds every one seen before, and is
    /// cached only if its download succeeded.
    pub fn ingest(&mut self, batch: &Vec<Fetch>)
        requires
            old(self).wf(),
        ensures
            final(self).wf(),
            final(self).entries@ == old(self).entries@ + accepted(old(self).last_sequence, batch@),
            final(self).last_sequence == last_after(old(self).last_sequence, batch@),
            final(self).header == old(self).header,
            final(self).room_id == old(self).room_id,
            final(self).live_status == old(self).live_status,
            final(self).m3u8_url == old(self).m3u8_url,
            final(self).stream_type == old(self).stream_type,
            final(self).timestamp == old(self).timestamp,
    {
        let ghost last0 = self.last_sequence;
        let ghost entries0 = self.entries@;
        let mut i: usize = 0;
        while i < batch.len()
            invariant
                i <= batch@.len(),
                self.wf(),
                self.entries@ == entries0 + accepted(last0, batch@.subrange(0, i as int)),
                self.last_sequence == last_after(last0, batch@.subrange(0, i as int)),
                self.header == old(self).header,
                self.room_id == old(self).room_id,
                self.live_status == old(self).live_status,
                self.m3u8_url == old(self).m3u8_url,
                self.stream_type == old(self).stream_type,
                self.timestamp == old(self).timestamp,
                last0 == old(self).last_sequence,
                entries0 == old(self).entries@,
            decreases batch.len() - i,
        {
            let f = &batch[i];
            let ghost pre = batch@.subrange(0, i as int);
            assert(batch@.subrange(0, i + 1).drop_last() =~= pre);
            assert(batch@.subrange(0, i + 1).last() == batch@[i as int]);
            if f.sequence > self.last_sequence {
                self.last_sequence = f.sequence;
                match f.size {
                    Some(size) => {
                        let e = TsEntry { url: f.url.clone(), sequence: f.sequence, size };
                        proof {
                            lemma_total_size_push(self.entries@, e);
                            lemma_capped_add(header_size(self.header) + total_size(self.entries@), size);
                        }
                        self.cache_size = self.cache_size.saturating_add(size);
                        self.entries.push(e);
                        assert(e == entry_of(batch@[i as int]));
                    },
                    None => {},
                }
            }
            assert(self.entries@ =~= entries0 + accepted(last0, batch@.subrange(0, i + 1)));
            i = i + 1;
        }
        assert(batch@.subrange(0, batch@.len() as int) =~= batch@);
    }
}

/// Every entry that a batch adds lies above `last` and at most at the batch's
/// final high-water mark, and the added entries are in strictly increasing order.
pub proof fn lemma_accepted_bounds(last: u64, batch: Seq<Fetch>)
    ensures
        strictly_increasing(accepted(last, batch)),
        last <= last_after(last, batch),
        forall|j: int|
            0 <= j < accepted(last, batch).len() ==> last < #[trigger] accepted(last, batch)[j].sequence
                <= last_after(last, batch),
    decreases batch.len(),
{
    if batch.len() > 0 {
        lemma_accepted_bounds(last, batch.drop_last());
    }
}

/// Ingesting one batch after another is ingesting their concatenation.
pub proof fn lemma_accepted_concat(last: u64, a: Seq<Fetch>, b: Seq<Fetch>)
    ensures
        accepted(last, a + b) == accepted(last, a) + accepted(last_after(last, a), b),
        last_after(last, a + b) == last_after(last_after(last, a), b),
    decreases b.len(),
{
    if b.len() == 0 {
        assert(a + b =~= a);
        assert(accepted(last, a) + accepted(last_after(last, a), b) =~= accepted(last, a));
    } else {
        lemma_accepted_concat(last, a, b.drop_last());
        assert((a + b).drop_last() =~= a + b.drop_last());
        assert((a + b).last() == b.last());
        let l = last_after(last, a);
        if b.last().sequence > last_after(l, b.drop_last()) && b.last().size.is_some() {
            assert(accepted(last, a) + accepted(l, b) =~= (accepted(last, a) + accepted(
                l,
                b.drop_last(),
            )).push(entry_of(b.last())));
        }
    }
}

/// A batch of downloaded segments, all above `last` and in increasing order, is
/// cached whole.
pub proof fn lemma_accepted_all(last: u64, batch: Seq<Fetch>)
    requires
        forall|i: int| 0 <= i < batch.len() ==> (#[trigger] batch[i]).size.is_some(),
        forall|i: int, j: int|
            0 <= i < j < batch.len() ==> batch[i].sequence < batch[j].sequence,
        batch.len() > 0 ==> batch[0].sequence > last,
    ensures
        accepted(last, batch) == batch.map_values(|f: Fetch| entry_of(f)),
        last_after(last, batch) == if batch.len() == 0 {
            last
        } else {
            batch.last().sequence
        },
    decreases batch.len(),
{
    if batch.len() > 0 {
        let init = batch.drop_last();
        lemma_accepted_all(last, init);
        if init.len() > 0 {
            assert(init[0] == batch[0]);
            assert(init.last() == batch[batch.len() - 2]);
        }
        assert(batch.map_values(|f: Fetch| entry_of(f)) =~= init.map_values(|f: Fetch| entry_of(f)).push(
            entry_of(batch.last()),
        ));
    }
}

/// Two segment lists with the same sizes, position by position, hold the same bytes.
pub proof fn lemma_total_size_same_sizes(a: Seq<TsEntry>, b: Seq<TsEntry>)
    requires
        a.len() == b.len(),
        forall|i: int| 0 <= i < a.len() ==> (#[trigger] a[i]).size == b[i].size,
    ensures
        total_size(a) == total_size(b),
    decreases a.len(),
{
    if a.len() > 0 {
        lemma_total_size_same_sizes(a.drop_last(), b.drop_last());
    }
}

/// Ingesting any batch into a cache whose sequence numbers increase strictly
/// and stay at most `last` keeps them strictly increasing: a sequence number
/// that was seen before is never cached again.
pub proof fn ingest_never_duplicates(entries: Seq<TsEntry>, last: u64, batch: Seq<Fetch>)
    requires
        strictly_increasing(entries),
        entries.len() > 0 ==> entries.last().sequence <= last,
    ensures
        strictly_increasing(entries + accepted(last, batch)),
        forall|i: int, j: int|
            0 <= i < entries.len() && 0 <= j < accepted(last, batch).len() ==> entries[i].sequence
                != accepted(last, batch)[j].sequence,
{
    lemma_accepted_bounds(last, batch);
    let acc = accepted(last, batch);
    assert forall|i: int| 0 <= i < entries.len() implies entries[i].sequence <= last by {
        if i < entries.len() - 1 {
            assert(entries[i].sequence < entries[entries.len() - 1].sequence);
        }
    }
    assert forall|i: int, j: int| 0 <= i < j < (entries + acc).len() implies (entries
        + acc)[i].sequence < (entries + acc)[j].sequence by {
        if j >= entries.len() && i < entries.len() {
            assert(acc[j - entries.len()].sequence > last);
        }
    }
    assert forall|i: int, j: int| 0 <= i < entries.len() && 0 <= j < acc.len() implies entries[i].sequence
        != acc[j].sequence by {
        assert(acc[j].sequence > last);
    }
}

/// A scan of the files that a batch of downloaded segments left, in increasing
/// order, holds those segments' sequence numbers and sizes, in that order.
pub proof fn lemma_listing_of_batch_files(files: Seq<DirFile>, restored: Seq<TsEntry>, first: Seq<Fetch>)
    requires
        forall|i: int, j: int|
            0 <= i < j < first.len() ==> first[i].sequence < first[j].sequence,
        files.len() == first.len(),
        forall|i: int|
            0 <= i < first.len() ==> file_sequence((#[trigger] files[i]).name@) == Some(
                first[i].sequence,
            ) && files[i].size == first[i].size.unwrap(),
        is_listing_of(files, restored),
    ensures
        restored.len() == first.len(),
        forall|i: int|
            0 <= i < first.len() ==> (#[trigger] restored[i]).sequence == first[i].sequence
                && restored[i].size == first[i].size.unwrap(),
{
    let sr = sequences(restored);
    let sf = first.map_values(|f: Fetch| f.sequence);
    assert forall|i: int| 0 <= i < sr.len() implies sf.contains(#[trigger] sr[i]) by {
        assert(restored.contains(restored[i]));
        let k = choose|k: int|
            first_for(files, k, restored[i].sequence) && read_back(files[k], restored[i]);
        assert(sf[k] == sr[i]);
    }
    assert forall|j: int| 0 <= j < sf.len() implies sr.contains(#[trigger] sf[j]) by {
        assert(file_sequence(files[j].name@).is_some());
        let m = choose|m: int|
            0 <= m < restored.len() && restored[m].sequence == file_sequence(files[j].name@).unwrap();
        assert(sr[m] == sf[j]);
    }
    assert forall|i: int, j: int| 0 <= i < j < sr.len() implies sr[i] < sr[j] by {
        assert(restored[i].sequence < restored[j].sequence);
    }
    lemma_increasing_same_members(sr, sf);
    assert forall|i: int| 0 <= i < first.len() implies (#[trigger] restored[i]).sequence
        == first[i].sequence && restored[i].size == first[i].size.unwrap() by {
        assert(sr[i] == sf[i]);
        assert(restored.contains(restored[i]));
        let k = choose|k: int|
            first_for(files, k, restored[i].sequence) && read_back(files[k], restored[i]);
        if k < i {
            assert(first[k].sequence < first[i].sequence);
        } else if k > i {
            assert(first[i].sequence < first[k].sequence);
        }
    }
}

/// Restoring a cache from the directory that the first part of a session left
/// (its scan `restored`, as `restore` loads it) and then ingesting the rest
/// gives the same sequence order, segment count, byte count and high-water mark
/// as ingesting the whole session, from a cleared state, without a restart.
pub proof fn restore_then_ingest_matches_continuous(
    files: Seq<DirFile>,
    restored: Seq<TsEntry>,
    first: Seq<Fetch>,
    rest: Seq<Fetch>,
)
    requires
        first.len() > 0,
        forall|i: int| 0 <= i < first.len() ==> (#[trigger] first[i]).size.is_some(),
        forall|i: int, j: int|
            0 <= i < j < first.len() ==> first[i].sequence < first[j].sequence,
        first[0].sequence > 0,
        files.len() == first.len(),
        forall|i: int|
            0 <= i < first.len() ==> file_sequence((#[trigger] files[i]).name@) == Some(
                first[i].sequence,
            ) && files[i].size == first[i].size.unwrap(),
        is_listing_of(files, restored),
    ensures
        restored.len() > 0,
        ({
            let continuous = accepted(0, first + rest);
            let resumed = restored + accepted(restored.last().sequence, rest);
            &&& sequences(continuous) == sequences(resumed)
            &&& continuous.len() == resumed.len()
            &&& total_size(continuous) == total_size(resumed)
            &&& last_after(0, first + rest) == last_after(restored.last().sequence, rest)
        }),
{
    lemma_listing_of_batch_files(files, restored, first);
    lemma_accepted_concat(0, first, rest);
    lemma_accepted_all(0, first);
    let mapped = first.map_values(|f: Fetch| entry_of(f));
    let l = restored.last().sequence;
    assert(l == first.last().sequence);
    let tail = accepted(l, rest);
    let continuous = mapped + tail;
    let resumed = restored + tail;
    assert(accepted(0, first + rest) == continuous);
    assert forall|i: int| 0 <= i < continuous.len() implies (#[trigger] continuous[i]).size
        == resumed[i].size && continuous[i].sequence == resumed[i].sequence by {
        if i < first.len() {
            assert(continuous[i] == entry_of(first[i]));
        }
    }
    lemma_total_size_same_sizes(continuous, resumed);
    assert(sequences(continuous) =~= sequences(resumed));
}

} // verus!
