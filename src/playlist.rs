//! Synthesis of the served playlist, from the live cache or from a session directory.

use vstd::prelude::*;
use crate::listing::{fs_entries, is_listing_of};
use crate::segment::{DirFile, TsEntry};
use crate::session::BiliRecorder;
use crate::text::{dec, last_component, last_component_of, push_decimal};

verus! {

/// `/<room_id>/<timestamp>/<name>`: where the server exposes a session's file.
pub open spec fn local_path(room_id: u64, timestamp: u64, name: Seq<char>) -> Seq<char> {
    "/"@ + dec(room_id as nat) + "/"@ + dec(timestamp as nat) + "/"@ + name
}

/// The header lines; `vod` selects the finished-playlist type over the growing one.
pub open spec fn head(vod: bool) -> Seq<char> {
    "#EXTM3U\n"@ + "#EXT-X-VERSION:6\n"@ + "#EXT-X-TARGETDURATION:1\n"@ + if vod {
        "#EXT-X-PLAYLIST-TYPE:VOD\n"@
    } else {
        "#EXT-X-PLAYLIST-TYPE:EVENT\n"@
    }
}

pub open spec fn map_line(path: Seq<char>) -> Seq<char> {
    "#EXT-X-MAP:URI=\""@ + path + "\"\n"@
}

/// Whether the `i`-th entry follows a gap of more than one sequence number.
pub open spec fn gap_before(es: Seq<TsEntry>, i: int) -> bool {
    i > 0 && es[i].sequence > es[i - 1].sequence + 1
}

pub open spec fn entry_lines(room_id: u64, timestamp: u64, e: TsEntry) -> Seq<char> {
    "#EXTINF:1,\n"@ + local_path(room_id, timestamp, last_component(e.url@)) + "\n"@
}

/// The lines of the `i`-th entry, with a discontinuity marker before it after a gap.
pub open spec fn entry_block(room_id: u64, timestamp: u64, es: Seq<TsEntry>, i: int) -> Seq<char> {
    (if gap_before(es, i) {
        "#EXT-X-DISCONTINUITY\n"@
    } else {
        Seq::empty()
    }) + entry_lines(room_id, timestamp, es[i])
}

/// The lines of the first `n` entries.
pub open spec fn body(room_id: u64, timestamp: u64, es: Seq<TsEntry>, n: nat) -> Seq<char>
    decreases n,
{
    if n == 0 {
        Seq::empty()
    } else {
        body(room_id, timestamp, es, (n - 1) as nat) + entry_block(
            room_id,
            timestamp,
            es,
            n - 1,
        )
    }
}

/// The playlist of the session being recorded: growing while live, finished
/// (`VOD` with an end marker) once the room is offline.
pub open spec fn live_playlist(
    room_id: u64,
    timestamp: u64,
    live: bool,
    header: Option<TsEntry>,
    es: Seq<TsEntry>,
) -> Seq<char> {
    head(!live) + media_part(room_id, timestamp, header, es) + if live {
        Seq::empty()
    } else {
        "#EXT-X-ENDLIST"@
    }
}

/// Everything of a playlist between its header and its end marker.
pub open spec fn media_part(room_id: u64, timestamp: u64, header: Option<TsEntry>, es: Seq<TsEntry>) -> Seq<char> {
    (match header {
        Some(h) => map_line(local_path(room_id, timestamp, last_component(h.url@))),
        None => Seq::empty(),
    }) + body(room_id, timestamp, es, es.len())
}

/// The playlist of a finished session, read from its directory: the
/// initialization segment is named after the session timestamp.
pub open spec fn archive_playlist(room_id: u64, timestamp: u64, es: Seq<TsEntry>) -> Seq<char> {
    head(true) + map_line(local_path(room_id, timestamp, "h"@ + dec(timestamp as nat) + ".m4s"@))
        + body(room_id, timestamp, es, es.len()) + "#EXT-X-ENDLIST"@
}

pub open spec fn starts_with(s: Seq<char>, prefix: Seq<char>) -> bool {
    prefix.len() <= s.len() && s.subrange(0, prefix.len() as int) == prefix
}

/// The playlist of the session being recorded, served right after the room
/// goes offline, lists exactly what it listed while live: the type line turns
/// from `EVENT` to `VOD` and an end marker follows; nothing else changes.
pub proof fn ended_playlist_keeps_segments(
    room_id: u64,
    timestamp: u64,
    header: Option<TsEntry>,
    es: Seq<TsEntry>,
)
    ensures
        ({
            let common = "#EXTM3U\n"@ + "#EXT-X-VERSION:6\n"@ + "#EXT-X-TARGETDURATION:1\n"@;
            let media = media_part(room_id, timestamp, header, es);
            &&& live_playlist(room_id, timestamp, true, header, es) == common
                + "#EXT-X-PLAYLIST-TYPE:EVENT\n"@ + media
            &&& live_playlist(room_id, timestamp, false, header, es) == common
                + "#EXT-X-PLAYLIST-TYPE:VOD\n"@ + media + "#EXT-X-ENDLIST"@
        }),
{
    let media = media_part(room_id, timestamp, header, es);
    assert(live_playlist(room_id, timestamp, true, header, es) =~= head(false) + media);
}

/// The playlist body is the entries' blocks in order, and an entry's block
/// opens with a discontinuity marker exactly when the entry follows a gap of
/// more than one sequence number.
pub proof fn discontinuity_marks_exactly_gaps(
    room_id: u64,
    timestamp: u64,
    es: Seq<TsEntry>,
    i: int,
)
    requires
        0 <= i < es.len(),
    ensures
        body(room_id, timestamp, es, (i + 1) as nat) == body(room_id, timestamp, es, i as nat)
            + entry_block(room_id, timestamp, es, i),
        starts_with(entry_block(room_id, timestamp, es, i), "#EXT-X-DISCONTINUITY\n"@)
            <==> gap_before(es, i),
{
    reveal_strlit("#EXT-X-DISCONTINUITY\n");
    reveal_strlit("#EXTINF:1,\n");
    let m = "#EXT-X-DISCONTINUITY\n"@;
    let b = entry_block(room_id, timestamp, es, i);
    if gap_before(es, i) {
        assert(b.subrange(0, m.len() as int) =~= m);
    } else {
        let l = entry_lines(room_id, timestamp, es[i]);
        assert(b == Seq::<char>::empty() + l);
        if starts_with(b, m) {
            assert(b[4] == m[4]);
            assert(l[4] == 'I');
        }
    }
}

fn push_local_path(out: &mut String, room_id: u64, timestamp: u64, name: &str)
    ensures
        final(out)@ == old(out)@ + local_path(room_id, timestamp, name@),
{
    out.append("/");
    push_decimal(out, room_id);
    out.append("/");
    push_decimal(out, timestamp);
    out.append("/");
    out.append(name);
    assert(final(out)@ =~= old(out)@ + local_path(room_id, timestamp, name@));
}

fn push_head(out: &mut String, vod: bool)
    ensures
        final(out)@ == old(out)@ + head(vod),
{
    out.append("#EXTM3U\n");
    out.append("#EXT-X-VERSION:6\n");
    out.append("#EXT-X-TARGETDURATION:1\n");
    if vod {
        out.append("#EXT-X-PLAYLIST-TYPE:VOD\n");
    } else {
        out.append("#EXT-X-PLAYLIST-TYPE:EVENT\n");
    }
    assert(final(out)@ =~= old(out)@ + head(vod));
}

fn push_body(out: &mut String, room_id: u64, timestamp: u64, es: &Vec<TsEntry>)
    ensures
        final(out)@ == old(out)@ + body(room_id, timestamp, es@, es@.len()),
{
    let ghost start = out@;
    let mut i: usize = 0;
    assert(start + body(room_id, timestamp, es@, 0) =~= start);
    while i < es.len()
        invariant
            i <= es@.len(),
            out@ == start + body(room_id, timestamp, es@, i as nat),
            start == old(out)@,
        decreases es.len() - i,
    {
        let ghost before = out@;
        if i > 0 && es[i].sequence > es[i - 1].sequence && es[i].sequence - es[i - 1].sequence > 1 {
            out.append("#EXT-X-DISCONTINUITY\n");
        }
        out.append("#EXTINF:1,\n");
        let name = last_component_of(es[i].url.as_str());
        push_local_path(out, room_id, timestamp, name.as_str());
        out.append("\n");
        assert(out@ =~= before + entry_block(room_id, timestamp, es@, i as int));
        assert(body(room_id, timestamp, es@, (i + 1) as nat) == body(room_id, timestamp, es@, i as nat)
            + entry_block(room_id, timestamp, es@, i as int));
        assert(out@ =~= start + body(room_id, timestamp, es@, (i + 1) as nat));
        i = i + 1;
    }
}

impl BiliRecorder {
    /// The playlist of the session being recorded, from the in-memory cache.
    pub fn generate_live_m3u8(&self) -> (r: String)
        ensures
            r@ == live_playlist(
                self.room_id,
                self.timestamp,
                self.live_status,
                self.header,
                self.entries@,
            ),
    {
        let mut out = String::new();
        push_head(&mut out, !self.live_status);
        let ghost after_head = out@;
        if let Some(h) = &self.header {
            out.append("#EXT-X-MAP:URI=\"");
            let name = last_component_of(h.url.as_str());
            push_local_path(&mut out, self.room_id, self.timestamp, name.as_str());
            out.append("\"\n");
        }
        let ghost after_map = out@;
        push_body(&mut out, self.room_id, self.timestamp, &self.entries);
        if !self.live_status {
            out.append("#EXT-X-ENDLIST");
        }
        assert(out@ =~= live_playlist(
            self.room_id,
            self.timestamp,
            self.live_status,
            self.header,
            self.entries@,
        ));
        out
    }

    /// The playlist of session `timestamp`: from the cache when it is the
    /// session being recorded, else from `files`, the listing of its directory.
    pub fn generate_m3u8(&self, timestamp: u64, files: &Vec<DirFile>) -> (r: String)
        ensures
            self.timestamp == timestamp ==> r@ == live_playlist(
                self.room_id,
                self.timestamp,
                self.live_status,
                self.header,
                self.entries@,
            ),
            self.timestamp != timestamp ==> exists|es: Seq<TsEntry>|
                #[trigger] is_listing_of(files@, es) && r@ == archive_playlist(
                    self.room_id,
                    timestamp,
                    es,
                ),
    {
        if self.timestamp == timestamp {
            self.generate_live_m3u8()
        } else {
            generate_archive_m3u8(self.room_id, timestamp, files)
        }
    }
}

/// The playlist of a finished session of room `room_id`, from the listing of its directory.
pub fn generate_archive_m3u8(room_id: u64, timestamp: u64, files: &Vec<DirFile>) -> (r: String)
    ensures
        exists|es: Seq<TsEntry>| #[trigger]
            is_listing_of(files@, es) && r@ == archive_playlist(room_id, timestamp, es),
{
    let es = fs_entries(files);
    archive_m3u8_of(room_id, timestamp, &es)
}

/// The playlist of a finished session from its segment list.
pub fn archive_m3u8_of(room_id: u64, timestamp: u64, es: &Vec<TsEntry>) -> (r: String)
    ensures
        r@ == archive_playlist(room_id, timestamp, es@),
{
    let mut out = String::new();
    push_head(&mut out, true);
    out.append("#EXT-X-MAP:URI=\"");
    let mut name = String::from_str("h");
    push_decimal(&mut name, timestamp);
    name.append(".m4s");
    push_local_path(&mut out, room_id, timestamp, name.as_str());
    out.append("\"\n");
    push_body(&mut out, room_id, timestamp, es);
    out.append("#EXT-X-ENDLIST");
    assert(out@ =~= archive_playlist(room_id, timestamp, es@));
    out
}

} // verus!
