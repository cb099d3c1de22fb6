//! Reading the remote playlist documents: stale-URL detection, variant
//! redirection, the initialization-segment reference, the session timestamp
//! and the resolution of segment URLs.

use vstd::prelude::*;
use crate::segment::RecorderError;
use crate::text::{
    after_last, after_last_index, chars_of, contains, contains_seq, last_match,
    lemma_contains_iff_last_match, matches_at, parse_u64,
    parse_u64_spec, rfind,
};

verus! {

/// A parsed playlist document.
pub enum PlaylistDoc {
    /// A variant-selection playlist.
    Master,
    /// A media playlist: the sequence number of its first segment and its segment URIs.
    Media { media_sequence: u64, uris: Vec<String> },
}

/// What m3u8_rs makes of a document: `None` where it does not parse, `Some(None)`
/// for a master playlist, `Some(Some((media_sequence, uris)))` for a media playlist.
pub uninterp spec fn playlist_of(text: Seq<char>) -> Option<Option<(u64, Seq<Seq<char>>)>>;

pub open spec fn is_ascii_digit(c: char) -> bool {
    '0' <= c && c <= '9'
}

/// The first index at or after `i` that does not hold an ASCII digit.
pub open spec fn digit_run_end(s: Seq<char>, i: int) -> int
    decreases s.len() - i,
{
    if i < s.len() && 0 <= i && is_ascii_digit(s[i]) {
        digit_run_end(s, i + 1)
    } else {
        i
    }
}

/// Whether an initialization-segment name `h<digits>.m4s` starts at `p`.
pub open spec fn header_ref_at(s: Seq<char>, p: int) -> bool {
    let q = digit_run_end(s, p + 1);
    &&& 0 <= p < s.len()
    &&& s[p] == 'h'
    &&& q > p + 1
    &&& matches_at(s, ".m4s"@, q)
}

/// The leftmost name `h<digits>.m4s` in `s` at or after index `i`.
pub open spec fn header_ref_from(s: Seq<char>, i: int) -> Option<Seq<char>>
    decreases s.len() - i,
{
    if i < 0 || i >= s.len() {
        None
    } else if header_ref_at(s, i) {
        Some(s.subrange(i, digit_run_end(s, i + 1) + 4))
    } else {
        header_ref_from(s, i + 1)
    }
}

/// The leftmost initialization-segment name `h<digits>.m4s` in a document.
pub open spec fn header_ref_of(doc: Seq<char>) -> Option<Seq<char>> {
    header_ref_from(doc, 0)
}

/// The digits of the first match of `h(\d+).m4s` in an initialization-segment reference.
pub uninterp spec fn timestamp_digits_of(header_ref: Seq<char>) -> Option<Seq<char>>;

pub open spec fn uri_views(uris: Seq<String>) -> Seq<Seq<char>> {
    uris.map_values(|u: String| u@)
}

/// Relies on m3u8_rs::parse_playlist_res: it parses the document's bytes into a
/// master or a media playlist, or fails; the result depends on the text alone.
#[verifier::external_body]
fn parse_playlist(text: &str) -> (r: Option<PlaylistDoc>)
    ensures
        match r {
            None => playlist_of(text@).is_none(),
            Some(PlaylistDoc::Master) => playlist_of(text@) == Some(
                None::<(u64, Seq<Seq<char>>)>,
            ),
            Some(PlaylistDoc::Media { media_sequence, uris }) => playlist_of(text@) == Some(
                Some((media_sequence, uri_views(uris@))),
            ),
        },
{
    match m3u8_rs::parse_playlist_res(text.as_bytes()) {
        Ok(m3u8_rs::Playlist::MasterPlaylist(_)) => Some(PlaylistDoc::Master),
        Ok(m3u8_rs::Playlist::MediaPlaylist(pl)) => Some(PlaylistDoc::Media {
            media_sequence: pl.media_sequence,
            uris: pl.segments.into_iter().map(|s| s.uri).collect(),
        }),
        Err(_) => None,
    }
}

/// Relies on regex::Regex::find with the pattern `h[0-9]+\.m4s`: the leftmost
/// match. Digits and `.` are disjoint, so at a given start the greedy digit run
/// can only end where the digits end, and a match there is `h`, the whole digit
/// run, then `.m4s`.
#[verifier::external_body]
fn find_header_ref(doc: &str) -> (r: Option<String>)
    ensures
        match r {
            Some(m) => header_ref_of(doc@) == Some(m@),
            None => header_ref_of(doc@).is_none(),
        },
{
    let re = regex::Regex::new(r"h[0-9]+\.m4s").unwrap();
    re.find(doc).map(|m| m.as_str().to_string())
}

/// Relies on regex::Regex::captures with the pattern `h(\d+).m4s`: the first group
/// of the leftmost match.
#[verifier::external_body]
fn find_timestamp_digits(header_ref: &str) -> (r: Option<String>)
    ensures
        match r {
            Some(m) => timestamp_digits_of(header_ref@) == Some(m@),
            None => timestamp_digits_of(header_ref@).is_none(),
        },
{
    let re = regex::Regex::new(r"h(\d+).m4s").unwrap();
    re.captures(header_ref).map(|c| c[1].to_string())
}

/// The session timestamp that a digit string names: a positive `u64`.
pub open spec fn timestamp_spec(digits: Option<Seq<char>>) -> Option<u64> {
    match digits {
        Some(d) => match parse_u64_spec(d) {
            Some(t) if t > 0 => Some(t),
            _ => None,
        },
        None => None,
    }
}

pub open spec fn is_invalid_timestamp(e: RecorderError) -> bool {
    e matches RecorderError::InvalidTimestamp
}

/// Reads the session timestamp from the digits of an initialization-segment name.
pub fn timestamp_from_digits(digits: &str) -> (r: Result<u64, RecorderError>)
    ensures
        match r {
            Ok(t) => timestamp_spec(Some(digits@)) == Some(t),
            Err(e) => timestamp_spec(Some(digits@)).is_none() && is_invalid_timestamp(e),
        },
{
    let cs = chars_of(digits);
    match parse_u64(cs.as_slice()) {
        Some(t) => {
            if t > 0 {
                Ok(t)
            } else {
                Err(RecorderError::InvalidTimestamp)
            }
        },
        None => Err(RecorderError::InvalidTimestamp),
    }
}

/// The session timestamp embedded in an initialization-segment reference `h<digits>.m4s`.
pub fn extract_timestamp(header_ref: &str) -> (r: Result<u64, RecorderError>)
    ensures
        match r {
            Ok(t) => timestamp_spec(timestamp_digits_of(header_ref@)) == Some(t),
            Err(e) => timestamp_spec(timestamp_digits_of(header_ref@)).is_none()
                && is_invalid_timestamp(e),
        },
{
    match find_timestamp_digits(header_ref) {
        Some(d) => timestamp_from_digits(d.as_str()),
        None => Err(RecorderError::InvalidTimestamp),
    }
}

/// The last line of a document, as `str::lines` gives it: a final line break
/// ends the last line rather than starting an empty one, and a carriage return
/// before a line break is not part of the line.
pub open spec fn last_line(doc: Seq<char>) -> Seq<char> {
    let t = if doc.len() > 0 && doc.last() == '\n' {
        doc.drop_last()
    } else {
        doc
    };
    let l = after_last(t, '\n');
    if l.len() > 0 && l.last() == '\r' {
        l.drop_last()
    } else {
        l
    }
}

/// The last line of `doc`.
pub fn last_line_of(doc: &str) -> (r: String)
    ensures
        r@ == last_line(doc@),
{
    let cs = chars_of(doc);
    let mut n = cs.len();
    if n > 0 && cs[n - 1] == '\n' {
        n = n - 1;
    }
    let t = Ghost(cs@.subrange(0, n as int));
    assert(t@ =~= if doc@.len() > 0 && doc@.last() == '\n' {
        doc@.drop_last()
    } else {
        doc@
    });
    let k = after_last_index(&cs, n, '\n');
    let mut m = n;
    if m > k && cs[m - 1] == '\r' {
        m = m - 1;
    }
    assert(cs@.subrange(k as int, m as int) =~= last_line(doc@));
    String::from_str(doc.substring_char(k, m))
}

/// What one fetched index document asks for while the initialization segment is sought.
pub enum HeaderStep {
    /// The URL is stale: check the room again and fetch once more.
    Recheck,
    /// A variant-selection document: continue with this URL.
    Follow { url: String },
    /// The initialization-segment reference, a name `h<digits>.m4s`.
    Found { header_ref: String },
    /// No reference in the document.
    Missing,
}

/// Decides what an index document means for finding the initialization segment.
pub fn header_step(doc: &str) -> (r: HeaderStep)
    ensures
        contains_seq(doc@, "Not Found"@) ==> r is Recheck,
        !contains_seq(doc@, "Not Found"@) && contains_seq(doc@, "BANDWIDTH"@) ==> match r {
            HeaderStep::Follow { url } => url@ == last_line(doc@),
            _ => false,
        },
        !contains_seq(doc@, "Not Found"@) && !contains_seq(doc@, "BANDWIDTH"@) ==> match r {
            HeaderStep::Found { header_ref } => header_ref_of(doc@) == Some(header_ref@),
            HeaderStep::Missing => header_ref_of(doc@).is_none(),
            _ => false,
        },
{
    let cs = chars_of(doc);
    let nf = chars_of("Not Found");
    if contains(cs.as_slice(), nf.as_slice()) {
        return HeaderStep::Recheck;
    }
    let bw = chars_of("BANDWIDTH");
    if contains(cs.as_slice(), bw.as_slice()) {
        return HeaderStep::Follow { url: last_line_of(doc) };
    }
    match find_header_ref(doc) {
        Some(h) => HeaderStep::Found { header_ref: h },
        None => HeaderStep::Missing,
    }
}

/// Whether the server answered a stale URL.
pub fn is_not_found(doc: &str) -> (r: bool)
    ensures
        r == contains_seq(doc@, "Not Found"@),
{
    let cs = chars_of(doc);
    let nf = chars_of("Not Found");
    contains(cs.as_slice(), nf.as_slice())
}

pub open spec fn is_parse_failure(e: RecorderError) -> bool {
    e matches RecorderError::M3u8ParseFailed
}

/// Parses a playlist document.
pub fn read_playlist(doc: &str) -> (r: Result<PlaylistDoc, RecorderError>)
    ensures
        match r {
            Ok(PlaylistDoc::Master) => playlist_of(doc@) == Some(None::<(u64, Seq<Seq<char>>)>),
            Ok(PlaylistDoc::Media { media_sequence, uris }) => playlist_of(doc@) == Some(
                Some((media_sequence, uri_views(uris@))),
            ),
            Err(e) => playlist_of(doc@).is_none() && is_parse_failure(e),
        },
{
    match parse_playlist(doc) {
        Some(p) => Ok(p),
        None => Err(RecorderError::M3u8ParseFailed),
    }
}

/// The fetchable URL of a playlist entry: the playlist URL up to its last
/// `index.m3u8`, followed by the entry's URI.
pub open spec fn resolved_url(base: Seq<char>, uri: Seq<char>) -> Option<Seq<char>> {
    match last_match(base, "index.m3u8"@) {
        Some(p) => Some(base.subrange(0, p) + uri),
        None => None,
    }
}

pub open spec fn is_invalid_url(e: RecorderError, base: Seq<char>) -> bool {
    match e {
        RecorderError::InvalidM3u8Url { url } => url@ == base,
        _ => false,
    }
}

/// Resolves a playlist entry against the playlist URL.
pub fn segment_url(base: &str, uri: &str) -> (r: Result<String, RecorderError>)
    ensures
        match r {
            Ok(u) => resolved_url(base@, uri@) == Some(u@),
            Err(e) => resolved_url(base@, uri@).is_none() && is_invalid_url(e, base@),
        },
{
    let cs = chars_of(base);
    let marker = chars_of("index.m3u8");
    match rfind(cs.as_slice(), marker.as_slice()) {
        Some(p) => {
            proof {
                lemma_contains_iff_last_match(cs@, marker@);
            }
            let mut u = String::from_str(base.substring_char(0, p));
            u.append(uri);
            Ok(u)
        },
        None => Err(RecorderError::InvalidM3u8Url { url: String::from_str(base) }),
    }
}

} // verus!
