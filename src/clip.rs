//! Planning a clip: which cached files cover a range of cache units, the
//! transcoder's concatenation arguments, and the output file name.

use vstd::prelude::*;
use crate::listing::{file_sequence, fs_entries, is_listing_of, lemma_listing_empty, lemma_listing_unique};
use crate::segment::{DirFile, RecorderError, StreamType, TsEntry};
use crate::session::{work_dir, work_dir_spec, BiliRecorder};
use crate::text::{dec, last_component, last_component_of, push_decimal};

verus! {

/// What the transcoder is handed: the input files in order, its arguments
/// (a concatenation of those files, re-encoded), and the output file.
pub struct ClipPlan {
    pub inputs: Vec<String>,
    pub args: String,
    pub output_file: String,
    /// The capture time written into the output name.
    pub stamp: String,
}

pub open spec fn lo_of(x: u64, y: u64) -> u64 {
    if x <= y {
        x
    } else {
        y
    }
}

pub open spec fn hi_of(x: u64, y: u64) -> u64 {
    if x <= y {
        y
    } else {
        x
    }
}

/// The entries at offsets `min(x, y)` through `max(x, y)`, both included; each
/// entry weighs one cache unit.
pub open spec fn selected(es: Seq<TsEntry>, x: u64, y: u64) -> Seq<TsEntry> {
    let n = es.len() as int;
    let a = if (lo_of(x, y) as int) < n {
        lo_of(x, y) as int
    } else {
        n
    };
    let b = if (hi_of(x, y) as int) < n {
        hi_of(x, y) + 1
    } else {
        n
    };
    es.subrange(a, b)
}

/// The files to concatenate: the initialization segment first, where there is
/// one, then the selected entries, all in directory `dir`.
pub open spec fn clip_paths(dir: Seq<char>, header: Option<Seq<char>>, sel: Seq<TsEntry>) -> Seq<
    Seq<char>,
> {
    (match header {
        Some(h) => seq![dir + "/"@ + h],
        None => Seq::empty(),
    }) + sel.map_values(|e: TsEntry| dir + "/"@ + last_component(e.url@))
}

/// The paths, each followed by `|`.
pub open spec fn joined(paths: Seq<Seq<char>>) -> Seq<char>
    decreases paths.len(),
{
    if paths.len() == 0 {
        Seq::empty()
    } else {
        joined(paths.drop_last()) + paths.last() + "|"@
    }
}

pub open spec fn clip_args(paths: Seq<Seq<char>>) -> Seq<char> {
    "-i concat:"@ + joined(paths) + " -c:v libx264 -c:a aac"@
}

/// `<output>/[<room_id>]<label>_<stamp>_<units>.0.mp4`
pub open spec fn clip_file_name(
    output: Seq<char>,
    room_id: u64,
    label: Seq<char>,
    stamp: Seq<char>,
    units: nat,
) -> Seq<char> {
    output + "/["@ + dec(room_id as nat) + "]"@ + label + "_"@ + stamp + "_"@ + dec(units)
        + ".0.mp4"@
}

pub open spec fn views(v: Seq<String>) -> Seq<Seq<char>> {
    v.map_values(|s: String| s@)
}

/// `p` is the plan for range `x`..`y` of `es` in directory `dir`, captured at `stamp`.
pub open spec fn is_plan(
    p: ClipPlan,
    dir: Seq<char>,
    header: Option<Seq<char>>,
    es: Seq<TsEntry>,
    x: u64,
    y: u64,
    output: Seq<char>,
    room_id: u64,
    label: Seq<char>,
    stamp: Seq<char>,
) -> bool {
    let paths = clip_paths(dir, header, selected(es, x, y));
    &&& views(p.inputs@) == paths
    &&& p.args@ == clip_args(paths)
    &&& p.output_file@ == clip_file_name(output, room_id, label, stamp, (hi_of(x, y) - lo_of(x, y)) as nat)
    &&& p.stamp@ == stamp
}

pub open spec fn is_empty_cache(e: RecorderError) -> bool {
    e matches RecorderError::EmptyCache
}

pub open spec fn is_empty_header(e: RecorderError) -> bool {
    e matches RecorderError::EmptyHeader
}

/// Asking for a range backwards selects what asking for it forwards selects,
/// and gives a clip of the same length.
pub proof fn reversed_range_selects_same(es: Seq<TsEntry>, x: u64, y: u64)
    ensures
        selected(es, x, y) == selected(es, y, x),
        hi_of(x, y) - lo_of(x, y) == hi_of(y, x) - lo_of(y, x),
{
}

/// Relies on chrono::Utc::now and DateTime::format: the present UTC time as
/// month, day, hour, minute and second. Nothing is known of the value.
#[verifier::external_body]
fn capture_stamp() -> (r: String) {
    chrono::Utc::now().format("%m%d%H%M%S").to_string()
}

fn push_path(inputs: &mut Vec<String>, list: &mut String, dir: &str, name: &str)
    ensures
        views(final(inputs)@) == views(old(inputs)@).push(dir@ + "/"@ + name@),
        final(list)@ == old(list)@ + dir@ + "/"@ + name@ + "|"@,
{
    let mut p = String::from_str(dir);
    p.append("/");
    p.append(name);
    list.append(p.as_str());
    list.append("|");
    inputs.push(p);
    assert(views(final(inputs)@) =~= views(old(inputs)@).push(dir@ + "/"@ + name@));
}

/// The clip of range `x`..`y` of `es`, stored in `dir`, captured at `stamp`.
pub fn plan_clip(
    dir: &str,
    header: Option<&str>,
    es: &Vec<TsEntry>,
    x: u64,
    y: u64,
    output_path: &str,
    room_id: u64,
    label: &str,
    stamp: &str,
) -> (r: ClipPlan)
    ensures
        is_plan(
            r,
            dir@,
            match header {
                Some(h) => Some(h@),
                None => None,
            },
            es@,
            x,
            y,
            output_path@,
            room_id,
            label@,
            stamp@,
        ),
{
    let (lo, hi) = if x <= y {
        (x, y)
    } else {
        (y, x)
    };
    let n = es.len();
    let a: usize = if (lo as u128) < (n as u128) {
        lo as usize
    } else {
        n
    };
    let b: usize = if (hi as u128) < (n as u128) {
        hi as usize + 1
    } else {
        n
    };
    let ghost hv = match header {
        Some(h) => Some(h@),
        None => None::<Seq<char>>,
    };
    let ghost sel = selected(es@, x, y);
    assert(sel == es@.subrange(a as int, b as int));
    let mut inputs: Vec<String> = Vec::new();
    let mut list = String::new();
    if let Some(h) = header {
        push_path(&mut inputs, &mut list, dir, h);
    }
    let ghost start = views(inputs@);
    assert(start == clip_paths(dir@, hv, Seq::empty()));
    assert(list@ =~= joined(start)) by {
        if start.len() > 0 {
            assert(start.drop_last() =~= Seq::<Seq<char>>::empty());
            assert(joined(start) == joined(start.drop_last()) + start.last() + "|"@);
        } else {
            assert(start =~= Seq::<Seq<char>>::empty());
        }
    }
    let mut i: usize = a;
    while i < b
        invariant
            a <= i <= b,
            b <= es@.len(),
            sel == es@.subrange(a as int, b as int),
            start == clip_paths(dir@, hv, Seq::empty()),
            views(inputs@) == clip_paths(dir@, hv, es@.subrange(a as int, i as int)),
            list@ == joined(views(inputs@)),
        decreases b - i,
    {
        let ghost before = views(inputs@);
        let name = last_component_of(es[i].url.as_str());
        push_path(&mut inputs, &mut list, dir, name.as_str());
        proof {
            let f = |e: TsEntry| dir@ + "/"@ + last_component(e.url@);
            assert(es@.subrange(a as int, i + 1) =~= es@.subrange(a as int, i as int).push(es@[i as int]));
            assert(es@.subrange(a as int, i + 1).map_values(f) =~= es@.subrange(a as int, i as int).map_values(
                f,
            ).push(f(es@[i as int])));
            assert(views(inputs@) =~= clip_paths(dir@, hv, es@.subrange(a as int, i + 1)));
            assert(views(inputs@).drop_last() =~= before);
        }
        i = i + 1;
    }
    let mut args = String::from_str("-i concat:");
    args.append(list.as_str());
    args.append(" -c:v libx264 -c:a aac");
    let mut out = String::from_str(output_path);
    out.append("/[");
    push_decimal(&mut out, room_id);
    out.append("]");
    out.append(label);
    out.append("_");
    out.append(stamp);
    out.append("_");
    push_decimal(&mut out, hi - lo);
    out.append(".0.mp4");
    assert(out@ =~= clip_file_name(output_path@, room_id, label@, stamp@, (hi - lo) as nat));
    assert(args@ =~= clip_args(views(inputs@)));
    ClipPlan { inputs, args, output_file: out, stamp: String::from_str(stamp) }
}

/// The first five characters of a room title, which label a live clip.
pub open spec fn title_label(title: Seq<char>) -> Seq<char> {
    title.subrange(0, if title.len() < 5 {
        title.len() as int
    } else {
        5
    })
}

impl BiliRecorder {
    /// The name of the initialization segment that a live clip starts with.
    pub open spec fn clip_header_name(&self) -> Option<Seq<char>> {
        match self.header {
            Some(h) if self.stream_type == StreamType::FMP4 => Some(last_component(h.url@)),
            _ => None,
        }
    }

    /// What planning a live clip gives: no clip from an empty cache, none from
    /// a fragmented stream without its initialization segment, else the plan
    /// for the range.
    pub open spec fn is_live_clip(
        &self,
        cache_root: Seq<char>,
        title: Seq<char>,
        x: u64,
        y: u64,
        output: Seq<char>,
        r: Result<ClipPlan, RecorderError>,
    ) -> bool {
        &&& self.entries@.len() == 0 <==> (r is Err && is_empty_cache(r->Err_0))
        &&& self.entries@.len() > 0 && self.stream_type == StreamType::FMP4 && self.header.is_none()
            <==> (r is Err && is_empty_header(r->Err_0))
        &&& r is Err ==> (is_empty_cache(r->Err_0) || is_empty_header(r->Err_0))
        &&& match r {
            Ok(p) => is_plan(
                p,
                work_dir_spec(cache_root, self.room_id, self.timestamp),
                self.clip_header_name(),
                self.entries@,
                x,
                y,
                output,
                self.room_id,
                title_label(title),
                p.stamp@,
            ),
            Err(_) => true,
        }
    }

    /// Plans a clip of range `x`..`y` (in cache units, either order) of the
    /// session being recorded.
    pub fn clip_live_range(
        &self,
        cache_root: &str,
        title: &str,
        x: u64,
        y: u64,
        output_path: &str,
    ) -> (r: Result<ClipPlan, RecorderError>)
        ensures
            self.is_live_clip(cache_root@, title@, x, y, output_path@, r),
    {
        if self.entries.len() == 0 {
            return Err(RecorderError::EmptyCache);
        }
        let header_name: Option<String> = if self.stream_type == StreamType::FMP4 {
            match &self.header {
                Some(h) => Some(last_component_of(h.url.as_str())),
                None => {
                    return Err(RecorderError::EmptyHeader);
                },
            }
        } else {
            None
        };
        let dir = work_dir(cache_root, self.room_id, self.timestamp);
        let n = title.unicode_len();
        let k: usize = if n < 5 {
            n
        } else {
            5
        };
        let label = title.substring_char(0, k);
        let stamp = capture_stamp();
        let hn: Option<&str> = match &header_name {
            Some(h) => Some(h.as_str()),
            None => None,
        };
        let p = plan_clip(
            dir.as_str(),
            hn,
            &self.entries,
            x,
            y,
            output_path,
            self.room_id,
            label,
            stamp.as_str(),
        );
        Ok(p)
    }

    /// Plans a clip of range `x`..`y` (in cache units, either order) of the
    /// finished session `ts` of this room, from the listing of its directory.
    pub fn clip_archive_range(
        &self,
        cache_root: &str,
        ts: u64,
        files: &Vec<DirFile>,
        x: u64,
        y: u64,
        output_path: &str,
    ) -> (r: Result<ClipPlan, RecorderError>)
        ensures
            is_archive_clip(self.room_id, cache_root@, ts, files@, x, y, output_path@, r),
    {
        let es = fs_entries(files);
        proof {
            lemma_listing_empty(files@, es@);
        }
        if es.len() == 0 {
            return Err(RecorderError::EmptyCache);
        }
        let dir = work_dir(cache_root, self.room_id, ts);
        let mut header = String::from_str("h");
        push_decimal(&mut header, ts);
        header.append(".m4s");
        let mut label = String::new();
        push_decimal(&mut label, ts);
        let stamp = capture_stamp();
        let p = plan_clip(
            dir.as_str(),
            Some(header.as_str()),
            &es,
            x,
            y,
            output_path,
            self.room_id,
            label.as_str(),
            stamp.as_str(),
        );
        assert(header@ =~= "h"@ + dec(ts as nat) + ".m4s"@);
        assert(label@ =~= dec(ts as nat));
        Ok(p)
    }

    /// Plans a clip of range `x`..`y` of session `ts`: from the cache when it
    /// is the session being recorded, else from `files`, the listing of its directory.
    pub fn clip_range(
        &self,
        cache_root: &str,
        title: &str,
        ts: u64,
        x: u64,
        y: u64,
        output_path: &str,
        files: &Vec<DirFile>,
    ) -> (r: Result<ClipPlan, RecorderError>)
        ensures
            self.timestamp == ts ==> self.is_live_clip(cache_root@, title@, x, y, output_path@, r),
            self.timestamp != ts ==> is_archive_clip(
                self.room_id,
                cache_root@,
                ts,
                files@,
                x,
                y,
                output_path@,
                r,
            ),
    {
        if self.timestamp == ts {
            self.clip_live_range(cache_root, title, x, y, output_path)
        } else {
            self.clip_archive_range(cache_root, ts, files, x, y, output_path)
        }
    }

    /// Plans a clip of the last `d` cache units of session `ts`, counted back
    /// from the length of the live cache.
    pub fn clip(
        &self,
        cache_root: &str,
        title: &str,
        ts: u64,
        d: u64,
        output_path: &str,
        files: &Vec<DirFile>,
    ) -> (r: Result<ClipPlan, RecorderError>)
        ensures
            ({
                let total = self.entries@.len() as u64;
                let x = if d <= total {
                    (total - d) as u64
                } else {
                    0
                };
                &&& self.timestamp == ts ==> self.is_live_clip(
                    cache_root@,
                    title@,
                    x,
                    total,
                    output_path@,
                    r,
                )
                &&& self.timestamp != ts ==> is_archive_clip(
                    self.room_id,
                    cache_root@,
                    ts,
                    files@,
                    x,
                    total,
                    output_path@,
                    r,
                )
            }),
    {
        let total = self.entries.len() as u64;
        let x = total.saturating_sub(d);
        self.clip_range(cache_root, title, ts, x, total, output_path, files)
    }
}

/// What planning an archive clip gives: no clip where the directory holds no
/// segment, else the plan for the range over the directory's listing, led by
/// the initialization segment named after the session.
pub open spec fn is_archive_clip(
    room_id: u64,
    cache_root: Seq<char>,
    ts: u64,
    files: Seq<DirFile>,
    x: u64,
    y: u64,
    output: Seq<char>,
    r: Result<ClipPlan, RecorderError>,
) -> bool {
    &&& (forall|i: int| 0 <= i < files.len() ==> (#[trigger] file_sequence(files[i].name@)).is_none())
        <==> (r is Err && is_empty_cache(r->Err_0))
    &&& r is Err ==> is_empty_cache(r->Err_0)
    &&& match r {
        Ok(p) => exists|es: Seq<TsEntry>| #[trigger]
            is_listing_of(files, es) && is_plan(
                p,
                work_dir_spec(cache_root, room_id, ts),
                Some("h"@ + dec(ts as nat) + ".m4s"@),
                es,
                x,
                y,
                output,
                room_id,
                dec(ts as nat),
                p.stamp@,
            ),
        Err(_) => true,
    }
}

/// Paths of two selections that agree entry by entry on file names are equal.
proof fn lemma_paths_same_names(dir: Seq<char>, header: Option<Seq<char>>, a: Seq<TsEntry>, b: Seq<TsEntry>)
    requires
        a.len() == b.len(),
        forall|i: int| 0 <= i < a.len() ==> (#[trigger] a[i]).url@ == b[i].url@,
    ensures
        clip_paths(dir, header, a) == clip_paths(dir, header, b),
{
    let f = |e: TsEntry| dir + "/"@ + last_component(e.url@);
    assert(a.map_values(f) =~= b.map_values(f));
}

/// Whether two clip results agree: both plans with the same inputs, arguments
/// and clip length, or both the same kind of error.
pub open spec fn same_clip(r1: Result<ClipPlan, RecorderError>, r2: Result<ClipPlan, RecorderError>) -> bool {
    match (r1, r2) {
        (Ok(p1), Ok(p2)) => views(p1.inputs@) == views(p2.inputs@) && p1.args@ == p2.args@,
        (Err(e1), Err(e2)) => (is_empty_cache(e1) && is_empty_cache(e2)) || (is_empty_header(e1)
            && is_empty_header(e2)),
        _ => false,
    }
}

/// A live clip asked for backwards is the clip asked for forwards.
pub proof fn live_clip_reversed_same(
    s: BiliRecorder,
    cache_root: Seq<char>,
    title: Seq<char>,
    x: u64,
    y: u64,
    output: Seq<char>,
    r1: Result<ClipPlan, RecorderError>,
    r2: Result<ClipPlan, RecorderError>,
)
    requires
        s.is_live_clip(cache_root, title, x, y, output, r1),
        s.is_live_clip(cache_root, title, y, x, output, r2),
    ensures
        same_clip(r1, r2),
{
    reversed_range_selects_same(s.entries@, x, y);
}

/// An archive clip asked for backwards is the clip asked for forwards.
pub proof fn archive_clip_reversed_same(
    room_id: u64,
    cache_root: Seq<char>,
    ts: u64,
    files: Seq<DirFile>,
    x: u64,
    y: u64,
    output: Seq<char>,
    r1: Result<ClipPlan, RecorderError>,
    r2: Result<ClipPlan, RecorderError>,
)
    requires
        is_archive_clip(room_id, cache_root, ts, files, x, y, output, r1),
        is_archive_clip(room_id, cache_root, ts, files, y, x, output, r2),
    ensures
        same_clip(r1, r2),
{
    if r1 is Ok && r2 is Ok {
        let p1 = r1->Ok_0;
        let p2 = r2->Ok_0;
        let dir = work_dir_spec(cache_root, room_id, ts);
        let h = Some("h"@ + dec(ts as nat) + ".m4s"@);
        let es1 = choose|es: Seq<TsEntry>|
            #[trigger] is_listing_of(files, es) && is_plan(
                p1,
                dir,
                h,
                es,
                x,
                y,
                output,
                room_id,
                dec(ts as nat),
                p1.stamp@,
            );
        let es2 = choose|es: Seq<TsEntry>|
            #[trigger] is_listing_of(files, es) && is_plan(
                p2,
                dir,
                h,
                es,
                y,
                x,
                output,
                room_id,
                dec(ts as nat),
                p2.stamp@,
            );
        lemma_listing_unique(files, es1, es2);
        reversed_range_selects_same(es2, x, y);
        let s1 = selected(es1, x, y);
        let s2 = selected(es2, x, y);
        assert forall|i: int| 0 <= i < s1.len() implies (#[trigger] s1[i]).url@ == s2[i].url@ by {
        }
        lemma_paths_same_names(dir, h, s1, s2);
    }
}

/// A clip of session `ts` asked for backwards is the clip asked for forwards,
/// whether the session is the one being recorded or a finished one.
pub proof fn clip_range_reversed_same(
    s: BiliRecorder,
    cache_root: Seq<char>,
    title: Seq<char>,
    ts: u64,
    x: u64,
    y: u64,
    output: Seq<char>,
    files: Seq<DirFile>,
    r1: Result<ClipPlan, RecorderError>,
    r2: Result<ClipPlan, RecorderError>,
)
    requires
        s.timestamp == ts ==> s.is_live_clip(cache_root, title, x, y, output, r1),
        s.timestamp != ts ==> is_archive_clip(s.room_id, cache_root, ts, files, x, y, output, r1),
        s.timestamp == ts ==> s.is_live_clip(cache_root, title, y, x, output, r2),
        s.timestamp != ts ==> is_archive_clip(s.room_id, cache_root, ts, files, y, x, output, r2),
    ensures
        same_clip(r1, r2),
{
    if s.timestamp == ts {
        live_clip_reversed_same(s, cache_root, title, x, y, output, r1, r2);
    } else {
        archive_clip_reversed_same(s.room_id, cache_root, ts, files, x, y, output, r1, r2);
    }
}

} // verus!
