//! Rebuilding a session's segment list from the files of its directory.

use vstd::prelude::*;
use crate::segment::{sequences, strictly_increasing, DirFile, TsEntry};
use crate::text::{before_first, before_first_index, chars_of, parse_u64, parse_u64_spec};

verus! {

/// The sequence number that a file of a session directory stands for: the
/// number before the first `.` of its name. Initialization segments (names
/// starting with `h`) and names that hold no number stand for none.
pub open spec fn file_sequence(name: Seq<char>) -> Option<u64> {
    if name.len() > 0 && name[0] == 'h' {
        None
    } else {
        parse_u64_spec(before_first(name, '.'))
    }
}

/// The cache entry that `e` is when read back from the file `f`.
pub open spec fn read_back(f: DirFile, e: TsEntry) -> bool {
    &&& file_sequence(f.name@) == Some(e.sequence)
    &&& e.url@ == f.name@
    &&& e.size == f.size
}

/// Whether `files[i]` is the first file of the listing that stands for `seq`.
pub open spec fn first_for(files: Seq<DirFile>, i: int, seq: u64) -> bool {
    &&& 0 <= i < files.len()
    &&& file_sequence(files[i].name@) == Some(seq)
    &&& forall|j: int| 0 <= j < i ==> file_sequence(#[trigger] files[j].name@) != Some(seq)
}

/// `es` is what a scan of the directory listing `files` gives: its segment
/// files in strictly increasing sequence order, each sequence number once,
/// read back from the first file listed for it.
pub open spec fn is_listing_of(files: Seq<DirFile>, es: Seq<TsEntry>) -> bool {
    &&& strictly_increasing(es)
    &&& forall|x: TsEntry| #[trigger]
        es.contains(x) ==> exists|i: int| first_for(files, i, x.sequence) && read_back(files[i], x)
    &&& forall|i: int|
        0 <= i < files.len() && (#[trigger] file_sequence(files[i].name@)).is_some() ==> exists|j: int|
            0 <= j < es.len() && es[j].sequence == file_sequence(files[i].name@).unwrap()
}

/// A listing is empty exactly when no file of the directory is a segment.
pub proof fn lemma_listing_empty(files: Seq<DirFile>, es: Seq<TsEntry>)
    requires
        is_listing_of(files, es),
    ensures
        es.len() == 0 <==> forall|i: int|
            0 <= i < files.len() ==> (#[trigger] file_sequence(files[i].name@)).is_none(),
{
    if es.len() > 0 {
        assert(es.contains(es[0]));
        let i = choose|i: int| 0 <= i < files.len() && read_back(files[i], es[0]);
        assert(file_sequence(files[i].name@).is_some());
    }
}

/// Two strictly increasing sequences with the same members are equal.
pub proof fn lemma_increasing_same_members(a: Seq<u64>, b: Seq<u64>)
    requires
        forall|i: int, j: int| 0 <= i < j < a.len() ==> a[i] < a[j],
        forall|i: int, j: int| 0 <= i < j < b.len() ==> b[i] < b[j],
        forall|i: int| 0 <= i < a.len() ==> b.contains(#[trigger] a[i]),
        forall|j: int| 0 <= j < b.len() ==> a.contains(#[trigger] b[j]),
    ensures
        a == b,
    decreases a.len(),
{
    if a.len() == 0 {
        if b.len() > 0 {
            assert(a.contains(b[0]));
        }
        assert(a =~= b);
    } else {
        assert(b.contains(a[0]));
        let j = choose|j: int| 0 <= j < b.len() && b[j] == a[0];
        assert(a.contains(b[0]));
        let i = choose|i: int| 0 <= i < a.len() && a[i] == b[0];
        if i > 0 {
            assert(a[0] < a[i]);
        }
        if j > 0 {
            assert(b[0] < b[j]);
        }
        let a1 = a.drop_first();
        let b1 = b.drop_first();
        assert forall|k: int| 0 <= k < a1.len() implies b1.contains(#[trigger] a1[k]) by {
            assert(a1[k] == a[k + 1]);
            assert(a[0] < a[k + 1]);
            assert(b.contains(a[k + 1]));
            let m = choose|m: int| 0 <= m < b.len() && b[m] == a[k + 1];
            assert(m != 0);
            assert(b1[m - 1] == b[m]);
        }
        assert forall|k: int| 0 <= k < b1.len() implies a1.contains(#[trigger] b1[k]) by {
            assert(b1[k] == b[k + 1]);
            assert(b[0] < b[k + 1]);
            assert(a.contains(b[k + 1]));
            let m = choose|m: int| 0 <= m < a.len() && a[m] == b[k + 1];
            assert(m != 0);
            assert(a1[m - 1] == a[m]);
        }
        lemma_increasing_same_members(a1, b1);
        assert forall|k: int| 0 <= k < a.len() implies a[k] == b[k] by {
            if k > 0 {
                assert(a[k] == a1[k - 1]);
                assert(b[k] == b1[k - 1]);
            }
        }
        assert(a =~= b);
    }
}

/// A directory listing fixes its scan: two scans of it agree, entry by entry,
/// in sequence number, file name and size.
pub proof fn lemma_listing_unique(files: Seq<DirFile>, a: Seq<TsEntry>, b: Seq<TsEntry>)
    requires
        is_listing_of(files, a),
        is_listing_of(files, b),
    ensures
        a.len() == b.len(),
        forall|i: int|
            0 <= i < a.len() ==> (#[trigger] a[i]).sequence == b[i].sequence && a[i].url@ == b[i].url@
                && a[i].size == b[i].size,
{
    let sa = sequences(a);
    let sb = sequences(b);
    assert forall|i: int| 0 <= i < sa.len() implies sb.contains(#[trigger] sa[i]) by {
        assert(a.contains(a[i]));
        let k = choose|k: int| first_for(files, k, a[i].sequence) && read_back(files[k], a[i]);
        let j = choose|j: int|
            0 <= j < b.len() && b[j].sequence == file_sequence(files[k].name@).unwrap();
        assert(sb[j] == sa[i]);
    }
    assert forall|i: int| 0 <= i < sb.len() implies sa.contains(#[trigger] sb[i]) by {
        assert(b.contains(b[i]));
        let k = choose|k: int| first_for(files, k, b[i].sequence) && read_back(files[k], b[i]);
        let j = choose|j: int|
            0 <= j < a.len() && a[j].sequence == file_sequence(files[k].name@).unwrap();
        assert(sa[j] == sb[i]);
    }
    assert forall|i: int, j: int| 0 <= i < j < sa.len() implies sa[i] < sa[j] by {
        assert(a[i].sequence < a[j].sequence);
    }
    assert forall|i: int, j: int| 0 <= i < j < sb.len() implies sb[i] < sb[j] by {
        assert(b[i].sequence < b[j].sequence);
    }
    lemma_increasing_same_members(sa, sb);
    assert forall|i: int| 0 <= i < a.len() implies (#[trigger] a[i]).sequence == b[i].sequence
        && a[i].url@ == b[i].url@ && a[i].size == b[i].size by {
        assert(sa[i] == sb[i]);
        assert(a.contains(a[i]));
        assert(b.contains(b[i]));
        let k1 = choose|k: int| first_for(files, k, a[i].sequence) && read_back(files[k], a[i]);
        let k2 = choose|k: int| first_for(files, k, b[i].sequence) && read_back(files[k], b[i]);
        if k1 < k2 {
            assert(file_sequence(files[k1].name@) != Some(b[i].sequence));
        } else if k2 < k1 {
            assert(file_sequence(files[k2].name@) != Some(a[i].sequence));
        }
    }
}

/// Puts `e` into its place in a list ordered by sequence number, unless an
/// entry with its sequence number is there already.
fn insert_in_order(r: &mut Vec<TsEntry>, e: TsEntry)
    requires
        strictly_increasing(old(r)@),
    ensures
        strictly_increasing(final(r)@),
        forall|x: TsEntry| #[trigger]
            final(r)@.contains(x) ==> old(r)@.contains(x) || (x == e && forall|j: int|
                0 <= j < old(r)@.len() ==> (#[trigger] old(r)@[j]).sequence != e.sequence),
        forall|x: TsEntry| old(r)@.contains(x) ==> #[trigger] final(r)@.contains(x),
        exists|j: int| 0 <= j < final(r)@.len() && final(r)@[j].sequence == e.sequence,
{
    let s = e.sequence;
    let mut p: usize = 0;
    while p < r.len() && r[p].sequence < s
        invariant
            p <= r@.len(),
            forall|j: int| 0 <= j < p ==> (#[trigger] r@[j]).sequence < s,
        decreases r.len() - p,
    {
        p = p + 1;
    }
    if p < r.len() && r[p].sequence == s {
        return;
    }
    let ghost old_r = r@;
    proof {
        assert forall|j: int| 0 <= j < old_r.len() implies (#[trigger] old_r[j]).sequence != s by {
            if j > p {
                assert(old_r[p as int].sequence < old_r[j].sequence);
            }
        }
        assert forall|j: int| p <= j < old_r.len() implies (#[trigger] old_r[j]).sequence > s by {
            if j > p {
                assert(old_r[p as int].sequence < old_r[j].sequence);
            }
        }
    }
    r.insert(p, e);
    proof {
        assert(r@[p as int] == e);
        assert forall|a: int, b: int| 0 <= a < b < r@.len() implies r@[a].sequence
            < r@[b].sequence by {
            if b < p {
            } else if b == p {
            } else if a < p {
                assert(r@[b] == old_r[b - 1]);
            } else if a == p {
                assert(r@[b] == old_r[b - 1]);
            } else {
                assert(r@[a] == old_r[a - 1]);
                assert(r@[b] == old_r[b - 1]);
            }
        }
        assert forall|x: TsEntry| #[trigger] r@.contains(x) implies old_r.contains(x) || (x == e
            && forall|j: int| 0 <= j < old_r.len() ==> (#[trigger] old_r[j]).sequence != e.sequence) by {
            let j = choose|j: int| 0 <= j < r@.len() && r@[j] == x;
            if j < p {
                assert(old_r[j] == x);
            } else if j > p {
                assert(old_r[j - 1] == x);
            }
        }
        assert forall|x: TsEntry| old_r.contains(x) implies #[trigger] r@.contains(x) by {
            let j = choose|j: int| 0 <= j < old_r.len() && old_r[j] == x;
            if j < p {
                assert(r@[j] == x);
            } else {
                assert(r@[j + 1] == x);
            }
        }
    }
}

/// The segment files of a directory listing, in ascending sequence order, one
/// entry per sequence number.
pub fn fs_entries(files: &Vec<DirFile>) -> (r: Vec<TsEntry>)
    ensures
        is_listing_of(files@, r@),
{
    let mut r: Vec<TsEntry> = Vec::new();
    let mut i: usize = 0;
    while i < files.len()
        invariant
            i <= files@.len(),
            strictly_increasing(r@),
            forall|x: TsEntry| #[trigger]
                r@.contains(x) ==> exists|i2: int|
                    i2 < i && first_for(files@, i2, x.sequence) && read_back(files@[i2], x),
            forall|i2: int|
                0 <= i2 < i && (#[trigger] file_sequence(files@[i2].name@)).is_some()
                    ==> exists|j: int|
                    0 <= j < r@.len() && r@[j].sequence == file_sequence(files@[i2].name@).unwrap(),
        decreases files.len() - i,
    {
        let f = &files[i];
        let cs = chars_of(f.name.as_str());
        if cs.len() > 0 && cs[0] == 'h' {
            i = i + 1;
            continue;
        }
        let k = before_first_index(cs.as_slice(), '.');
        let parsed = parse_u64(&cs.as_slice()[0..k]);
        assert(cs@.subrange(0, k as int) == before_first(f.name@, '.'));
        match parsed {
            Some(s) => {
                let e = TsEntry { url: f.name.clone(), sequence: s, size: f.size };
                assert(read_back(files@[i as int], e));
                let ghost old_r = r@;
                insert_in_order(&mut r, e);
                proof {
                    assert forall|x: TsEntry| #[trigger] r@.contains(x) implies exists|i2: int|
                        i2 < i + 1 && first_for(files@, i2, x.sequence) && read_back(
                            files@[i2],
                            x,
                        ) by {
                        if !old_r.contains(x) {
                            assert(x == e);
                            assert forall|j: int| 0 <= j < i implies file_sequence(
                                #[trigger] files@[j].name@,
                            ) != Some(s) by {
                                if file_sequence(files@[j].name@) == Some(s) {
                                    let k = choose|k: int|
                                        0 <= k < old_r.len() && old_r[k].sequence
                                            == file_sequence(files@[j].name@).unwrap();
                                    assert(old_r[k].sequence == s);
                                }
                            }
                            assert(first_for(files@, i as int, s));
                        }
                    }
                    assert forall|i2: int|
                        0 <= i2 < i + 1 && (#[trigger] file_sequence(files@[i2].name@)).is_some()
                            implies exists|j: int|
                        0 <= j < r@.len() && r@[j].sequence == file_sequence(
                            files@[i2].name@,
                        ).unwrap() by {
                        if i2 < i {
                            let j = choose|j: int|
                                0 <= j < old_r.len() && old_r[j].sequence == file_sequence(
                                    files@[i2].name@,
                                ).unwrap();
                            assert(old_r.contains(old_r[j]));
                            assert(r@.contains(old_r[j]));
                        }
                    }
                }
            },
            None => {},
        }
        i = i + 1;
    }
    r
}

} // verus!
