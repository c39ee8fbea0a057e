//! Ids that the automatic numbering of variants passes over.
use vstd::prelude::*;
use std::ops::Range;
use crate::errors::AttrError;

verus! {

/// `x` lies in the half-open range `r`.
pub open spec fn in_range(r: Range<i32>, x: int) -> bool {
    r.start <= x < r.end
}

/// Some range of `rs` holds `x`.
pub open spec fn covers(rs: Seq<Range<i32>>, x: int) -> bool {
    exists|i: int| 0 <= i < rs.len() && #[trigger] in_range(rs[i], x)
}

/// Every range starts no later than it ends, and each range ends no later
/// than the next one starts: the order that a binary search relies on.
pub open spec fn sorted_disjoint(rs: Seq<Range<i32>>) -> bool {
    &&& forall|i: int| 0 <= i < rs.len() ==> (#[trigger] rs[i]).start <= rs[i].end
    &&& forall|i: int, j: int| 0 <= i < j < rs.len() ==> (#[trigger] rs[i]).end <= (#[trigger] rs[j]).start
}

/// Non-empty ranges in increasing order with a gap between neighbours: each
/// id that the list covers lies in exactly one range, and the end of a range
/// is never covered.
pub open spec fn normalized(rs: Seq<Range<i32>>) -> bool {
    &&& forall|i: int| 0 <= i < rs.len() ==> (#[trigger] rs[i]).start < rs[i].end
    &&& forall|i: int, j: int| 0 <= i < j < rs.len() ==> (#[trigger] rs[i]).end < (#[trigger] rs[j]).start
}

pub proof fn lemma_normalized_sorted(rs: Seq<Range<i32>>)
    requires
        normalized(rs),
    ensures
        sorted_disjoint(rs),
{
}

/// Tells whether `id` lies in one of `sorted_ranges`, by binary search.
/// A `true` answer is always right; when the ranges are sorted and disjoint
/// the answer is exact.
pub fn is_skipped(id: i32, sorted_ranges: &[Range<i32>]) -> (res: bool)
    ensures
        res ==> covers(sorted_ranges@, id as int),
        sorted_disjoint(sorted_ranges@) ==> (res == covers(sorted_ranges@, id as int)),
{
    let mut lo: usize = 0;
    let mut hi: usize = sorted_ranges.len();
    while lo < hi
        invariant
            lo <= hi <= sorted_ranges@.len(),
            sorted_disjoint(sorted_ranges@) ==> forall|i: int|
                0 <= i < sorted_ranges@.len() && !(lo <= i < hi) ==> !in_range(
                    #[trigger] sorted_ranges@[i],
                    id as int,
                ),
        decreases hi - lo,
    {
        let mid = lo + (hi - lo) / 2;
        let r = &sorted_ranges[mid];
        if r.start <= id && id < r.end {
            assert(in_range(sorted_ranges@[mid as int], id as int));
            return true;
        } else if id < r.start {
            hi = mid;
        } else {
            lo = mid + 1;
        }
    }
    proof {
        if sorted_disjoint(sorted_ranges@) && covers(sorted_ranges@, id as int) {
            let i = choose|i: int| 0 <= i < sorted_ranges@.len() && #[trigger] in_range(sorted_ranges@[i], id as int);
            assert(!in_range(sorted_ranges@[i], id as int));
        }
    }
    false
}


proof fn lemma_covers_push(rs: Seq<Range<i32>>, r: Range<i32>, x: int)
    ensures
        covers(rs.push(r), x) <==> (covers(rs, x) || in_range(r, x)),
{
    if covers(rs.push(r), x) {
        let i = choose|i: int| 0 <= i < rs.push(r).len() && #[trigger] in_range(rs.push(r)[i], x);
        if i < rs.len() {
            assert(in_range(rs[i], x));
        }
    }
    if covers(rs, x) {
        let i = choose|i: int| 0 <= i < rs.len() && #[trigger] in_range(rs[i], x);
        assert(in_range(rs.push(r)[i], x));
    }
    if in_range(r, x) {
        assert(in_range(rs.push(r)[rs.len() as int], x));
    }
}

/// Some range of `rs` from position `k` on holds `x`.
spec fn covers_from(rs: Seq<Range<i32>>, k: int, x: int) -> bool {
    exists|i: int| k <= i < rs.len() && #[trigger] in_range(rs[i], x)
}

proof fn lemma_covers_from_step(rs: Seq<Range<i32>>, k: int, x: int)
    requires
        0 <= k < rs.len(),
    ensures
        covers_from(rs, k, x) <==> (in_range(rs[k], x) || covers_from(rs, k + 1, x)),
{
    if covers_from(rs, k, x) {
        let i = choose|i: int| k <= i < rs.len() && #[trigger] in_range(rs[i], x);
    }
    if in_range(rs[k], x) {
        assert(k <= k < rs.len());
    }
}

/// Adds the ids of the non-empty range `r` to the normalized list `rs`,
/// merging every range that overlaps or touches it.
#[verifier::rlimit(40)]
fn insert_range(rs: &Vec<Range<i32>>, r: Range<i32>) -> (out: Vec<Range<i32>>)
    requires
        normalized(rs@),
        r.start < r.end,
    ensures
        normalized(out@),
        forall|x: int| #[trigger] covers(out@, x) <==> (covers(rs@, x) || in_range(r, x)),
{
    let mut out: Vec<Range<i32>> = Vec::new();
    let mut cs: i32 = r.start;
    let mut ce: i32 = r.end;
    let mut placed = false;
    let mut k: usize = 0;
    assert forall|x: int| covers(rs@, x) <==> covers_from(rs@, 0, x) by {
        if covers(rs@, x) {
            let i = choose|i: int| 0 <= i < rs@.len() && #[trigger] in_range(rs@[i], x);
        }
    }
    while k < rs.len()
        invariant
            k <= rs@.len(),
            normalized(rs@),
            normalized(out@),
            r.start < r.end,
            cs <= r.start,
            r.end <= ce,
            cs < ce,
            forall|i: int, j: int|
                0 <= i < out@.len() && k <= j < rs@.len() ==> (#[trigger] out@[i]).end < (#[trigger] rs@[j]).start,
            !placed ==> forall|i: int| 0 <= i < out@.len() ==> (#[trigger] out@[i]).end < cs,
            forall|x: int|
                #![trigger covers(rs@, x)]
                (covers(out@, x) || (!placed && cs <= x < ce) || covers_from(rs@, k as int, x))
                    <==> (covers(rs@, x) || in_range(r, x)),
        decreases rs@.len() - k,
    {
        let n: Range<i32> = rs[k].start..rs[k].end;
        let ghost old_out = out@;
        let ghost old_cs = cs;
        let ghost old_ce = ce;
        let ghost old_placed = placed;
        if placed || n.end < cs {
            out.push(n.start..n.end);
            proof {
                assert forall|x: int| covers(out@, x) <==> (covers(old_out, x) || in_range(n, x)) by {
                    lemma_covers_push(old_out, n, x);
                }
            }
        } else if n.start > ce {
            let merged: Range<i32> = cs..ce;
            out.push(cs..ce);
            let ghost mid = out@;
            out.push(n.start..n.end);
            placed = true;
            proof {
                assert forall|x: int| covers(out@, x) <==> (covers(old_out, x) || in_range(merged, x) || in_range(n, x)) by {
                    lemma_covers_push(old_out, merged, x);
                    lemma_covers_push(mid, n, x);
                }
            }
        } else {
            if n.start < cs {
                cs = n.start;
            }
            if n.end > ce {
                ce = n.end;
            }
        }
        proof {
            assert forall|x: int|
                #![trigger covers(rs@, x)]
                (covers(out@, x) || (!placed && cs <= x < ce) || covers_from(rs@, k + 1, x))
                    <==> (covers(rs@, x) || in_range(r, x)) by {
                lemma_covers_from_step(rs@, k as int, x);
                assert(in_range(n, x) == in_range(rs@[k as int], x));
                assert((covers(old_out, x) || (!old_placed && old_cs <= x < old_ce) || covers_from(rs@, k as int, x))
                    <==> (covers(rs@, x) || in_range(r, x)));
            }
            assert forall|i: int, j: int|
                0 <= i < out@.len() && k + 1 <= j < rs@.len() implies (#[trigger] out@[i]).end < (#[trigger] rs@[j]).start by {
                assert(rs@[k as int].end < rs@[j].start);
                if i < old_out.len() {
                    assert(old_out[i] == out@[i]);
                }
            }
        }
        k = k + 1;
    }
    let ghost before_last = out@;
    if !placed {
        out.push(cs..ce);
    }
    proof {
        assert forall|x: int| #[trigger] covers(out@, x) <==> (covers(rs@, x) || in_range(r, x)) by {
            if !placed {
                lemma_covers_push(before_last, cs..ce, x);
            }
            assert(!covers_from(rs@, rs@.len() as int, x));
            if !placed {
                assert(in_range(cs..ce, x) == (cs <= x < ce));
            }
        }
    }
    out
}

/// The normalized list that holds the ids of the given ranges, in whatever
/// order they come and whether or not they touch, overlap or are empty.
pub(crate) fn normalize_ranges(ranges: &Vec<Range<i32>>) -> (res: Vec<Range<i32>>)
    ensures
        normalized(res@),
        forall|x: int| #[trigger] covers(res@, x) <==> covers(ranges@, x),
{
    let mut rs: Vec<Range<i32>> = Vec::new();
    let mut i: usize = 0;
    while i < ranges.len()
        invariant
            i <= ranges@.len(),
            normalized(rs@),
            forall|x: int| #[trigger] covers(rs@, x) <==> covers(ranges@.take(i as int), x),
        decreases ranges@.len() - i,
    {
        let start = ranges[i].start;
        let end = ranges[i].end;
        let ghost before = rs@;
        if start < end {
            rs = insert_range(&rs, start..end);
        }
        proof {
            let t = ranges@.take(i as int);
            let u = ranges@.take(i + 1);
            assert(u =~= t.push(ranges@[i as int]));
            assert forall|x: int| #[trigger] covers(rs@, x) <==> covers(u, x) by {
                lemma_covers_push(t, ranges@[i as int], x);
                assert(in_range(ranges@[i as int], x) <==> (start <= x < end));
                if start < end {
                    assert(in_range(start..end, x) <==> (start <= x < end));
                }
            }
        }
        i = i + 1;
    }
    assert(ranges@.take(ranges@.len() as int) =~= ranges@);
    rs
}

/// Two normalized lists that hold the same ids are the same list.
pub proof fn lemma_normalized_unique(a: Seq<Range<i32>>, b: Seq<Range<i32>>)
    requires
        normalized(a),
        normalized(b),
        forall|x: int| #![trigger covers(a, x)] #![trigger covers(b, x)] covers(a, x) <==> covers(b, x),
    ensures
        a == b,
    decreases a.len() + b.len(),
{
    if a.len() == 0 || b.len() == 0 {
        if a.len() > 0 {
            assert(in_range(a[0], a[0].start as int));
            assert(covers(a, a[0].start as int));
        }
        if b.len() > 0 {
            assert(in_range(b[0], b[0].start as int));
            assert(covers(b, b[0].start as int));
        }
        assert(a =~= b);
    } else {
        let a0 = a[0];
        let b0 = b[0];
        assert(in_range(a0, a0.start as int));
        assert(covers(a, a0.start as int));
        assert(in_range(b0, b0.start as int));
        assert(covers(b, b0.start as int));
        if a0.start < b0.start {
            let j = choose|j: int| 0 <= j < b.len() && #[trigger] in_range(b[j], a0.start as int);
            if j > 0 {
                assert(b[0].end < b[j].start);
            }
            assert(false);
        }
        if b0.start < a0.start {
            let j = choose|j: int| 0 <= j < a.len() && #[trigger] in_range(a[j], b0.start as int);
            if j > 0 {
                assert(a[0].end < a[j].start);
            }
            assert(false);
        }
        if a0.end < b0.end {
            assert(in_range(b0, a0.end as int));
            assert(covers(b, a0.end as int));
            let j = choose|j: int| 0 <= j < a.len() && #[trigger] in_range(a[j], a0.end as int);
            if j > 0 {
                assert(a[0].end < a[j].start);
            }
            assert(false);
        }
        if b0.end < a0.end {
            assert(in_range(a0, b0.end as int));
            assert(covers(a, b0.end as int));
            let j = choose|j: int| 0 <= j < b.len() && #[trigger] in_range(b[j], b0.end as int);
            if j > 0 {
                assert(b[0].end < b[j].start);
            }
            assert(false);
        }
        let ra = a.drop_first();
        let rb = b.drop_first();
        assert forall|x: int| #![trigger covers(ra, x)] #![trigger covers(rb, x)] covers(ra, x) <==> covers(rb, x) by {
            lemma_covers_rest(a, x);
            lemma_covers_rest(b, x);
        }
        lemma_normalized_unique(ra, rb);
        assert(a =~= b) by {
            assert forall|i: int| 0 <= i < a.len() implies a[i] == b[i] by {
                if i > 0 {
                    assert(a[i] == ra[i - 1]);
                    assert(b[i] == rb[i - 1]);
                }
            }
        }
    }
}

/// Past its first range, a normalized list holds exactly the ids from the
/// end of that range on that the whole list holds.
proof fn lemma_covers_rest(a: Seq<Range<i32>>, x: int)
    requires
        normalized(a),
        a.len() > 0,
    ensures
        covers(a.drop_first(), x) <==> (covers(a, x) && x >= a[0].end),
{
    let r = a.drop_first();
    if covers(r, x) {
        let j = choose|j: int| 0 <= j < r.len() && #[trigger] in_range(r[j], x);
        assert(a[j + 1] == r[j]);
        assert(in_range(a[j + 1], x));
        assert(a[0].end < a[j + 1].start);
    }
    if covers(a, x) && x >= a[0].end {
        let j = choose|j: int| 0 <= j < a.len() && #[trigger] in_range(a[j], x);
        assert(j > 0);
        assert(in_range(r[j - 1], x));
    }
}

/// The normalized list of ranges that holds exactly the ids that the entries name.
pub open spec fn normalized_form(entries: Seq<SkipIdEntry>) -> Seq<Range<i32>> {
    choose|rs: Seq<Range<i32>>| normalized(rs) && forall|x: int| #[trigger] covers(rs, x) <==> entries_hold(entries, x)
}

/// One item of a `skip_ids(..)` list.
#[derive(Clone, Copy, Debug, PartialEq, Eq)]
pub enum SkipIdEntry {
    /// A single id, such as `6`.
    Single(i32),
    /// The ids of a half-open range, such as `1..6`.
    HalfOpen(i32, i32),
    /// The ids of a closed range, such as `7..=10`.
    Inclusive(i32, i32),
}

/// The entry names `x`.
pub open spec fn entry_holds(e: SkipIdEntry, x: int) -> bool {
    match e {
        SkipIdEntry::Single(n) => x == n,
        SkipIdEntry::HalfOpen(a, b) => a <= x < b,
        SkipIdEntry::Inclusive(a, b) => a <= x <= b,
    }
}

/// The ids that the entry names can be written as a half-open range of `i32`:
/// false only where the last id named is the largest `i32`.
pub open spec fn entry_fits(e: SkipIdEntry) -> bool {
    match e {
        SkipIdEntry::Single(n) => n < i32::MAX,
        SkipIdEntry::HalfOpen(_, _) => true,
        SkipIdEntry::Inclusive(a, b) => a > b || b < i32::MAX,
    }
}

/// Every entry of the list fits.
pub open spec fn entries_fit(es: Seq<SkipIdEntry>) -> bool {
    forall|i: int| 0 <= i < es.len() ==> entry_fits(#[trigger] es[i])
}

/// Some entry of the list names `x`.
pub open spec fn entries_hold(es: Seq<SkipIdEntry>, x: int) -> bool {
    exists|i: int| 0 <= i < es.len() && #[trigger] entry_holds(es[i], x)
}

/// Turns the entries of a `skip_ids(..)` list into the normalized list of
/// half-open ranges that holds exactly the ids that the entries name.
pub fn normalize_skip_ids(entries: &Vec<SkipIdEntry>) -> (res: Result<Vec<Range<i32>>, AttrError>)
    ensures
        res is Ok <==> entries_fit(entries@),
        res is Err ==> res->Err_0 == AttrError::InvalidSkipIds,
        res matches Ok(rs) ==> normalized(rs@) && forall|x: int|
            #[trigger] covers(rs@, x) <==> entries_hold(entries@, x),
        res matches Ok(rs) ==> rs@ == normalized_form(entries@),
{
    let mut rs: Vec<Range<i32>> = Vec::new();
    let mut i: usize = 0;
    while i < entries.len()
        invariant
            i <= entries@.len(),
            normalized(rs@),
            forall|j: int| 0 <= j < i ==> entry_fits(#[trigger] entries@[j]),
            forall|x: int| #[trigger] covers(rs@, x) <==> entries_hold(entries@.take(i as int), x),
        decreases entries@.len() - i,
    {
        let e = entries[i];
        let (start, end): (i32, i32) = match e {
            SkipIdEntry::Single(n) => {
                if n == i32::MAX {
                    return Err(AttrError::InvalidSkipIds);
                }
                (n, n + 1)
            },
            SkipIdEntry::HalfOpen(a, b) => (a, b),
            SkipIdEntry::Inclusive(a, b) => {
                if a <= b && b == i32::MAX {
                    return Err(AttrError::InvalidSkipIds);
                }
                if a > b {
                    (a, a)
                } else {
                    (a, b + 1)
                }
            },
        };
        let ghost before = rs@;
        if start < end {
            rs = insert_range(&rs, start..end);
        }
        proof {
            assert forall|x: int| #[trigger] covers(rs@, x) <==> entries_hold(entries@.take(i + 1), x) by {
                let t = entries@.take(i as int);
                let u = entries@.take(i + 1);
                assert(u[i as int] == e);
                if entries_hold(u, x) {
                    let j = choose|j: int| 0 <= j < u.len() && #[trigger] entry_holds(u[j], x);
                    if j < i {
                        assert(entry_holds(t[j], x));
                    }
                }
                if entries_hold(t, x) {
                    let j = choose|j: int| 0 <= j < t.len() && #[trigger] entry_holds(t[j], x);
                    assert(entry_holds(u[j], x));
                }
                if entry_holds(e, x) {
                    assert(entry_holds(u[i as int], x));
                }
                assert(covers(before, x) <==> entries_hold(t, x));
                assert(entry_holds(e, x) <==> (start <= x < end));
                if start < end {
                    assert(in_range(start..end, x) <==> (start <= x < end));
                }
            }
        }
        i = i + 1;
    }
    proof {
        assert(entries@.take(entries@.len() as int) =~= entries@);
        let f = normalized_form(entries@);
        assert(normalized(rs@) && forall|x: int| #[trigger] covers(rs@, x) <==> entries_hold(entries@, x));
        lemma_normalized_unique(rs@, f);
    }
    Ok(rs)
}

} // verus!
