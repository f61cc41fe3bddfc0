//! Segmentation of a labeled recording: trim the first and last stretch of
//! the recording by timestamp, then slide fixed-size, half-overlapping
//! windows over what remains.

use vstd::prelude::*;
use crate::AccelData;
use crate::WINDOW_SIZE;
use crate::features::spec_extract;
use crate::features::extract_window_features;

verus! {

/// Width of the trimmed band at each end of a recording, in timestamp units.
pub const TRIM_MARGIN: u64 = 1000;

/// Left fold of the running minimum timestamp.
pub open spec fn fold_min_ts(s: Seq<AccelData>, acc: u64) -> u64
    decreases s.len(),
{
    if s.len() == 0 {
        acc
    } else {
        fold_min_ts(s.drop_first(), if s[0].timestamp < acc { s[0].timestamp } else { acc })
    }
}

/// Left fold of the running maximum timestamp.
pub open spec fn fold_max_ts(s: Seq<AccelData>, acc: u64) -> u64
    decreases s.len(),
{
    if s.len() == 0 {
        acc
    } else {
        fold_max_ts(s.drop_first(), if s[0].timestamp > acc { s[0].timestamp } else { acc })
    }
}

/// The least timestamp of a non-empty sample sequence.
pub open spec fn spec_min_ts(s: Seq<AccelData>) -> u64 {
    fold_min_ts(s, u64::MAX)
}

/// The greatest timestamp of a non-empty sample sequence.
pub open spec fn spec_max_ts(s: Seq<AccelData>) -> u64 {
    fold_max_ts(s, 0)
}

/// A sample survives trimming when its timestamp lies strictly inside the
/// band `(lo + TRIM_MARGIN, hi - TRIM_MARGIN)` (bounds over the integers,
/// so a recording shorter than two margins keeps nothing).
pub open spec fn spec_kept(s: AccelData, lo: u64, hi: u64) -> bool {
    s.timestamp > lo + TRIM_MARGIN && s.timestamp + TRIM_MARGIN < hi
}

/// The survival test of one recording: keep a sample that lies strictly
/// inside the band between the trimmed margins.
pub open spec fn trim_pred(s: Seq<AccelData>) -> spec_fn(AccelData) -> bool {
    |x: AccelData| spec_kept(x, spec_min_ts(s), spec_max_ts(s))
}

/// The trimmed form of a recording: every sample within one margin of the
/// earliest or latest timestamp is dropped, and order is kept.
pub open spec fn spec_trim(s: Seq<AccelData>) -> Seq<AccelData> {
    if s.len() == 0 {
        Seq::empty()
    } else {
        s.filter(trim_pred(s))
    }
}

/// How many windows a trimmed recording of length `len` yields: none when
/// it is shorter than one window, else one per stride that still leaves a
/// full window.
pub open spec fn spec_window_count(len: int) -> int {
    if len < WINDOW_SIZE as int {
        0
    } else {
        (len - WINDOW_SIZE as int) / ((WINDOW_SIZE / 2) as int) + 1
    }
}

/// The window starting at stride index `j` of a sample sequence.
pub open spec fn spec_window_at(s: Seq<AccelData>, j: int) -> Seq<AccelData> {
    s.subrange(j * ((WINDOW_SIZE / 2) as int), j * ((WINDOW_SIZE / 2) as int) + WINDOW_SIZE as int)
}

/// Drops every sample within one margin of the ends of the recording.
/// An empty recording comes back empty.
pub fn trim_samples(samples: &Vec<AccelData>) -> (r: Vec<AccelData>)
    ensures
        r@ == spec_trim(samples@),
{
    let n = samples.len();
    let mut r: Vec<AccelData> = Vec::new();
    if n == 0 {
        proof {
            assert(r@ =~= spec_trim(samples@));
        }
        return r;
    }

    let mut lo: u64 = u64::MAX;
    let mut hi: u64 = 0;
    proof {
        assert(samples@.skip(0) =~= samples@);
    }
    let mut i: usize = 0;
    while i < n
        invariant
            n == samples@.len(),
            i <= n,
            fold_min_ts(samples@, u64::MAX) == fold_min_ts(samples@.skip(i as int), lo),
            fold_max_ts(samples@, 0) == fold_max_ts(samples@.skip(i as int), hi),
        decreases n - i,
    {
        proof {
            assert(samples@.skip(i as int).drop_first() =~= samples@.skip(i as int + 1));
            assert(samples@.skip(i as int)[0] == samples@[i as int]);
        }
        let ts = samples[i].timestamp;
        if ts < lo {
            lo = ts;
        }
        if ts > hi {
            hi = ts;
        }
        i = i + 1;
    }
    proof {
        assert(samples@.skip(n as int) =~= Seq::<AccelData>::empty());
        assert(lo == spec_min_ts(samples@));
        assert(hi == spec_max_ts(samples@));
    }

    proof {
        assert(samples@.take(0).filter(trim_pred(samples@)) =~= Seq::<AccelData>::empty());
    }
    let mut i: usize = 0;
    while i < n
        invariant
            n == samples@.len(),
            i <= n,
            lo == spec_min_ts(samples@),
            hi == spec_max_ts(samples@),
            r@ == samples@.take(i as int).filter(trim_pred(samples@)),
        decreases n - i,
    {
        let s = samples[i];
        proof {
            assert(samples@.take(i as int).push(samples@[i as int]) =~= samples@.take(
                i as int + 1,
            ));
            samples@.take(i as int).lemma_filter_push(samples@[i as int], trim_pred(samples@));
        }
        let keep = s.timestamp > lo && s.timestamp - lo > TRIM_MARGIN && s.timestamp < hi
            && hi - s.timestamp > TRIM_MARGIN;
        proof {
            assert(keep == spec_kept(samples@[i as int], lo, hi));
            assert(trim_pred(samples@)(samples@[i as int]) == spec_kept(
                samples@[i as int],
                spec_min_ts(samples@),
                spec_max_ts(samples@),
            ));
        }
        if keep {
            r.push(s);
        }
        i = i + 1;
    }
    proof {
        assert(samples@.take(n as int) =~= samples@);
    }
    r
}

/// Slides windows of `WINDOW_SIZE` samples, advancing by half a window each
/// step, over the whole sequence; yields each full window in order.
pub fn slide_windows(samples: &Vec<AccelData>) -> (r: Vec<Vec<AccelData>>)
    ensures
        r@.len() == spec_window_count(samples@.len() as int),
        forall|j: int| 0 <= j < r@.len() ==> (#[trigger] r@[j])@ == spec_window_at(samples@, j)
            && (#[trigger] r@[j])@.len() == WINDOW_SIZE as int,
{
    let n = samples.len();
    let mut r: Vec<Vec<AccelData>> = Vec::new();
    if n < WINDOW_SIZE {
        return r;
    }
    let stride: usize = WINDOW_SIZE / 2;
    let mut i: usize = 0;
    while i <= n - WINDOW_SIZE
        invariant
            n == samples@.len(),
            n >= WINDOW_SIZE,
            stride == WINDOW_SIZE / 2,
            i as int == r@.len() * (stride as int),
            r@.len() <= n,
            r@.len() >= 1 ==> (r@.len() - 1) * (stride as int) <= n - WINDOW_SIZE,
            forall|j: int| 0 <= j < r@.len() ==> (#[trigger] r@[j])@ == spec_window_at(samples@, j)
                && (#[trigger] r@[j])@.len() == WINDOW_SIZE as int,
        decreases n - i,
    {
        let mut w: Vec<AccelData> = Vec::new();
        let mut k: usize = i;
        while k < i + WINDOW_SIZE
            invariant
                n == samples@.len(),
                i + WINDOW_SIZE <= n,
                i <= k <= i + WINDOW_SIZE,
                w@ == samples@.subrange(i as int, k as int),
            decreases i + WINDOW_SIZE - k,
        {
            w.push(samples[k]);
            proof {
                assert(samples@.subrange(i as int, k as int).push(samples@[k as int]) =~= samples@
                    .subrange(i as int, k as int + 1));
            }
            k = k + 1;
        }
        proof {
            let j = r@.len() as int;
            assert(i as int == j * (stride as int));
            assert(w@ == spec_window_at(samples@, j));
        }
        r.push(w);
        i = i + stride;
    }
    proof {
        let k = r@.len() as int;
        let m = n as int - WINDOW_SIZE as int;
        let st = stride as int;
        assert(k * st > m);
        assert(k >= 1) by {
            if k == 0 {
                assert(k * st == 0);
            }
        }
        assert((k - 1) * st == k * st - st);
        assert((k - 1) * st <= m);
        assert(m / st == k - 1) by (nonlinear_arith)
            requires
                st == 32,
                (k - 1) * st <= m,
                k * st > m,
        ;
        assert(r@.len() == spec_window_count(samples@.len() as int));
    }
    r
}

/// Trims a recording and slides windows over the remainder: the windows of
/// the trimmed sequence, in order. Fewer than `WINDOW_SIZE` surviving
/// samples yield no windows.
pub fn segment(samples: &Vec<AccelData>) -> (r: Vec<Vec<AccelData>>)
    ensures
        r@.len() == spec_window_count(spec_trim(samples@).len() as int),
        forall|j: int| 0 <= j < r@.len() ==> (#[trigger] r@[j])@ == spec_window_at(
            spec_trim(samples@),
            j,
        ) && (#[trigger] r@[j])@.len() == WINDOW_SIZE as int,
{
    let trimmed = trim_samples(samples);
    slide_windows(&trimmed)
}

/// Segments a recording and extracts the feature vector of every window:
/// the training-time pipeline for one labeled source.
pub fn segment_features(samples: &Vec<AccelData>) -> (r: Vec<Vec<u32>>)
    ensures
        r@.len() == spec_window_count(spec_trim(samples@).len() as int),
        forall|j: int| 0 <= j < r@.len() ==> (#[trigger] r@[j])@ == spec_extract(
            spec_window_at(spec_trim(samples@), j),
        ),
{
    let windows = segment(samples);
    let mut r: Vec<Vec<u32>> = Vec::new();
    let mut i: usize = 0;
    while i < windows.len()
        invariant
            windows@.len() == spec_window_count(spec_trim(samples@).len() as int),
            forall|j: int| 0 <= j < windows@.len() ==> (#[trigger] windows@[j])@ == spec_window_at(
                spec_trim(samples@),
                j,
            ) && (#[trigger] windows@[j])@.len() == WINDOW_SIZE as int,
            i <= windows@.len(),
            r@.len() == i,
            forall|j: int| 0 <= j < i ==> (#[trigger] r@[j])@ == spec_extract(
                spec_window_at(spec_trim(samples@), j),
            ),
        decreases windows@.len() - i,
    {
        let f = extract_window_features(&windows[i]);
        r.push(f);
        i = i + 1;
    }
    r
}

} // verus!
