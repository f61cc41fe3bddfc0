//! The raw-buffer inference path: a host hands over a flat buffer of
//! single-precision bit patterns, three per reading, and receives the
//! feature vector of the window they form. Trailing values that do not
//! complete a triple are ignored; a buffer without one complete triple
//! yields nothing, and the caller reports the sentinel instead.

use vstd::prelude::*;
use crate::AccelData;
use crate::features::spec_extract;
use crate::features::extract_window_features;

verus! {

/// The samples formed from a flat buffer: one per complete triple, in
/// order, with timestamp zero; any trailing one or two values are dropped.
pub open spec fn spec_raw_samples(data: Seq<u32>) -> Seq<AccelData> {
    Seq::new(
        (data.len() / 3) as nat,
        |j: int|
            AccelData {
                timestamp: 0,
                accel_x: data[3 * j],
                accel_y: data[3 * j + 1],
                accel_z: data[3 * j + 2],
            },
    )
}

/// A trailing remainder of one or two values never changes the samples a
/// buffer yields: the buffer cut back to its complete triples gives the
/// same window.
pub proof fn lemma_raw_remainder_ignored(data: Seq<u32>)
    ensures
        spec_raw_samples(data) == spec_raw_samples(data.take(3 * (data.len() as int / 3))),
{
    let m = data.len() as int / 3;
    assert(0 <= 3 * m <= data.len()) by (nonlinear_arith)
        requires
            m == data.len() as int / 3,
            data.len() >= 0,
    ;
    let cut = data.take(3 * m);
    assert(cut.len() as int / 3 == m) by (nonlinear_arith)
        requires
            cut.len() == 3 * m,
            m >= 0,
    ;
    assert forall|j: int| 0 <= j < m implies spec_raw_samples(data)[j] == spec_raw_samples(cut)[j] by {
        assert(0 <= 3 * j && 3 * j + 2 < 3 * m) by (nonlinear_arith)
            requires
                0 <= j < m,
        ;
    }
    assert(spec_raw_samples(data) =~= spec_raw_samples(cut));
}

/// Partitions a flat buffer into samples, one per complete triple of
/// values, dropping a trailing remainder of one or two values.
pub fn raw_to_samples(data: &Vec<u32>) -> (r: Vec<AccelData>)
    ensures
        r@ == spec_raw_samples(data@),
{
    let n = data.len();
    let m = n / 3;
    let mut r: Vec<AccelData> = Vec::new();
    let mut j: usize = 0;
    while j < m
        invariant
            n == data@.len(),
            m == n / 3,
            j <= m,
            r@.len() == j,
            forall|q: int| 0 <= q < j ==> #[trigger] r@[q] == spec_raw_samples(data@)[q],
        decreases m - j,
    {
        proof {
            assert(3 * ((n as int) / 3) <= n as int) by (nonlinear_arith);
            assert(3 * (j as int) + 2 < n as int) by (nonlinear_arith)
                requires
                    (j as int) < (n as int) / 3,
                    3 * ((n as int) / 3) <= n as int,
            ;
        }
        let s = AccelData {
            timestamp: 0,
            accel_x: data[3 * j],
            accel_y: data[3 * j + 1],
            accel_z: data[3 * j + 2],
        };
        r.push(s);
        j = j + 1;
    }
    proof {
        assert(r@ =~= spec_raw_samples(data@));
    }
    r
}

/// The feature vector of a raw flat buffer: the buffer is cut into
/// complete triples, each triple becomes one sample with timestamp zero,
/// and the resulting window is fed to the feature extractor. A buffer
/// without one complete triple yields `None`.
pub fn raw_window_features(data: &Vec<u32>) -> (r: Option<Vec<u32>>)
    ensures
        r is Some <==> data@.len() >= 3,
        data@.len() >= 3 ==> r->Some_0@ == spec_extract(spec_raw_samples(data@)),
{
    let samples = raw_to_samples(data);
    if samples.len() == 0 {
        proof {
            assert(data@.len() / 3 == 0 ==> data@.len() < 3);
        }
        return None;
    }
    proof {
        assert(data@.len() / 3 >= 1 ==> data@.len() >= 3);
    }
    Some(extract_window_features(&samples))
}

} // verus!
