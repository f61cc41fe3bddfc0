//! Windowed feature extraction: one window of accelerometer samples is
//! reduced to nine single-precision values, `[min, max, mean]` per axis,
//! in axis order x, y, z.
//!
//! The minimum and maximum follow the same left fold the extractor runs:
//! start from the infinities and replace the accumulator whenever the IEEE
//! `<` test says so (so a NaN reading never becomes the minimum or maximum,
//! and the first of two equal extremes is kept). The mean is the running
//! single-precision sum, in window order, divided by the window length.

use vstd::prelude::*;
use crate::AccelData;
use crate::fbits::{
    f32_lt, f32_is_nan, f32_add, f32_div, f32_from_count, f32_bits_lt, f32_add_bits, f32_div_bits,
    f32_bits_from_count, F32_POS_INF_BITS, F32_NEG_INF_BITS, F32_ZERO_BITS,
};

verus! {

/// Left fold of the minimum update rule: replace the accumulator by the
/// next element whenever the element compares strictly below it.
pub open spec fn fold_min(s: Seq<u32>, acc: u32) -> u32
    decreases s.len(),
{
    if s.len() == 0 {
        acc
    } else {
        fold_min(s.drop_first(), if f32_lt(s[0], acc) { s[0] } else { acc })
    }
}

/// Left fold of the maximum update rule: replace the accumulator by the
/// next element whenever the accumulator compares strictly below it.
pub open spec fn fold_max(s: Seq<u32>, acc: u32) -> u32
    decreases s.len(),
{
    if s.len() == 0 {
        acc
    } else {
        fold_max(s.drop_first(), if f32_lt(acc, s[0]) { s[0] } else { acc })
    }
}

/// Left fold of the running single-precision sum, in sequence order.
pub open spec fn fold_sum(s: Seq<u32>, acc: u32) -> u32
    decreases s.len(),
{
    if s.len() == 0 {
        acc
    } else {
        fold_sum(s.drop_first(), f32_add(acc, s[0]))
    }
}

/// The x components of a sample sequence.
pub open spec fn seq_x(w: Seq<AccelData>) -> Seq<u32> {
    w.map_values(|s: AccelData| s.accel_x)
}

/// The y components of a sample sequence.
pub open spec fn seq_y(w: Seq<AccelData>) -> Seq<u32> {
    w.map_values(|s: AccelData| s.accel_y)
}

/// The z components of a sample sequence.
pub open spec fn seq_z(w: Seq<AccelData>) -> Seq<u32> {
    w.map_values(|s: AccelData| s.accel_z)
}

/// The single-precision mean of a sequence: running sum divided by length.
pub open spec fn spec_mean(s: Seq<u32>) -> u32 {
    f32_div(fold_sum(s, F32_ZERO_BITS), f32_from_count(s.len() as int))
}

/// The nine-value feature vector of a window:
/// `[min_x, max_x, mean_x, min_y, max_y, mean_y, min_z, max_z, mean_z]`.
pub open spec fn spec_extract(w: Seq<AccelData>) -> Seq<u32> {
    seq![
        fold_min(seq_x(w), F32_POS_INF_BITS),
        fold_max(seq_x(w), F32_NEG_INF_BITS),
        spec_mean(seq_x(w)),
        fold_min(seq_y(w), F32_POS_INF_BITS),
        fold_max(seq_y(w), F32_NEG_INF_BITS),
        spec_mean(seq_y(w)),
        fold_min(seq_z(w), F32_POS_INF_BITS),
        fold_max(seq_z(w), F32_NEG_INF_BITS),
        spec_mean(seq_z(w)),
    ]
}

/// Reduces a non-empty window of samples to its nine-value feature vector.
pub fn extract_window_features(window: &Vec<AccelData>) -> (r: Vec<u32>)
    requires
        window@.len() >= 1,
    ensures
        r@ == spec_extract(window@),
{
    let n = window.len();
    let mut sum_x: u32 = F32_ZERO_BITS;
    let mut sum_y: u32 = F32_ZERO_BITS;
    let mut sum_z: u32 = F32_ZERO_BITS;
    let mut min_x: u32 = F32_POS_INF_BITS;
    let mut max_x: u32 = F32_NEG_INF_BITS;
    let mut min_y: u32 = F32_POS_INF_BITS;
    let mut max_y: u32 = F32_NEG_INF_BITS;
    let mut min_z: u32 = F32_POS_INF_BITS;
    let mut max_z: u32 = F32_NEG_INF_BITS;

    proof {
        assert(seq_x(window@).skip(0) =~= seq_x(window@));
        assert(seq_y(window@).skip(0) =~= seq_y(window@));
        assert(seq_z(window@).skip(0) =~= seq_z(window@));
    }
    let mut i: usize = 0;
    while i < n
        invariant
            n == window@.len(),
            i <= n,
            fold_min(seq_x(window@), F32_POS_INF_BITS) == fold_min(seq_x(window@).skip(i as int), min_x),
            fold_max(seq_x(window@), F32_NEG_INF_BITS) == fold_max(seq_x(window@).skip(i as int), max_x),
            fold_sum(seq_x(window@), F32_ZERO_BITS) == fold_sum(seq_x(window@).skip(i as int), sum_x),
            fold_min(seq_y(window@), F32_POS_INF_BITS) == fold_min(seq_y(window@).skip(i as int), min_y),
            fold_max(seq_y(window@), F32_NEG_INF_BITS) == fold_max(seq_y(window@).skip(i as int), max_y),
            fold_sum(seq_y(window@), F32_ZERO_BITS) == fold_sum(seq_y(window@).skip(i as int), sum_y),
            fold_min(seq_z(window@), F32_POS_INF_BITS) == fold_min(seq_z(window@).skip(i as int), min_z),
            fold_max(seq_z(window@), F32_NEG_INF_BITS) == fold_max(seq_z(window@).skip(i as int), max_z),
            fold_sum(seq_z(window@), F32_ZERO_BITS) == fold_sum(seq_z(window@).skip(i as int), sum_z),
        decreases n - i,
    {
        let s = window[i];
        proof {
            assert(seq_x(window@).skip(i as int).drop_first() =~= seq_x(window@).skip(i as int + 1));
            assert(seq_y(window@).skip(i as int).drop_first() =~= seq_y(window@).skip(i as int + 1));
            assert(seq_z(window@).skip(i as int).drop_first() =~= seq_z(window@).skip(i as int + 1));
            assert(seq_x(window@).skip(i as int)[0] == window@[i as int].accel_x);
            assert(seq_y(window@).skip(i as int)[0] == window@[i as int].accel_y);
            assert(seq_z(window@).skip(i as int)[0] == window@[i as int].accel_z);
        }
        sum_x = f32_add_bits(sum_x, s.accel_x);
        sum_y = f32_add_bits(sum_y, s.accel_y);
        sum_z = f32_add_bits(sum_z, s.accel_z);
        if f32_bits_lt(s.accel_x, min_x) {
            min_x = s.accel_x;
        }
        if f32_bits_lt(max_x, s.accel_x) {
            max_x = s.accel_x;
        }
        if f32_bits_lt(s.accel_y, min_y) {
            min_y = s.accel_y;
        }
        if f32_bits_lt(max_y, s.accel_y) {
            max_y = s.accel_y;
        }
        if f32_bits_lt(s.accel_z, min_z) {
            min_z = s.accel_z;
        }
        if f32_bits_lt(max_z, s.accel_z) {
            max_z = s.accel_z;
        }
        i = i + 1;
    }
    proof {
        assert(seq_x(window@).skip(n as int) =~= Seq::<u32>::empty());
        assert(seq_y(window@).skip(n as int) =~= Seq::<u32>::empty());
        assert(seq_z(window@).skip(n as int) =~= Seq::<u32>::empty());
    }
    let n_bits = f32_bits_from_count(n);
    let mut r: Vec<u32> = Vec::new();
    r.push(min_x);
    r.push(max_x);
    r.push(f32_div_bits(sum_x, n_bits));
    r.push(min_y);
    r.push(max_y);
    r.push(f32_div_bits(sum_y, n_bits));
    r.push(min_z);
    r.push(max_z);
    r.push(f32_div_bits(sum_z, n_bits));
    proof {
        assert(r@ =~= spec_extract(window@));
    }
    r
}

/// The minimum fold computes a true minimum: its result is the initial
/// accumulator or an element of the sequence, no element compares strictly
/// below it, it never exceeds the accumulator it started from, and a NaN
/// accumulator is never displaced.
pub proof fn lemma_fold_min_is_least(s: Seq<u32>, acc: u32)
    ensures
        fold_min(s, acc) == acc || s.contains(fold_min(s, acc)),
        forall|i: int| 0 <= i < s.len() ==> !f32_lt(s[i], fold_min(s, acc)),
        !f32_lt(acc, fold_min(s, acc)),
        f32_is_nan(acc) ==> fold_min(s, acc) == acc,
    decreases s.len(),
{
    if s.len() > 0 {
        let acc2 = if f32_lt(s[0], acc) {
            s[0]
        } else {
            acc
        };
        lemma_fold_min_is_least(s.drop_first(), acc2);
        let m = fold_min(s, acc);
        if m != acc && m != s[0] {
            let j = choose|j: int|
                0 <= j < s.drop_first().len() && s.drop_first()[j] == fold_min(
                    s.drop_first(),
                    acc2,
                );
            assert(s[j + 1] == m);
        }
        assert forall|i: int| 0 <= i < s.len() implies !f32_lt(s[i], m) by {
            if i > 0 {
                assert(s.drop_first()[i - 1] == s[i]);
            }
        }
    }
}

/// The maximum fold computes a true maximum: its result is the initial
/// accumulator or an element of the sequence, it compares strictly below
/// no element, it never drops below the accumulator it started from, and
/// a NaN accumulator is never displaced.
pub proof fn lemma_fold_max_is_greatest(s: Seq<u32>, acc: u32)
    ensures
        fold_max(s, acc) == acc || s.contains(fold_max(s, acc)),
        forall|i: int| 0 <= i < s.len() ==> !f32_lt(fold_max(s, acc), s[i]),
        !f32_lt(fold_max(s, acc), acc),
        f32_is_nan(acc) ==> fold_max(s, acc) == acc,
    decreases s.len(),
{
    if s.len() > 0 {
        let acc2 = if f32_lt(acc, s[0]) {
            s[0]
        } else {
            acc
        };
        lemma_fold_max_is_greatest(s.drop_first(), acc2);
        let m = fold_max(s, acc);
        if m != acc && m != s[0] {
            let j = choose|j: int|
                0 <= j < s.drop_first().len() && s.drop_first()[j] == fold_max(
                    s.drop_first(),
                    acc2,
                );
            assert(s[j + 1] == m);
        }
        assert forall|i: int| 0 <= i < s.len() implies !f32_lt(m, s[i]) by {
            if i > 0 {
                assert(s.drop_first()[i - 1] == s[i]);
            }
        }
    }
}

/// Extraction is a pure function of the window: two windows that hold the
/// same samples in the same order yield the same feature vector, bit for
/// bit, on every call.
pub proof fn lemma_extract_deterministic(w1: Seq<AccelData>, w2: Seq<AccelData>)
    requires
        w1 == w2,
    ensures
        spec_extract(w1) == spec_extract(w2),
{
}

} // verus!
