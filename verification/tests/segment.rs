use linfa_playground::AccelData;
use linfa_playground::WINDOW_SIZE;
use linfa_playground::features::extract_window_features;
use linfa_playground::segment::{segment, segment_features, slide_windows, trim_samples};

fn at(ts: u64) -> AccelData {
    AccelData {
        timestamp: ts,
        accel_x: (ts as f32).to_bits(),
        accel_y: 0,
        accel_z: 0,
    }
}

#[test]
fn trim_drops_one_margin_at_each_end() {
    let samples: Vec<AccelData> =
        [0u64, 500, 1000, 1001, 1500, 2500, 3000, 3500, 4000].iter().map(|&t| at(t)).collect();
    let trimmed = trim_samples(&samples);
    let kept: Vec<u64> = trimmed.iter().map(|s| s.timestamp).collect();
    assert_eq!(kept, vec![1001, 1500, 2500]);
}

#[test]
fn trim_of_empty_or_short_recording_is_empty() {
    let empty: Vec<AccelData> = Vec::new();
    assert_eq!(trim_samples(&empty).len(), 0);
    let short: Vec<AccelData> = [0u64, 100, 2000].iter().map(|&t| at(t)).collect();
    assert_eq!(trim_samples(&short).len(), 0);
}

#[test]
fn window_count_follows_the_formula() {
    for &len in &[0usize, 1, 63, 64, 65, 95, 96, 100, 128, 160] {
        let samples: Vec<AccelData> = (0..len as u64).map(at).collect();
        let windows = slide_windows(&samples);
        let expected = if len < WINDOW_SIZE {
            0
        } else {
            (len - WINDOW_SIZE) / (WINDOW_SIZE / 2) + 1
        };
        assert_eq!(windows.len(), expected, "length {}", len);
        for w in &windows {
            assert_eq!(w.len(), WINDOW_SIZE);
        }
    }
}

#[test]
fn windows_overlap_by_half() {
    let samples: Vec<AccelData> = (0..96u64).map(at).collect();
    let windows = slide_windows(&samples);
    assert_eq!(windows.len(), 2);
    assert_eq!(windows[0], samples[0..64].to_vec());
    assert_eq!(windows[1], samples[32..96].to_vec());
}

#[test]
fn segment_trims_then_windows() {
    // One sample at each margin, 64 surviving samples in between.
    let mut samples = vec![at(0)];
    for t in 0..64u64 {
        samples.push(at(1001 + t));
    }
    samples.push(at(3000));
    let windows = segment(&samples);
    assert_eq!(windows.len(), 1);
    let inner: Vec<AccelData> = samples[1..65].to_vec();
    assert_eq!(windows[0], inner);

    let feats = segment_features(&samples);
    assert_eq!(feats.len(), 1);
    assert_eq!(feats[0], extract_window_features(&inner));
}

#[test]
fn segment_with_too_few_survivors_yields_nothing() {
    let mut samples = vec![at(0)];
    for t in 0..40u64 {
        samples.push(at(1001 + t));
    }
    samples.push(at(3000));
    assert_eq!(segment(&samples).len(), 0);
    assert_eq!(segment_features(&samples).len(), 0);
}
