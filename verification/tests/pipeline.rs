use linfa_playground::AccelData;
use linfa_playground::balance::balance;
use linfa_playground::segment::segment_features;

/// A recording with one sample in each trimmed margin and `interior`
/// surviving samples.
fn recording(interior: usize, x: f32) -> Vec<AccelData> {
    let mk = |ts: u64| AccelData {
        timestamp: ts,
        accel_x: x.to_bits(),
        accel_y: 0f32.to_bits(),
        accel_z: 9.8f32.to_bits(),
    };
    let mut v = vec![mk(0)];
    for i in 0..interior {
        v.push(mk(1001 + i as u64));
    }
    v.push(mk(5000));
    v
}

#[test]
fn training_pipeline_segments_and_balances() {
    let rec0 = recording(128, 0.5);
    let rec1 = recording(64, 2.0);
    let f0 = segment_features(&rec0);
    let f1 = segment_features(&rec1);
    assert_eq!(f0.len(), 3);
    assert_eq!(f1.len(), 1);
    let per = vec![f0.clone(), f1.clone()];
    let (feats, labels) = balance(per, 7).unwrap();
    assert_eq!(labels, vec![0, 1]);
    assert_eq!(feats.len(), 2);
    assert!(f0.contains(&feats[0]));
    assert_eq!(feats[1], f1[0]);
}
