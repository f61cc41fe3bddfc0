use linfa_playground::AccelData;
use linfa_playground::features::extract_window_features;
use linfa_playground::inference::{raw_to_samples, raw_window_features};

fn bits(v: f32) -> u32 {
    v.to_bits()
}

#[test]
fn empty_and_short_buffers_yield_nothing() {
    assert!(raw_window_features(&Vec::new()).is_none());
    assert!(raw_window_features(&vec![bits(1.0)]).is_none());
    assert!(raw_window_features(&vec![bits(1.0), bits(2.0)]).is_none());
}

#[test]
fn one_triple_is_one_sample() {
    let data = vec![bits(1.0), bits(2.0), bits(3.0)];
    let samples = raw_to_samples(&data);
    assert_eq!(samples.len(), 1);
    assert_eq!(samples[0].timestamp, 0);
    assert_eq!(samples[0].accel_x, bits(1.0));
    assert_eq!(samples[0].accel_y, bits(2.0));
    assert_eq!(samples[0].accel_z, bits(3.0));
    let f = raw_window_features(&data).unwrap();
    assert_eq!(f, extract_window_features(&samples));
}

#[test]
fn buffer_features_match_directly_built_samples() {
    let triples: Vec<(f32, f32, f32)> =
        (0..4).map(|i| (i as f32, 2.0 * i as f32 - 1.5, 9.8 - i as f32)).collect();
    let mut data: Vec<u32> = Vec::new();
    for &(x, y, z) in &triples {
        data.push(bits(x));
        data.push(bits(y));
        data.push(bits(z));
    }
    let direct: Vec<AccelData> = triples
        .iter()
        .map(|&(x, y, z)| AccelData {
            timestamp: 0,
            accel_x: bits(x),
            accel_y: bits(y),
            accel_z: bits(z),
        })
        .collect();
    assert_eq!(raw_to_samples(&data), direct);
    let f = raw_window_features(&data).unwrap();
    assert_eq!(f, extract_window_features(&direct));
}

#[test]
fn trailing_remainder_is_ignored() {
    let mut data: Vec<u32> = Vec::new();
    for i in 0..12u32 {
        data.push(bits(i as f32));
    }
    let full = raw_window_features(&data).unwrap();
    let mut plus_one = data.clone();
    plus_one.push(bits(777.0));
    let mut plus_two = plus_one.clone();
    plus_two.push(bits(-777.0));
    assert_eq!(raw_window_features(&plus_one).unwrap(), full);
    assert_eq!(raw_window_features(&plus_two).unwrap(), full);
    assert_eq!(raw_to_samples(&plus_two).len(), 4);
}
