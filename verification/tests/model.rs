use linfa::Dataset;
use linfa::traits::Fit;
use linfa::traits::Predict;
use linfa_trees::DecisionTree;
use ndarray::Array1;
use ndarray::Array2;

fn training_set() -> Dataset<f32, usize, ndarray::Ix1> {
    let n = 40;
    let mut rec = Array2::<f32>::zeros((n, 9));
    for i in 0..n {
        let c = i % 2;
        for j in 0..9 {
            let base = if c == 0 { 0.0f32 } else { 5.0f32 };
            rec[[i, j]] = base + 0.1 * j as f32 + 0.01 * i as f32;
        }
    }
    let targets = Array1::from_vec((0..n).map(|i| i % 2).collect());
    Dataset::new(rec, targets)
}

fn battery() -> Array2<f32> {
    let mut b = Array2::<f32>::zeros((10, 9));
    for i in 0..10 {
        for j in 0..9 {
            b[[i, j]] = i as f32 * 0.7 - 1.0 + j as f32 * 0.3;
        }
    }
    b
}

#[test]
fn codec_roundtrip_preserves_predictions() {
    let ds = training_set();
    let model: DecisionTree<f32, usize> = DecisionTree::params().fit(&ds).unwrap();
    let blob = bincode::serde::encode_to_vec(&model, bincode::config::standard()).unwrap();
    let (reloaded, used): (DecisionTree<f32, usize>, usize) =
        bincode::serde::decode_from_slice(&blob, bincode::config::standard()).unwrap();
    assert_eq!(used, blob.len());
    let b = battery();
    let before: Array1<usize> = model.predict(&b);
    let after: Array1<usize> = reloaded.predict(&b);
    assert_eq!(before, after);
}

#[test]
fn truncated_blob_fails_to_decode() {
    let ds = training_set();
    let model: DecisionTree<f32, usize> = DecisionTree::params().fit(&ds).unwrap();
    let blob = bincode::serde::encode_to_vec(&model, bincode::config::standard()).unwrap();
    let cut = &blob[0..2];
    let r: Result<(DecisionTree<f32, usize>, usize), bincode::error::DecodeError> =
        bincode::serde::decode_from_slice(cut, bincode::config::standard());
    assert!(r.is_err());
}
