use linfa_playground::balance::{balance, DataError};

/// One identifiable feature vector per class and index.
fn fv(class: usize, idx: usize) -> Vec<u32> {
    vec![class as u32 * 100 + idx as u32; 9]
}

fn class_windows(class: usize, count: usize) -> Vec<Vec<u32>> {
    (0..count).map(|i| fv(class, i)).collect()
}

#[test]
fn balances_every_surviving_class_to_the_minimum() {
    let per = vec![
        class_windows(0, 5),
        class_windows(1, 3),
        class_windows(2, 0),
        class_windows(3, 7),
    ];
    let (feats, labels) = balance(per.clone(), 7).unwrap();
    assert_eq!(labels, vec![0, 0, 0, 1, 1, 1, 3, 3, 3]);
    assert_eq!(feats.len(), labels.len());
    for (f, &l) in feats.iter().zip(labels.iter()) {
        assert!(per[l].contains(f), "feature not from class {}", l);
    }
}

#[test]
fn kept_windows_of_one_class_are_distinct() {
    let per = vec![class_windows(0, 6), class_windows(1, 4)];
    let (feats, labels) = balance(per, 42).unwrap();
    assert_eq!(labels, vec![0, 0, 0, 0, 1, 1, 1, 1]);
    let mut first: Vec<Vec<u32>> = feats[0..4].to_vec();
    first.sort();
    first.dedup();
    assert_eq!(first.len(), 4, "a window was kept twice");
}

#[test]
fn class_exactly_at_target_keeps_everything() {
    let per = vec![class_windows(0, 2)];
    let (feats, labels) = balance(per.clone(), 1).unwrap();
    assert_eq!(labels, vec![0, 0]);
    let mut kept = feats;
    kept.sort();
    let mut orig = per[0].clone();
    orig.sort();
    assert_eq!(kept, orig);
}

#[test]
fn no_windows_anywhere_is_an_error() {
    let per: Vec<Vec<Vec<u32>>> = vec![Vec::new(), Vec::new()];
    assert_eq!(balance(per, 7), Err(DataError::NoWindows));
    let none: Vec<Vec<Vec<u32>>> = Vec::new();
    assert_eq!(balance(none, 7), Err(DataError::NoWindows));
}

#[test]
fn same_seed_gives_the_same_selection() {
    let per = vec![class_windows(0, 9), class_windows(1, 5), class_windows(2, 11)];
    let a = balance(per.clone(), 7).unwrap();
    let b = balance(per, 7).unwrap();
    assert_eq!(a, b);
}
