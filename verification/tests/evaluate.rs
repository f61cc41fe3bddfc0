use linfa_playground::evaluate::count_correct;

#[test]
fn counts_agreements() {
    let pred: Vec<usize> = vec![1, 2, 3, 4];
    let truth: Vec<usize> = vec![1, 9, 3, 0];
    assert_eq!(count_correct(&pred, &truth), 2);
}

#[test]
fn empty_columns_agree_nowhere() {
    let none: Vec<usize> = Vec::new();
    assert_eq!(count_correct(&none, &none), 0);
}

#[test]
fn identical_columns_agree_everywhere() {
    let col: Vec<usize> = (0..50).map(|i| i % 5).collect();
    assert_eq!(count_correct(&col, &col), 50);
}
