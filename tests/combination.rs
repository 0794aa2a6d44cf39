use renderer::generate_combination_indices;

#[test]
fn two_by_two_in_odometer_order() {
    let got = generate_combination_indices(2, 2);
    assert_eq!(got, vec![vec![0, 0], vec![0, 1], vec![1, 0], vec![1, 1]]);
}

#[test]
fn count_is_pool_size_to_the_length() {
    assert_eq!(generate_combination_indices(2, 3).len(), 8);
    assert_eq!(generate_combination_indices(3, 2).len(), 9);
    assert_eq!(generate_combination_indices(4, 4).len(), 256);
    assert_eq!(generate_combination_indices(1, 5).len(), 1);
}

#[test]
fn zero_length_yields_nothing() {
    assert!(generate_combination_indices(3, 0).is_empty());
    assert!(generate_combination_indices(0, 0).is_empty());
}

#[test]
fn first_is_all_zero_and_last_all_top() {
    let got = generate_combination_indices(3, 4);
    assert_eq!(got.first().unwrap(), &vec![0, 0, 0, 0]);
    assert_eq!(got.last().unwrap(), &vec![2, 2, 2, 2]);
}

#[test]
fn strictly_increasing_as_numerals() {
    let n = 3;
    let got = generate_combination_indices(n, 3);
    let values: Vec<usize> = got
        .iter()
        .map(|t| t.iter().fold(0, |acc, d| acc * n + d))
        .collect();
    for w in values.windows(2) {
        assert!(w[0] < w[1]);
    }
    assert_eq!(values, (0..27).collect::<Vec<usize>>());
}

#[test]
fn single_position_counts_through_the_pool() {
    assert_eq!(generate_combination_indices(4, 1), vec![vec![0], vec![1], vec![2], vec![3]]);
}
