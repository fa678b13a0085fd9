use diffimg::utils::abs_diff;

#[test]
fn test_abs_diff() {
    assert_eq!(abs_diff(5, 8), 3);
    assert_eq!(abs_diff(8, 5), 3);
    assert_eq!(abs_diff(11, 11), 0);
    assert_eq!(abs_diff(0, 255), 255);
}
