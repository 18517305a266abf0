use assert2::highlight::div_ceil;

#[test]
fn test_div_ceil() {
    assert!(div_ceil(0, 2) == 0);
    assert!(div_ceil(1, 2) == 1);
    assert!(div_ceil(2, 2) == 1);
    assert!(div_ceil(3, 2) == 2);
    assert!(div_ceil(4, 2) == 2);

    assert!(div_ceil(20, 7) == 3);
    assert!(div_ceil(21, 7) == 3);
    assert!(div_ceil(22, 7) == 4);
    assert!(div_ceil(27, 7) == 4);
    assert!(div_ceil(28, 7) == 4);
    assert!(div_ceil(29, 7) == 5);
}
