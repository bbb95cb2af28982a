use combbreaker::{fmt_combination, Combination};

#[test]
fn test_fmt_combination_without_combination() {
    assert_eq!(fmt_combination(&None), "undefined");
}

#[test]
fn test_fmt_combination_writes_each_piece() {
    assert_eq!(
        fmt_combination(&Some(Combination::from_slice(&[1, 2, 3, 4]))),
        "1234"
    );
    assert_eq!(
        fmt_combination(&Some(Combination::from_slice(&[0, 5, 0, 9]))),
        "0509"
    );
    assert_eq!(fmt_combination(&Some(Combination::from_slice(&[]))), "");
}

#[test]
fn test_fmt_combination_writes_pieces_of_several_digits() {
    assert_eq!(
        fmt_combination(&Some(Combination::from_slice(&[10, 255, 7, 100]))),
        "102557100"
    );
    assert_eq!(
        fmt_combination(&Some(Combination::from_slice(&[99, 101, 200, 0]))),
        "991012000"
    );
}
