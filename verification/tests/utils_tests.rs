use greatest::permutation::permutation as arrangements_of;
use greatest::transpose::transpose as transpose_matrix;
use greatest::validity::ValidityBitmap;

#[test]
fn permutation() {
    let vec: Vec<i64> = vec![1, 2, 3];
    let mut expected = vec![
        vec![1, 2, 3],
        vec![1, 3, 2],
        vec![2, 1, 3],
        vec![2, 3, 1],
        vec![3, 1, 2],
        vec![3, 2, 1],
    ];

    let mut actual = arrangements_of(&vec, 3);

    expected.sort();
    actual.sort();

    assert_eq!(actual, expected);

    // Making sure the sort did not change the inner vector order
    assert_ne!(expected[0], expected[1]);
    assert_ne!(actual[0], actual[1]);
}

#[test]
fn transpose() {
    let matrix = vec![vec![1, 2, 3], vec![4, 5, 6], vec![7, 8, 9]];

    let expected = vec![vec![1, 4, 7], vec![2, 5, 8], vec![3, 6, 9]];

    assert_eq!(transpose_matrix(&matrix), expected);
}

#[test]
fn transpose_rectangular_non_square() {
    let matrix = vec![vec![1, 2], vec![3, 4], vec![5, 6]];
    assert_eq!(transpose_matrix(&matrix), vec![vec![1, 3, 5], vec![2, 4, 6]]);
    let empty: Vec<Vec<i32>> = vec![];
    assert_eq!(transpose_matrix(&empty), Vec::<Vec<i32>>::new());
}

#[test]
fn permutation_shorter_than_input() {
    let vec: Vec<i64> = vec![1, 2, 3];
    let mut actual = arrangements_of(&vec, 2);
    actual.sort();
    assert_eq!(
        actual,
        vec![vec![1, 2], vec![1, 3], vec![2, 1], vec![2, 3], vec![3, 1], vec![3, 2]]
    );
    assert_eq!(arrangements_of(&vec, 0), Vec::<Vec<i64>>::new());
}

fn bitmap(bits: &[bool]) -> ValidityBitmap {
    ValidityBitmap { bits: bits.to_vec() }
}

#[test]
fn union_prefer_not_null() {
    assert_eq!(ValidityBitmap::union_prefer_not_null(None, None), None);
    assert_eq!(
        ValidityBitmap::union_prefer_not_null(Some(&ValidityBitmap::new_null(2)), None),
        None
    );
    assert_eq!(
        ValidityBitmap::union_prefer_not_null(Some(&ValidityBitmap::new_valid(2)), None),
        None
    );
    assert_eq!(
        ValidityBitmap::union_prefer_not_null(None, Some(&ValidityBitmap::new_null(2))),
        None
    );
    assert_eq!(
        ValidityBitmap::union_prefer_not_null(None, Some(&ValidityBitmap::new_valid(2))),
        None
    );

    assert_eq!(
        ValidityBitmap::union_prefer_not_null(
            Some(&ValidityBitmap::new_null(2)),
            Some(&ValidityBitmap::new_null(2))
        ),
        Some(ValidityBitmap::new_null(2))
    );
    assert_eq!(
        ValidityBitmap::union_prefer_not_null(
            Some(&ValidityBitmap::new_valid(2)),
            Some(&ValidityBitmap::new_null(2))
        ),
        Some(ValidityBitmap::new_valid(2))
    );
    assert_eq!(
        ValidityBitmap::union_prefer_not_null(
            Some(&ValidityBitmap::new_null(2)),
            Some(&ValidityBitmap::new_valid(2))
        ),
        Some(ValidityBitmap::new_valid(2))
    );
    assert_eq!(
        ValidityBitmap::union_prefer_not_null(
            Some(&ValidityBitmap::new_valid(2)),
            Some(&ValidityBitmap::new_valid(2))
        ),
        Some(ValidityBitmap::new_valid(2))
    );
    assert_eq!(
        ValidityBitmap::union_prefer_not_null(
            Some(&bitmap(&[true, false, true, false])),
            Some(&bitmap(&[true, true, false, false]))
        ),
        Some(bitmap(&[true, true, true, false]))
    );
}

#[test]
fn intersect_prefers_present_bitmaps() {
    assert_eq!(ValidityBitmap::intersect(None, None), None);
    assert_eq!(
        ValidityBitmap::intersect(Some(&bitmap(&[true, false])), None),
        Some(bitmap(&[true, false]))
    );
    assert_eq!(
        ValidityBitmap::intersect(None, Some(&bitmap(&[false, true]))),
        Some(bitmap(&[false, true]))
    );
    assert_eq!(
        ValidityBitmap::intersect(
            Some(&bitmap(&[true, false, true, false])),
            Some(&bitmap(&[true, true, false, false]))
        ),
        Some(bitmap(&[true, false, false, false]))
    );
}

#[test]
fn transpose_ragged_collects_long_rows() {
    let matrix = vec![vec![1, 2, 3], vec![4], vec![5, 6]];
    assert_eq!(
        transpose_matrix(&matrix),
        vec![vec![1, 4, 5], vec![2, 6], vec![3]]
    );
}
