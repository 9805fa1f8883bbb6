use greatest::compare_greater::{keep_larger, keep_larger_scalar};
use greatest::order::{ge_value, le_value};
use greatest::values::TypedValue;

fn keep_larger_for_regular_vecs<T: Ord + Copy>(vectors: Vec<Vec<Option<T>>>) -> Vec<Option<T>> {
    let rows = {
        let mut rows: Vec<Vec<Option<T>>> = vec![];
        for vector in &vectors {
            for (j, value) in vector.iter().enumerate() {
                if rows.len() <= j {
                    rows.push(vec![]);
                }
                rows[j].push(*value);
            }
        }
        rows
    };
    rows.iter()
        .map(|v| {
            let mut max = v[0];
            for x in v {
                if max.is_none() {
                    max = *x;
                } else if x.is_none() {
                    continue;
                } else if x > &max {
                    max = *x;
                }
            }
            max
        })
        .collect()
}

fn i8_column(vals: &[Option<i8>]) -> Vec<TypedValue> {
    vals.iter()
        .map(|v| match v {
            Some(x) => TypedValue::Int8(*x),
            None => TypedValue::Null,
        })
        .collect()
}

#[test]
fn should_return_ready_when_primitive_with_nulls() {
    let vec1 = vec![
        Some(-1),
        None,
        Some(3),
        Some(0),
        None,
        None,
        Some(7),
        Some(8),
        Some(9),
        Some(10),
    ];
    let vec2 = vec![
        Some(5),
        None,
        Some(-2),
        None,
        Some(4),
        Some(20),
        None,
        Some(8),
        Some(12),
        Some(-3),
    ];
    let expected = keep_larger_for_regular_vecs(vec![vec1.clone(), vec2.clone()]);

    let array1 = i8_column(&vec1);
    let array2 = i8_column(&vec2);

    let result = keep_larger(&array1, &array2);

    assert_eq!(result, i8_column(&expected));
}

#[test]
fn should_return_ready_when_primitives_without_nulls() {
    let vec1 = vec![
        Some(-1),
        Some(9),
        Some(3),
        Some(0),
        Some(11),
        Some(-120),
        Some(7),
        Some(8),
        Some(9),
        Some(10),
    ];
    let vec2 = vec![
        Some(5),
        Some(13),
        Some(-2),
        Some(3),
        Some(4),
        Some(20),
        Some(83),
        Some(8),
        Some(12),
        Some(-3),
    ];
    let expected = keep_larger_for_regular_vecs(vec![vec1.clone(), vec2.clone()]);

    let array1 = i8_column(&vec1);
    let array2 = i8_column(&vec2);

    let result = keep_larger(&array1, &array2);

    assert_eq!(result, i8_column(&expected));
}

#[test]
fn keep_larger_scalar_test() {
    assert_eq!(
        keep_larger_scalar(TypedValue::Int32(1), TypedValue::Int32(2)),
        TypedValue::Int32(2)
    );
    assert_eq!(
        keep_larger_scalar(TypedValue::Int32(2), TypedValue::Int32(1)),
        TypedValue::Int32(2)
    );
    assert_eq!(
        keep_larger_scalar(TypedValue::Int32(2), TypedValue::Int32(2)),
        TypedValue::Int32(2)
    );
    assert_eq!(
        keep_larger_scalar(TypedValue::Null, TypedValue::Int32(2)),
        TypedValue::Int32(2)
    );
    assert_eq!(
        keep_larger_scalar(TypedValue::Int32(2), TypedValue::Null),
        TypedValue::Int32(2)
    );

    assert_eq!(
        keep_larger_scalar(
            TypedValue::List(vec![TypedValue::Null]),
            TypedValue::List(vec![TypedValue::Int32(1)]),
        ),
        TypedValue::List(vec![TypedValue::Int32(1)]),
    );

    assert_eq!(
        keep_larger_scalar(
            TypedValue::List(vec![TypedValue::Int32(1)]),
            TypedValue::List(vec![TypedValue::Null]),
        ),
        TypedValue::List(vec![TypedValue::Int32(1)]),
    );

    assert_eq!(
        keep_larger_scalar(
            TypedValue::List(vec![]),
            TypedValue::List(vec![TypedValue::Null]),
        ),
        TypedValue::List(vec![TypedValue::Null]),
    );

    assert_eq!(
        keep_larger_scalar(TypedValue::List(vec![]), TypedValue::Null),
        TypedValue::List(vec![]),
    );

    assert_eq!(
        keep_larger_scalar(TypedValue::Null, TypedValue::List(vec![])),
        TypedValue::List(vec![]),
    );
}

#[test]
fn string_and_binary_order() {
    let a = TypedValue::Utf8("AR".to_string());
    let b = TypedValue::Utf8("BC".to_string());
    assert!(le_value(&a, &b));
    assert!(!le_value(&b, &a));
    assert_eq!(
        keep_larger_scalar(
            TypedValue::Utf8("abc".to_string()),
            TypedValue::Utf8("abd".to_string()),
        ),
        TypedValue::Utf8("abd".to_string())
    );
    // a strict prefix is the lesser string
    assert!(le_value(
        &TypedValue::Utf8("ab".to_string()),
        &TypedValue::Utf8("abc".to_string())
    ));
    assert!(ge_value(
        &TypedValue::Binary(vec![2, 0]),
        &TypedValue::Binary(vec![1, 200])
    ));
    assert!(le_value(&TypedValue::Boolean(false), &TypedValue::Boolean(true)));
    assert!(!le_value(&TypedValue::Boolean(true), &TypedValue::Boolean(false)));
}

#[test]
fn float_order_chain() {
    let order: Vec<f64> = vec![
        f64::NEG_INFINITY,
        -1.5,
        -0.0,
        0.0,
        1.5,
        f64::MAX,
        f64::INFINITY,
        f64::NAN,
    ];
    for i in 0..order.len() {
        for j in 0..order.len() {
            let a = TypedValue::Float64 { bits: order[i].to_bits() };
            let b = TypedValue::Float64 { bits: order[j].to_bits() };
            assert_eq!(le_value(&a, &b), i <= j, "{} vs {}", order[i], order[j]);
        }
    }
    // NaN stays on top against every operand, including infinity
    let nan = TypedValue::Float32 { bits: f32::NAN.to_bits() };
    let inf = TypedValue::Float32 { bits: f32::INFINITY.to_bits() };
    assert!(ge_value(&nan, &inf));
    assert!(!ge_value(&inf, &nan));
}
