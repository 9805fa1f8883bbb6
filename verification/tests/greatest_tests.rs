use greatest::errors::GreatestError;
use greatest::greatest::{greatest, output_ordering, ColumnarOperand, SortProperties};
use greatest::tags::TypeTag;
use greatest::validity::ValidityBitmap;
use greatest::values::TypedValue;

fn i32_vector(vals: &[Option<i32>]) -> ColumnarOperand {
    let values: Vec<TypedValue> = vals
        .iter()
        .map(|v| match v {
            Some(x) => TypedValue::Int32(*x),
            None => TypedValue::Null,
        })
        .collect();
    let bits: Vec<bool> = vals.iter().map(|v| v.is_some()).collect();
    ColumnarOperand::Vector { tag: TypeTag::Int32, values, validity: ValidityBitmap { bits } }
}

fn f64_vector_bits(vals: &[Option<f64>]) -> Vec<TypedValue> {
    vals.iter()
        .map(|v| match v {
            Some(x) => TypedValue::Float64 { bits: x.to_bits() },
            None => TypedValue::Null,
        })
        .collect()
}

fn f64_scalar(x: f64) -> ColumnarOperand {
    ColumnarOperand::Scalar { tag: TypeTag::Float64, value: TypedValue::Float64 { bits: x.to_bits() } }
}

fn i32_scalar(x: i32) -> ColumnarOperand {
    ColumnarOperand::Scalar { tag: TypeTag::Int32, value: TypedValue::Int32(x) }
}

#[test]
fn no_arguments_is_rejected() {
    let r = greatest(&vec![]);
    assert_eq!(r, Err(GreatestError::ZeroArguments));
    assert_eq!(
        GreatestError::ZeroArguments.message(),
        "greatest does not support zero arguments"
    );
}

#[test]
fn one_argument_is_rejected() {
    let r = greatest(&vec![i32_scalar(5)]);
    assert_eq!(r, Err(GreatestError::OneArgument));
    assert!(GreatestError::OneArgument.message().contains("It requires at least 2"));
}

#[test]
fn incompatible_operands_are_rejected() {
    let ops = vec![
        i32_scalar(1),
        ColumnarOperand::Scalar { tag: TypeTag::Boolean, value: TypedValue::Boolean(true) },
    ];
    assert_eq!(
        greatest(&ops),
        Err(GreatestError::IncompatibleTypes { left: TypeTag::Int32, right: TypeTag::Boolean })
    );
}

#[test]
fn columns_and_float_literal_end_to_end() {
    // elementwise max of two integer columns and the constant 20, widened
    // to 64-bit float
    let a = i32_vector(&[Some(2), Some(3), Some(4), Some(5), Some(6), Some(7), Some(150), Some(1)]);
    let b = i32_vector(&[Some(10), Some(2), Some(5), Some(1), Some(102), Some(4), Some(6), Some(2)]);
    let lit = f64_scalar(20.0);

    let r = greatest(&vec![a, b, lit]).unwrap();

    let expected_vals =
        f64_vector_bits(&[Some(20.0), Some(20.0), Some(20.0), Some(20.0), Some(102.0), Some(20.0), Some(150.0), Some(20.0)]);
    match r {
        ColumnarOperand::Vector { tag, values, validity } => {
            assert_eq!(tag, TypeTag::Float64);
            assert_eq!(values, expected_vals);
            assert_eq!(validity.bits, vec![true; 8]);
        },
        _ => panic!("expected a vector result"),
    }
}

#[test]
fn scalar_only_stays_scalar() {
    let r = greatest(&vec![i32_scalar(3), i32_scalar(10), i32_scalar(-7)]).unwrap();
    assert_eq!(
        r,
        ColumnarOperand::Scalar { tag: TypeTag::Int32, value: TypedValue::Int32(10) }
    );
}

#[test]
fn scalar_fold_is_order_independent() {
    let inputs = vec![
        vec![i32_scalar(3), i32_scalar(10), i32_scalar(-7)],
        vec![i32_scalar(10), i32_scalar(-7), i32_scalar(3)],
        vec![i32_scalar(-7), i32_scalar(3), i32_scalar(10)],
    ];
    for ops in inputs {
        let r = greatest(&ops).unwrap();
        assert_eq!(
            r,
            ColumnarOperand::Scalar { tag: TypeTag::Int32, value: TypedValue::Int32(10) }
        );
    }
}

#[test]
fn operand_permutations_agree() {
    let make = |order: [usize; 3]| {
        let mut ops: Vec<ColumnarOperand> = Vec::new();
        for k in order {
            ops.push(match k {
                0 => i32_vector(&[Some(1), None, Some(30)]),
                1 => i32_vector(&[Some(4), Some(-2), None]),
                _ => i32_scalar(5),
            });
        }
        greatest(&ops).unwrap()
    };
    let first = make([0, 1, 2]);
    for order in [[0, 1, 2], [2, 1, 0], [1, 0, 2], [1, 2, 0], [2, 0, 1], [0, 2, 1]] {
        assert_eq!(make(order), first);
    }
}

#[test]
fn null_absorption_scalar() {
    let null_scalar = ColumnarOperand::Scalar { tag: TypeTag::Int32, value: TypedValue::Null };
    let r = greatest(&vec![null_scalar, i32_scalar(7)]).unwrap();
    assert_eq!(
        r,
        ColumnarOperand::Scalar { tag: TypeTag::Int32, value: TypedValue::Int32(7) }
    );

    let n1 = ColumnarOperand::Scalar { tag: TypeTag::Int32, value: TypedValue::Null };
    let n2 = ColumnarOperand::Scalar { tag: TypeTag::Int32, value: TypedValue::Null };
    let r = greatest(&vec![n1, n2]).unwrap();
    assert_eq!(r, ColumnarOperand::Scalar { tag: TypeTag::Int32, value: TypedValue::Null });
}

#[test]
fn null_absorption_lists() {
    let null_list = ColumnarOperand::Scalar {
        tag: TypeTag::List(Box::new(TypeTag::Int32)),
        value: TypedValue::Null,
    };
    let some_list = ColumnarOperand::Scalar {
        tag: TypeTag::List(Box::new(TypeTag::Int32)),
        value: TypedValue::List(vec![TypedValue::Int32(1), TypedValue::Null]),
    };
    let r = greatest(&vec![null_list, some_list]).unwrap();
    assert_eq!(
        r,
        ColumnarOperand::Scalar {
            tag: TypeTag::List(Box::new(TypeTag::Int32)),
            value: TypedValue::List(vec![TypedValue::Int32(1), TypedValue::Null]),
        }
    );
}

#[test]
fn nan_wins_over_infinity() {
    let r = greatest(&vec![f64_scalar(1.0), f64_scalar(f64::NAN), f64_scalar(f64::INFINITY)])
        .unwrap();
    match r {
        ColumnarOperand::Scalar { tag, value: TypedValue::Float64 { bits } } => {
            assert_eq!(tag, TypeTag::Float64);
            assert!(f64::from_bits(bits).is_nan());
        },
        _ => panic!("expected a float scalar"),
    }
}

#[test]
fn nan_wins_per_row_in_vectors() {
    let a = ColumnarOperand::Vector {
        tag: TypeTag::Float64,
        values: f64_vector_bits(&[Some(1.0), Some(f64::NAN), None]),
        validity: ValidityBitmap { bits: vec![true, true, false] },
    };
    let b = ColumnarOperand::Vector {
        tag: TypeTag::Float64,
        values: f64_vector_bits(&[Some(f64::INFINITY), Some(f64::INFINITY), Some(2.5)]),
        validity: ValidityBitmap { bits: vec![true, true, true] },
    };
    let r = greatest(&vec![a, b]).unwrap();
    match r {
        ColumnarOperand::Vector { values, validity, .. } => {
            assert_eq!(values.len(), 3);
            match &values[0] {
                TypedValue::Float64 { bits } => assert_eq!(f64::from_bits(*bits), f64::INFINITY),
                _ => panic!("expected float"),
            }
            match &values[1] {
                TypedValue::Float64 { bits } => assert!(f64::from_bits(*bits).is_nan()),
                _ => panic!("expected float"),
            }
            match &values[2] {
                TypedValue::Float64 { bits } => assert_eq!(f64::from_bits(*bits), 2.5),
                _ => panic!("expected float"),
            }
            assert_eq!(validity.bits, vec![true, true, true]);
        },
        _ => panic!("expected a vector result"),
    }
}

#[test]
fn list_vectors_compare_lexicographically() {
    let list = |items: &[Option<i32>]| {
        TypedValue::List(
            items
                .iter()
                .map(|v| match v {
                    Some(x) => TypedValue::Int32(*x),
                    None => TypedValue::Null,
                })
                .collect(),
        )
    };
    let tag = TypeTag::List(Box::new(TypeTag::Int32));
    let a = ColumnarOperand::Vector {
        tag: TypeTag::List(Box::new(TypeTag::Int32)),
        values: vec![
            list(&[Some(2), Some(100)]),
            list(&[None, Some(100)]),
            list(&[Some(6), Some(100)]),
            list(&[None]),
            list(&[Some(1)]),
        ],
        validity: ValidityBitmap { bits: vec![true; 5] },
    };
    let b = ColumnarOperand::Vector {
        tag: TypeTag::List(Box::new(TypeTag::Int32)),
        values: vec![
            list(&[Some(1), Some(200)]),
            list(&[Some(1), Some(200)]),
            list(&[Some(6), Some(200)]),
            list(&[]),
            list(&[Some(0), Some(4)]),
        ],
        validity: ValidityBitmap { bits: vec![true; 5] },
    };
    let r = greatest(&vec![a, b]).unwrap();
    match r {
        ColumnarOperand::Vector { tag: rtag, values, .. } => {
            assert_eq!(rtag, tag);
            assert_eq!(
                values,
                vec![
                    list(&[Some(2), Some(100)]),
                    list(&[Some(1), Some(200)]),
                    list(&[Some(6), Some(200)]),
                    list(&[None]),
                    list(&[Some(1)]),
                ]
            );
        },
        _ => panic!("expected a vector result"),
    }
}

#[test]
fn mixed_widths_widen_per_value() {
    let a = ColumnarOperand::Vector {
        tag: TypeTag::Int8,
        values: vec![TypedValue::Int8(126), TypedValue::Int8(-5)],
        validity: ValidityBitmap { bits: vec![true, true] },
    };
    let b = ColumnarOperand::Scalar { tag: TypeTag::Int64, value: TypedValue::Int64(23) };
    let r = greatest(&vec![a, b]).unwrap();
    assert_eq!(
        r,
        ColumnarOperand::Vector {
            tag: TypeTag::Int64,
            values: vec![TypedValue::Int64(126), TypedValue::Int64(23)],
            validity: ValidityBitmap { bits: vec![true, true] },
        }
    );
}

#[test]
fn strings_reduce_elementwise() {
    let s = |v: &str| TypedValue::Utf8(v.to_string());
    let a = ColumnarOperand::Vector {
        tag: TypeTag::Utf8,
        values: vec![s("AR"), TypedValue::Null, s("BS"), s("CL")],
        validity: ValidityBitmap { bits: vec![true, false, true, true] },
    };
    let b = ColumnarOperand::Vector {
        tag: TypeTag::Utf8,
        values: vec![s("LA"), s("BC"), TypedValue::Null, s("D2")],
        validity: ValidityBitmap { bits: vec![true, true, false, true] },
    };
    let r = greatest(&vec![a, b]).unwrap();
    match r {
        ColumnarOperand::Vector { values, validity, .. } => {
            assert_eq!(values, vec![s("LA"), s("BC"), s("BS"), s("D2")]);
            assert_eq!(validity.bits, vec![true, true, true, true]);
        },
        _ => panic!("expected a vector result"),
    }
}

#[test]
fn output_ordering_passes_through() {
    let props = vec![
        SortProperties::Ordered { descending: false, nulls_first: true },
        SortProperties::Unordered,
    ];
    assert_eq!(
        output_ordering(&props),
        SortProperties::Ordered { descending: false, nulls_first: true }
    );
}

#[test]
fn f32_vectors_with_nulls() {
    let f32v = |vals: &[Option<f32>]| -> ColumnarOperand {
        let values: Vec<TypedValue> = vals
            .iter()
            .map(|v| match v {
                Some(x) => TypedValue::Float32 { bits: x.to_bits() },
                None => TypedValue::Null,
            })
            .collect();
        let bits: Vec<bool> = vals.iter().map(|v| v.is_some()).collect();
        ColumnarOperand::Vector { tag: TypeTag::Float32, values, validity: ValidityBitmap { bits } }
    };
    let a = f32v(&[Some(1.0), None, Some(-3.5), None]);
    let b = f32v(&[Some(0.5), Some(100.0), None, None]);
    let r = greatest(&vec![a, b]).unwrap();
    match r {
        ColumnarOperand::Vector { tag, values, validity } => {
            assert_eq!(tag, TypeTag::Float32);
            assert_eq!(
                values,
                vec![
                    TypedValue::Float32 { bits: (1.0f32).to_bits() },
                    TypedValue::Float32 { bits: (100.0f32).to_bits() },
                    TypedValue::Float32 { bits: (-3.5f32).to_bits() },
                    TypedValue::Null,
                ]
            );
            assert_eq!(validity.bits, vec![true, true, true, false]);
        },
        _ => panic!("expected a vector result"),
    }
}

#[test]
fn u64_column_widens_to_f32_literal() {
    let a = ColumnarOperand::Vector {
        tag: TypeTag::UInt64,
        values: vec![TypedValue::UInt64(3), TypedValue::UInt64(u64::MAX)],
        validity: ValidityBitmap { bits: vec![true, true] },
    };
    let b = ColumnarOperand::Scalar {
        tag: TypeTag::Float32,
        value: TypedValue::Float32 { bits: (10.0f32).to_bits() },
    };
    let r = greatest(&vec![a, b]).unwrap();
    assert_eq!(
        r,
        ColumnarOperand::Vector {
            tag: TypeTag::Float32,
            values: vec![
                TypedValue::Float32 { bits: (10.0f32).to_bits() },
                TypedValue::Float32 { bits: (u64::MAX as f32).to_bits() },
            ],
            validity: ValidityBitmap { bits: vec![true, true] },
        }
    );
}

#[test]
fn booleans_and_binaries_reduce() {
    let a = ColumnarOperand::Vector {
        tag: TypeTag::Boolean,
        values: vec![TypedValue::Boolean(false), TypedValue::Boolean(true)],
        validity: ValidityBitmap { bits: vec![true, true] },
    };
    let b = ColumnarOperand::Vector {
        tag: TypeTag::Boolean,
        values: vec![TypedValue::Boolean(true), TypedValue::Boolean(false)],
        validity: ValidityBitmap { bits: vec![true, true] },
    };
    let r = greatest(&vec![a, b]).unwrap();
    match r {
        ColumnarOperand::Vector { values, .. } => {
            assert_eq!(values, vec![TypedValue::Boolean(true), TypedValue::Boolean(true)]);
        },
        _ => panic!("expected a vector result"),
    }

    let a = ColumnarOperand::Scalar {
        tag: TypeTag::Binary,
        value: TypedValue::Binary(vec![1, 250]),
    };
    let b = ColumnarOperand::Scalar {
        tag: TypeTag::Binary,
        value: TypedValue::Binary(vec![2, 0]),
    };
    let r = greatest(&vec![a, b]).unwrap();
    assert_eq!(
        r,
        ColumnarOperand::Scalar { tag: TypeTag::Binary, value: TypedValue::Binary(vec![2, 0]) }
    );
}

#[test]
fn single_null_column_passes_through() {
    let a = ColumnarOperand::Vector {
        tag: TypeTag::Null,
        values: vec![TypedValue::Null, TypedValue::Null],
        validity: ValidityBitmap { bits: vec![false, false] },
    };
    let b = ColumnarOperand::Vector {
        tag: TypeTag::Int32,
        values: vec![TypedValue::Int32(1), TypedValue::Null],
        validity: ValidityBitmap { bits: vec![true, false] },
    };
    let r = greatest(&vec![a, b]).unwrap();
    assert_eq!(
        r,
        ColumnarOperand::Vector {
            tag: TypeTag::Int32,
            values: vec![TypedValue::Int32(1), TypedValue::Null],
            validity: ValidityBitmap { bits: vec![true, false] },
        }
    );
}
