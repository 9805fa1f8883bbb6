use greatest::cast::{
    convert_value, f32_encode, f32_to_f64_bits, f64_encode, i64_to_f32_bits, i64_to_f64_bits,
};
use greatest::tags::TypeTag;
use greatest::values::TypedValue;

#[test]
fn unsigned_to_f64_matches_hardware() {
    let samples: Vec<u64> = vec![
        0,
        1,
        2,
        3,
        20,
        102,
        150,
        (1 << 52) - 1,
        1 << 52,
        (1 << 53) - 1,
        1 << 53,
        (1 << 53) + 1,
        (1 << 53) + 2,
        (1 << 53) + 3,
        (1 << 60) + 12345,
        u64::MAX,
        u64::MAX - 1024,
    ];
    for m in samples {
        assert_eq!(f64_encode(false, m), (m as f64).to_bits(), "magnitude {}", m);
    }
}

#[test]
fn signed_to_f64_matches_hardware() {
    let samples: Vec<i64> = vec![
        0,
        1,
        -1,
        -20,
        102,
        -102,
        i64::MAX,
        i64::MIN,
        i64::MIN + 1,
        -(1 << 53) - 1,
        (1 << 53) + 1,
    ];
    for v in samples {
        assert_eq!(i64_to_f64_bits(v), (v as f64).to_bits(), "value {}", v);
    }
}

#[test]
fn integers_to_f32_match_hardware() {
    let samples: Vec<i64> = vec![
        0,
        1,
        -1,
        16_777_215,
        16_777_216,
        16_777_217,
        16_777_219,
        -16_777_217,
        i64::MAX,
        i64::MIN,
        999_999_999,
    ];
    for v in samples {
        assert_eq!(i64_to_f32_bits(v), (v as f32).to_bits(), "value {}", v);
    }
    for m in [u64::MAX, u64::MAX - 1, 1 << 63] {
        assert_eq!(f32_encode(false, m), (m as f32).to_bits(), "magnitude {}", m);
    }
}

#[test]
fn f32_widens_to_f64_exactly() {
    let samples: Vec<f32> = vec![
        0.0,
        -0.0,
        1.5,
        -2.75,
        f32::MAX,
        f32::MIN_POSITIVE,
        1.0e-40,        // subnormal
        -1.0e-45,       // smallest-magnitude subnormal, negative
        f32::INFINITY,
        f32::NEG_INFINITY,
    ];
    for x in samples {
        assert_eq!(
            f32_to_f64_bits(x.to_bits()),
            (x as f64).to_bits(),
            "value {}",
            x
        );
    }
    // a NaN widens to a NaN
    assert!(f64::from_bits(f32_to_f64_bits(f32::NAN.to_bits())).is_nan());
}

#[test]
fn widening_preserves_integer_values() {
    let v = TypedValue::Int8(-7);
    assert_eq!(convert_value(&v, &TypeTag::Int64), TypedValue::Int64(-7));
    let v = TypedValue::UInt16(40_000);
    assert_eq!(convert_value(&v, &TypeTag::Int32), TypedValue::Int32(40_000));
    let v = TypedValue::Int32(123);
    assert_eq!(
        convert_value(&v, &TypeTag::Float64),
        TypedValue::Float64 { bits: (123.0f64).to_bits() }
    );
    assert_eq!(convert_value(&TypedValue::Null, &TypeTag::Int64), TypedValue::Null);
    // lists convert element by element
    let v = TypedValue::List(vec![TypedValue::Int8(1), TypedValue::Null]);
    assert_eq!(
        convert_value(&v, &TypeTag::List(Box::new(TypeTag::Int32))),
        TypedValue::List(vec![TypedValue::Int32(1), TypedValue::Null])
    );
}
