use greatest::coerce::{coerce_types, find_coerced_type, resolve_common_type};
use greatest::errors::GreatestError;
use greatest::tags::{coerces_to, tag_eq, TypeTag};

#[test]
fn widening_chain_resolves_to_widest() {
    let types = vec![TypeTag::Int8, TypeTag::Int16, TypeTag::Int32, TypeTag::Int64];
    assert_eq!(resolve_common_type(&types), Ok(TypeTag::Int64));
    // the result does not depend on the order
    let types = vec![TypeTag::Int64, TypeTag::Int32, TypeTag::Int8, TypeTag::Int16];
    assert_eq!(resolve_common_type(&types), Ok(TypeTag::Int64));
}

#[test]
fn signed_unsigned_same_width_conflict() {
    let types = vec![TypeTag::Int8, TypeTag::UInt8];
    assert_eq!(
        resolve_common_type(&types),
        Err(GreatestError::IncompatibleTypes { left: TypeTag::Int8, right: TypeTag::UInt8 })
    );
}

#[test]
fn floats_absorb_large_integers() {
    let types = vec![TypeTag::Int64, TypeTag::UInt64, TypeTag::Float64];
    assert_eq!(resolve_common_type(&types), Ok(TypeTag::Float64));
}

#[test]
fn all_null_resolves_to_null() {
    let types = vec![TypeTag::Null, TypeTag::Null];
    assert_eq!(resolve_common_type(&types), Ok(TypeTag::Null));
}

#[test]
fn null_is_dropped_before_resolution() {
    let types = vec![TypeTag::Null, TypeTag::Int16, TypeTag::Null, TypeTag::UInt8];
    assert_eq!(resolve_common_type(&types), Ok(TypeTag::Int16));
}

#[test]
fn incompatible_pairs() {
    let pairs = vec![
        (TypeTag::Int32, TypeTag::Boolean),
        (TypeTag::Int32, TypeTag::Binary),
        (TypeTag::Int8, TypeTag::UInt8),
        (TypeTag::Int8, TypeTag::UInt16),
        (TypeTag::Int8, TypeTag::UInt32),
        (TypeTag::Int8, TypeTag::UInt64),
        (TypeTag::Int16, TypeTag::UInt16),
        (TypeTag::Int16, TypeTag::UInt32),
        (TypeTag::Int16, TypeTag::UInt64),
        (TypeTag::Int32, TypeTag::UInt32),
        (TypeTag::Int32, TypeTag::UInt64),
        (TypeTag::Utf8, TypeTag::Binary),
    ];
    for (left, right) in pairs {
        let types = vec![clone_tag(&left), clone_tag(&right)];
        let expected = GreatestError::IncompatibleTypes { left, right };
        assert_eq!(resolve_common_type(&types), Err(expected));
    }
}

fn clone_tag(t: &TypeTag) -> TypeTag {
    greatest::tags::clone_tag(t)
}

#[test]
fn unsigned_widens_into_wider_signed() {
    assert_eq!(
        resolve_common_type(&vec![TypeTag::UInt8, TypeTag::Int16]),
        Ok(TypeTag::Int16)
    );
    assert_eq!(
        resolve_common_type(&vec![TypeTag::UInt16, TypeTag::Int32]),
        Ok(TypeTag::Int32)
    );
    assert_eq!(
        resolve_common_type(&vec![TypeTag::UInt32, TypeTag::Int64]),
        Ok(TypeTag::Int64)
    );
    // a type that neither operand names can never be the answer: the
    // common type of { i8, u8, i16 } is i16, found in any order
    assert_eq!(
        resolve_common_type(&vec![TypeTag::Int8, TypeTag::UInt8, TypeTag::Int16]),
        Ok(TypeTag::Int16)
    );
    assert_eq!(
        resolve_common_type(&vec![TypeTag::Int16, TypeTag::UInt8, TypeTag::Int8]),
        Ok(TypeTag::Int16)
    );
}

#[test]
fn list_types_widen_elementwise() {
    let a = TypeTag::List(Box::new(TypeTag::Int8));
    let b = TypeTag::List(Box::new(TypeTag::Int32));
    assert!(coerces_to(&a, &b));
    assert!(!coerces_to(&b, &a));
    let types = vec![a, b];
    assert_eq!(
        resolve_common_type(&types),
        Ok(TypeTag::List(Box::new(TypeTag::Int32)))
    );
}

#[test]
fn arity_errors_from_resolution() {
    assert_eq!(resolve_common_type(&vec![]), Err(GreatestError::ZeroArguments));
    assert_eq!(
        resolve_common_type(&vec![TypeTag::Int8]),
        Err(GreatestError::OneArgument)
    );
    // the inner search itself accepts a single type
    assert_eq!(find_coerced_type(&vec![TypeTag::Int8]), Ok(TypeTag::Int8));
    assert_eq!(find_coerced_type(&vec![]), Ok(TypeTag::Null));
}

#[test]
fn coerce_types_repeats_the_common_type() {
    let types = vec![TypeTag::Int8, TypeTag::Int64, TypeTag::UInt16];
    let coerced = coerce_types(&types).unwrap();
    assert_eq!(coerced, vec![TypeTag::Int64, TypeTag::Int64, TypeTag::Int64]);
    assert_eq!(
        coerce_types(&vec![TypeTag::Int32, TypeTag::Boolean]),
        Err(GreatestError::IncompatibleTypes { left: TypeTag::Int32, right: TypeTag::Boolean })
    );
}

#[test]
fn error_messages() {
    assert_eq!(
        GreatestError::ZeroArguments.message(),
        "greatest does not support zero arguments"
    );
    assert_eq!(
        GreatestError::OneArgument.message(),
        "greatest was called with 1 arguments. It requires at least 2."
    );
    let e = GreatestError::IncompatibleTypes { left: TypeTag::Int32, right: TypeTag::Boolean };
    assert_eq!(
        e.message(),
        "Cannot find a common type for arguments, incompatible Int32 and Boolean"
    );
    let e = GreatestError::IncompatibleTypes {
        left: TypeTag::List(Box::new(TypeTag::Int8)),
        right: TypeTag::Utf8,
    };
    assert_eq!(
        e.message(),
        "Cannot find a common type for arguments, incompatible List(Int8) and Utf8"
    );
}

#[test]
fn tag_equality_is_structural() {
    assert!(tag_eq(&TypeTag::Int8, &TypeTag::Int8));
    assert!(!tag_eq(&TypeTag::Int8, &TypeTag::UInt8));
    assert!(tag_eq(
        &TypeTag::List(Box::new(TypeTag::Utf8)),
        &TypeTag::List(Box::new(TypeTag::Utf8))
    ));
    assert!(!tag_eq(
        &TypeTag::List(Box::new(TypeTag::Utf8)),
        &TypeTag::List(Box::new(TypeTag::Binary))
    ));
}
