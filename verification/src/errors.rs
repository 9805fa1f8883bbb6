//! The errors the library reports.
//!
//! Every error is deterministic in the inputs and is reported before any
//! row is processed:
//! - `ZeroArguments` and `OneArgument` are the two arity failures of the
//!   public entry points, which need at least two operands;
//! - `IncompatibleTypes` is the coercion failure, carrying the first pair
//!   of operand types of which neither coerces into the other.

use vstd::prelude::*;

use vstd::string::StringExecFns;

use crate::tags::TypeTag;

verus! {

#[derive(Debug, PartialEq, Eq)]
pub enum GreatestError {
    ZeroArguments,
    OneArgument,
    IncompatibleTypes { left: TypeTag, right: TypeTag },
}

/// Display name of a type tag.
pub open spec fn spec_tag_name(t: TypeTag) -> Seq<char>
    decreases t,
{
    match t {
        TypeTag::Null => "Null"@,
        TypeTag::Boolean => "Boolean"@,
        TypeTag::Int8 => "Int8"@,
        TypeTag::Int16 => "Int16"@,
        TypeTag::Int32 => "Int32"@,
        TypeTag::Int64 => "Int64"@,
        TypeTag::UInt8 => "UInt8"@,
        TypeTag::UInt16 => "UInt16"@,
        TypeTag::UInt32 => "UInt32"@,
        TypeTag::UInt64 => "UInt64"@,
        TypeTag::Float32 => "Float32"@,
        TypeTag::Float64 => "Float64"@,
        TypeTag::Utf8 => "Utf8"@,
        TypeTag::Binary => "Binary"@,
        TypeTag::List(e) => "List("@ + spec_tag_name(*e) + ")"@,
    }
}

/// Message text of an error.
pub open spec fn spec_message(e: GreatestError) -> Seq<char> {
    match e {
        GreatestError::ZeroArguments => "greatest does not support zero arguments"@,
        GreatestError::OneArgument => "greatest was called with 1 arguments. It requires at least 2."@,
        GreatestError::IncompatibleTypes { left, right } => {
            "Cannot find a common type for arguments, incompatible "@ + spec_tag_name(left)
                + " and "@ + spec_tag_name(right)
        },
    }
}

/// Display name of a type tag.
pub fn tag_name(t: &TypeTag) -> (r: String)
    ensures
        r@ == spec_tag_name(*t),
    decreases t,
{
    match t {
        TypeTag::Null => String::from_str("Null"),
        TypeTag::Boolean => String::from_str("Boolean"),
        TypeTag::Int8 => String::from_str("Int8"),
        TypeTag::Int16 => String::from_str("Int16"),
        TypeTag::Int32 => String::from_str("Int32"),
        TypeTag::Int64 => String::from_str("Int64"),
        TypeTag::UInt8 => String::from_str("UInt8"),
        TypeTag::UInt16 => String::from_str("UInt16"),
        TypeTag::UInt32 => String::from_str("UInt32"),
        TypeTag::UInt64 => String::from_str("UInt64"),
        TypeTag::Float32 => String::from_str("Float32"),
        TypeTag::Float64 => String::from_str("Float64"),
        TypeTag::Utf8 => String::from_str("Utf8"),
        TypeTag::Binary => String::from_str("Binary"),
        TypeTag::List(e) => {
            let mut r = String::from_str("List(");
            let inner = tag_name(e);
            r.append(inner.as_str());
            r.append(")");
            r
        },
    }
}

impl GreatestError {
    /// Message text of this error.
    pub fn message(&self) -> (r: String)
        ensures
            r@ == spec_message(*self),
    {
        match self {
            GreatestError::ZeroArguments => String::from_str(
                "greatest does not support zero arguments",
            ),
            GreatestError::OneArgument => String::from_str(
                "greatest was called with 1 arguments. It requires at least 2.",
            ),
            GreatestError::IncompatibleTypes { left, right } => {
                let mut r = String::from_str("Cannot find a common type for arguments, incompatible ");
                let left_name = tag_name(left);
                let right_name = tag_name(right);
                r.append(left_name.as_str());
                r.append(" and ");
                r.append(right_name.as_str());
                r
            },
        }
    }
}

} // verus!
