//! Null- and NaN-aware elementwise `greatest` over heterogeneously typed
//! columnar operands.
//!
//! The crate provides two cooperating algorithms:
//! - type-coercion resolution: given the declared types of all operands,
//!   find a single type that every one of them losslessly coerces into
//!   (`coerce::find_coerced_type`), or fail naming two conflicting types;
//! - an elementwise maximum reduction (`greatest::greatest`) over operands
//!   that are each either a single repeated value or a full vector, under a
//!   total order in which an absent value is the minimum, a floating-point
//!   NaN is the maximum, and nested lists compare lexicographically.

pub mod tags;
pub mod float_bits;
pub mod values;
pub mod order;
pub mod validity;
pub mod errors;
pub mod coerce;
pub mod cast;
pub mod compare_greater;
pub mod greatest;
pub mod laws;
pub mod permutation;
pub mod transpose;
