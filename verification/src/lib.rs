//! Path validation: a chained Keccak-256 digest over coordinate bytes is
//! checked against a claimed proof value, and the maximum step distance
//! between consecutive coordinate pairs is checked against a fixed ceiling.

pub mod digest;
pub mod speed;
pub mod validator;
