//! Shortest round-trip decimal digits for IEEE-754 doubles (Grisu3), their
//! JSON-literal layout, and a compact decimal number type.

pub mod diy_fp;
pub mod grisu;
pub mod literal;
pub mod number;
pub mod powers;
