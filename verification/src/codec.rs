//! The wire format: varints, fields, and the two message schemas.

pub mod field;
pub mod message;
pub mod varint;
