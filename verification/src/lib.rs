//! Lazily decoded embedded messages for a length-delimited wire format.
//!
//! A field that holds an embedded message can be kept as the bytes it arrived in
//! and decoded only when it is first read. A field that is never read is written
//! back byte for byte.
//!
//! - `lazy` and `field` hold the value of a lazy field and the slot that a message
//!   keeps for it; `hooks` holds what the message calls to merge, write and measure
//!   the field.
//! - `message` says what is asked of an embedded message and folds the fields of a
//!   payload into one; `bytes_value` makes `Vec<u8>` such a message and proves the
//!   laws of it.
//! - `wire` and `buffer` say what the calls into `prost` and `bytes` do.
//! - `laws`, `folding` and `varint` hold what is proved of all of this.
//! - `codegen` holds the decisions of the code generator for a message field.

pub mod buffer;
pub mod bytes_value;
pub mod codegen;
pub mod error;
pub mod field;
pub mod folding;
pub mod foreign;
pub mod hooks;
pub mod laws;
pub mod lazy;
pub mod message;
pub mod varint;
pub mod wire;
