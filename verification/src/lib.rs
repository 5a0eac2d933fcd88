//! Hides text inside a carrier as a run of invisible characters, one per bit,
//! and recovers it again.
//!
//! Encoding writes every byte of the plaintext as eight symbols, most significant bit
//! first: one symbol stands for 0, another for 1. Decoding reads the symbols of a
//! carrier in the order in which they stand, passes over every other character, and
//! packs the bits into bytes again.

pub mod bits;
pub mod decode;
pub mod encode;
pub mod error;
pub mod laws;
pub mod symbols;
pub mod text;

pub use crate::decode::decode_hidden;
pub use crate::encode::{add_plain_text, encode_bytes, encode_hidden};
pub use crate::error::{DecodeError, DecodeErrorKind};
pub use crate::symbols::{INVSEP, ZWNJ};
