//! What can go wrong when decoding.

use crate::text::{decimal, push_decimal};
use vstd::prelude::*;
use vstd::string::StringExecFns;

verus! {

/// The ways in which decoding fails.
#[derive(Debug)]
pub enum DecodeErrorKind {
    /// The symbols found do not make up whole bytes: their number, which it holds, is
    /// not a multiple of eight.
    IncorrectLength(usize),
    /// A byte that stands for no character. Kept for callers that match on it; nothing
    /// in this library returns it.
    InvalidChar(u8),
    /// A group of binary digits that denotes no byte.
    InvalidInt,
}

/// A failed decoding.
#[derive(Debug)]
pub struct DecodeError {
    pub kind: DecodeErrorKind,
}

impl DecodeErrorKind {
    /// The sentence that describes the failure.
    pub open spec fn description(self) -> Seq<char> {
        match self {
            DecodeErrorKind::IncorrectLength(size) => {
                "Number of invisible characters must be divisible by 8, length was "@ + decimal(
                    size as nat,
                )
            },
            DecodeErrorKind::InvalidChar(byte) => {
                "Could not interpret "@ + decimal(byte as nat) + " as char"@
            },
            DecodeErrorKind::InvalidInt => "Failed to parse int"@,
        }
    }
}

impl DecodeError {
    /// The description of the failure, as a string to show to a user.
    pub fn message(&self) -> (text: String)
        ensures
            text@ == self.kind.description(),
    {
        match self.kind {
            DecodeErrorKind::IncorrectLength(size) => {
                let mut text =
                    "Number of invisible characters must be divisible by 8, length was ".to_owned();
                push_decimal(&mut text, size);
                text
            },
            DecodeErrorKind::InvalidChar(byte) => {
                let mut text = "Could not interpret ".to_owned();
                push_decimal(&mut text, byte as usize);
                text.append(" as char");
                text
            },
            DecodeErrorKind::InvalidInt => "Failed to parse int".to_owned(),
        }
    }
}

} // verus!
