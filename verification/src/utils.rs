//! The extended payload length that follows a frame's two header bytes.

use crate::text::{decimal_text, push_decimal, push_text, string_of};
use vstd::prelude::*;

verus! {

/// A payload length too large for the seven-bit indicator: sixteen bits after
/// indicator 126, sixty-four bits after indicator 127.
#[derive(Debug, Clone, Copy, PartialEq, Eq, Structural)]
pub enum ExtendedPayLoadLength {
    Medium(u16),
    Large(u64),
}

impl ExtendedPayLoadLength {
    /// How many bytes the length occupies on the wire.
    pub open spec fn spec_size(&self) -> nat {
        match self {
            ExtendedPayLoadLength::Medium(_) => 2,
            ExtendedPayLoadLength::Large(_) => 8,
        }
    }

    /// The length itself.
    pub open spec fn spec_value(&self) -> nat {
        match self {
            ExtendedPayLoadLength::Medium(length) => *length as nat,
            ExtendedPayLoadLength::Large(length) => *length as nat,
        }
    }

    /// The length as text: `2byte-` or `8byte-` and the number.
    pub open spec fn text(&self) -> Seq<char> {
        match self {
            ExtendedPayLoadLength::Medium(length) => "2byte-"@ + decimal_text(*length as nat),
            ExtendedPayLoadLength::Large(length) => "8byte-"@ + decimal_text(*length as nat),
        }
    }

    /// The length as text, for a reader.
    pub fn to_string(&self) -> (text: String)
        ensures
            text@ == self.text(),
    {
        let mut out: Vec<char> = Vec::new();
        match self {
            ExtendedPayLoadLength::Medium(length) => {
                push_text(&mut out, "2byte-");
                push_decimal(&mut out, *length as u64);
            },
            ExtendedPayLoadLength::Large(length) => {
                push_text(&mut out, "8byte-");
                push_decimal(&mut out, *length);
            },
        }
        string_of(out.as_slice())
    }

    /// How many bytes the length occupies on the wire: 2 or 8.
    pub fn get_size(&self) -> (size: usize)
        ensures
            size == self.spec_size(),
    {
        match self {
            ExtendedPayLoadLength::Medium(_) => 2,
            ExtendedPayLoadLength::Large(_) => 8,
        }
    }

    /// The length as a `usize`. On a machine whose `usize` is narrower than
    /// sixty-four bits a `Large` length above `usize::MAX` is cut down to
    /// its low bits.
    pub fn get_value(&self) -> (value: usize)
        ensures
            value == self.spec_value() as usize,
            self.spec_value() <= usize::MAX ==> value == self.spec_value(),
    {
        match self {
            ExtendedPayLoadLength::Medium(length) => *length as usize,
            ExtendedPayLoadLength::Large(length) => #[verifier::truncate] (*length as usize),
        }
    }
}

} // verus!
