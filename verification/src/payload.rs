//! Payloads: what a message carries after its header.

use vstd::prelude::*;

pub mod block;
pub mod blocks;
pub mod builder;
pub mod empty;
pub mod hole_puncher;
pub mod list;
pub mod parser;
pub mod peers;

verus! {

/// Why a field could not be read.
#[derive(Debug, PartialEq, Eq, Clone, Copy)]
pub enum FieldError {
    /// The payload has no field at that position.
    Missing,
    /// The field is not well-formed UTF-8.
    NotUtf8,
    /// The field is not a decimal number of the expected range.
    NotANumber,
}

/// Why a payload could not be read.
#[derive(Debug, PartialEq, Eq, Clone, Copy)]
pub enum PayloadError {
    /// The field at `index` is missing or malformed.
    MalformedField { index: usize, reason: FieldError },
}

/// A payload type: a value that can be written as a payload region and read
/// back from the fields of one.
pub trait Payload: Sized + View {
    /// The value that `new` gives.
    spec fn spec_new() -> Self::V;

    /// The payload region that stands for a value.
    spec fn spec_to_bytes(value: Self::V) -> Seq<u8>;

    /// The value that a sequence of fields stands for, or why it stands for none.
    spec fn spec_parse(fields: Seq<Seq<u8>>) -> Result<Self::V, PayloadError>;

    /// The empty value of the type.
    fn new() -> (out: Self)
        ensures
            out@ == Self::spec_new(),
    ;

    /// Reads a value from the fields of a payload region.
    fn parse(bytes: Vec<Vec<u8>>) -> (out: Result<Self, PayloadError>)
        ensures
            match out {
                Ok(value) => Self::spec_parse(crate::text::byte_views(bytes@)) == Ok::<
                    Self::V,
                    PayloadError,
                >(value@),
                Err(e) => Self::spec_parse(crate::text::byte_views(bytes@)) == Err::<
                    Self::V,
                    PayloadError,
                >(e),
            },
    ;

    /// Writes the value as a payload region.
    fn to_bytes(self) -> (out: Vec<u8>)
        ensures
            out@ == Self::spec_to_bytes(self@),
    ;
}

/// Whether a value of a payload type survives being written and read back.
pub open spec fn round_trips<T: Payload>(value: T::V) -> bool {
    T::spec_parse(parser::spec_parse_payload(T::spec_to_bytes(value))) == Ok::<
        T::V,
        PayloadError,
    >(value)
}

} // verus!
