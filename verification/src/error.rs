//! The errors that merging and reading a lazy field can end in.

use vstd::prelude::*;
use vstd::string::StringExecFns;

verus! {

/// Why a piece of input could not be merged.
#[derive(Debug, Clone, Copy, PartialEq, Eq, Structural)]
pub enum MergeError {
    /// The field did not arrive as a length-delimited value.
    WireType,
    /// Messages are nested deeper than a decode may descend.
    RecursionLimit,
    /// The length prefix is not a well-formed varint.
    Varint,
    /// The length prefix promises more bytes than the input holds.
    BufferUnderflow,
    /// A field key inside the payload is not well formed.
    Key,
    /// The embedded message could not take one of the payload's fields.
    Field,
    /// A field of the payload reaches past the end of the payload.
    LengthExceeded,
}

/// Why a lazy field could not be read.
#[derive(Debug)]
pub enum Error {
    /// The input ended before the value did.
    EOF,
    /// The named field was still borrowed when it was to be read, so its bytes
    /// could not be decoded in place.
    BorrowBeforeGet(String),
    /// The bytes kept for the field do not decode.
    Decode(MergeError),
}

/// What reading a lazy field gives: a value, or the reason why there is none.
pub type Result<T> = std::result::Result<T, Error>;

impl MergeError {
    /// The text of the error.
    pub open spec fn text(self) -> Seq<char> {
        match self {
            MergeError::WireType => "invalid wire type"@,
            MergeError::RecursionLimit => "recursion limit reached"@,
            MergeError::Varint => "invalid varint"@,
            MergeError::BufferUnderflow => "buffer underflow"@,
            MergeError::Key => "invalid key"@,
            MergeError::Field => "invalid field"@,
            MergeError::LengthExceeded => "delimited length exceeded"@,
        }
    }

    /// A short description of the error.
    pub fn description(&self) -> (s: &'static str)
        ensures
            s@ == self.text(),
    {
        match self {
            MergeError::WireType => "invalid wire type",
            MergeError::RecursionLimit => "recursion limit reached",
            MergeError::Varint => "invalid varint",
            MergeError::BufferUnderflow => "buffer underflow",
            MergeError::Key => "invalid key",
            MergeError::Field => "invalid field",
            MergeError::LengthExceeded => "delimited length exceeded",
        }
    }
}

/// The text that names a field that was borrowed when it was to be read.
fn borrowed_text(name: &str) -> (s: String)
    ensures
        s@ == "field "@ + name@ + " is borrowed before get, so can't decode in get"@,
{
    String::from_str("field ").concat(name).concat(
        " is borrowed before get, so can't decode in get",
    )
}

impl Error {
    /// The text of the error.
    pub open spec fn text(&self) -> Seq<char> {
        match self {
            Error::EOF => "EOF when reading"@,
            Error::BorrowBeforeGet(name) => "field "@ + name@
                + " is borrowed before get, so can't decode in get"@,
            Error::Decode(cause) => cause.text(),
        }
    }

    /// The text of the error, as it is shown to a reader.
    pub fn message(&self) -> (s: String)
        ensures
            s@ == self.text(),
    {
        match self {
            Error::EOF => "EOF when reading".to_owned(),
            Error::BorrowBeforeGet(name) => borrowed_text(name.as_str()),
            Error::Decode(cause) => cause.description().to_owned(),
        }
    }
}

} // verus!
