//! The error types: two distinguishable failure kinds behind one
//! discriminated value, with conversions from each underlying kind so
//! that callers can branch on the kind alone.

use vstd::prelude::*;
use vstd::string::StringExecFns;

verus! {

/// A failed attempt to read the input text, carrying the text of the
/// underlying failure as reported by whoever performed the read.
#[derive(Debug, Clone)]
pub struct FileError {
    pub message: String,
}

impl FileError {
    /// Wraps the text of an underlying read failure.
    pub fn new(message: String) -> (e: FileError)
        ensures
            e.message@ == message@,
    {
        FileError { message }
    }
}

/// A rejection of the input text by the dogs-document parser, carrying
/// the character index at which parsing gave up. The index is a
/// diagnostic: the contracts fix when a rejection happens, not which
/// index it names.
#[derive(Debug, Clone)]
pub struct JsonError {
    pub offset: usize,
}

impl JsonError {
    /// Marks the input text as not being a well-formed dogs document,
    /// rejected at the given character index.
    pub fn new(offset: usize) -> (e: JsonError)
        ensures
            e.offset == offset,
    {
        JsonError { offset }
    }
}

/// The decimal digits writing the number `n`.
pub open spec fn decimal_digits(n: nat) -> Seq<char>
    decreases n,
{
    if n < 10 {
        seq![((48 + n) as u8) as char]
    } else {
        decimal_digits(n / 10) + seq![((48 + n % 10) as u8) as char]
    }
}

/// Appends the decimal digits of `n`.
fn push_decimal(out: &mut String, n: usize)
    ensures
        final(out)@ == old(out)@ + decimal_digits(n as nat),
    decreases n,
{
    if n < 10 {
        crate::codec::push_char(out, ((48 + n as u32) as u8) as char);
    } else {
        push_decimal(out, n / 10);
        crate::codec::push_char(out, ((48 + (n % 10) as u32) as u8) as char);
    }
    assert(final(out)@ =~= old(out)@ + decimal_digits(n as nat));
}

/// The discriminated error: either the file could not be read, or its
/// contents were not a well-formed dogs document. Callers branch on the
/// variant instead of inspecting an opaque error object.
#[derive(Debug, Clone)]
pub enum GetDogsError {
    BadFile(FileError),
    BadJson(JsonError),
}

/// Shorthand for results whose error is a [`GetDogsError`].
pub type MyResult<T> = Result<T, GetDogsError>;

impl From<FileError> for GetDogsError {
    fn from(other: FileError) -> (e: GetDogsError) {
        GetDogsError::BadFile(other)
    }
}

impl vstd::std_specs::convert::FromSpecImpl<FileError> for GetDogsError {
    open spec fn obeys_from_spec() -> bool {
        true
    }

    open spec fn from_spec(other: FileError) -> GetDogsError {
        GetDogsError::BadFile(other)
    }
}

impl From<JsonError> for GetDogsError {
    fn from(other: JsonError) -> (e: GetDogsError) {
        GetDogsError::BadJson(other)
    }
}

impl vstd::std_specs::convert::FromSpecImpl<JsonError> for GetDogsError {
    open spec fn obeys_from_spec() -> bool {
        true
    }

    open spec fn from_spec(other: JsonError) -> GetDogsError {
        GetDogsError::BadJson(other)
    }
}

impl GetDogsError {
    /// True exactly on the file-read variant.
    pub fn is_bad_file(&self) -> (r: bool)
        ensures
            r == (self is BadFile),
    {
        match self {
            GetDogsError::BadFile(_) => true,
            GetDogsError::BadJson(_) => false,
        }
    }

    /// True exactly on the parse variant.
    pub fn is_bad_json(&self) -> (r: bool)
        ensures
            r == (self is BadJson),
    {
        match self {
            GetDogsError::BadFile(_) => false,
            GetDogsError::BadJson(_) => true,
        }
    }

    /// A human-readable account of the failure, naming its kind first so
    /// the two kinds stay distinguishable in printed output, and then
    /// what is known of the underlying failure.
    pub fn describe(&self) -> (r: String)
        ensures
            match self {
                GetDogsError::BadFile(e) => r@ == "bad file: "@ + e.message@,
                GetDogsError::BadJson(e) => r@ == "bad JSON: rejected at character "@
                    + decimal_digits(e.offset as nat),
            },
    {
        match self {
            GetDogsError::BadFile(e) => {
                let prefix = String::from_str("bad file: ");
                prefix.concat(e.message.as_str())
            },
            GetDogsError::BadJson(e) => {
                let mut r = String::from_str("bad JSON: rejected at character ");
                push_decimal(&mut r, e.offset);
                r
            },
        }
    }
}

} // verus!
