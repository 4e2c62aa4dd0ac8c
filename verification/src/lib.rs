//! Parsing of Internet messages (RFC 2822 headers, MIME structure and
//! encodings), with contracts proved by Verus.

pub mod chars;
pub mod clist;
pub mod chash;
pub mod lex;
pub mod codec;
pub mod charconv;
pub mod encoded_word;
pub mod words;
pub mod date;
pub mod address;
pub mod msgid;
pub mod fields;
pub mod header;
pub mod field_kinds;
pub mod mime_fields;
pub mod mime_disposition;
pub mod mime_header;
pub mod mime_scan;
pub mod mime;
pub mod mime_parse;
pub mod mime_section;
pub mod imf_write;
pub mod imf_roundtrip;
pub mod date_roundtrip;

use vstd::prelude::*;

verus! {

/// What a parser reports when it does not succeed.
#[derive(PartialEq, Eq, Structural, Clone, Copy, Debug)]
pub enum MailError {
    /// The input does not follow the grammar at this point.
    Parse,
    /// An allocation failed.
    Memory,
    /// An argument or a token is not one that is understood.
    Inval,
    /// A file could not be used.
    File,
}

/// The numeric code of an error (`0` stands for success).
pub fn mail_error_code(e: MailError) -> (c: i32)
    ensures
        c == spec_error_code(e),
{
    match e {
        MailError::Parse => 1,
        MailError::Memory => 2,
        MailError::Inval => 3,
        MailError::File => 4,
    }
}

pub open spec fn spec_error_code(e: MailError) -> i32 {
    match e {
        MailError::Parse => 1,
        MailError::Memory => 2,
        MailError::Inval => 3,
        MailError::File => 4,
    }
}

/// The outcome of a parser that only moves the cursor, seen as integers.
pub open spec fn pos_view(r: Result<usize, MailError>) -> Result<int, MailError> {
    match r {
        Ok(e) => Ok(e as int),
        Err(x) => Err(x),
    }
}

/// The outcome of a parser that yields a value, seen through the value's view.
pub open spec fn res_view<T: View>(r: Result<(T, usize), MailError>) -> Result<(T::V, int), MailError> {
    match r {
        Ok((v, e)) => Ok((v@, e as int)),
        Err(x) => Err(x),
    }
}

} // verus!
