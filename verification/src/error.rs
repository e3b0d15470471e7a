//! What can go wrong when a post file is parsed. Every failure is
//! recovered by the caller: the offending file is skipped and the store
//! is left as it was.

use vstd::prelude::*;
use vstd::string::StringExecFns;

use crate::decode::HeaderError;
use crate::decode::HeaderField;

verus! {

/// A post file failed to parse.
#[derive(Clone, Copy, PartialEq, Eq, Structural, Debug)]
pub enum Error {
    /// The file has no `\n---\n` delimiter between header and body.
    NoDelim,
    /// The header half failed to decode.
    Header(HeaderError),
}

/// The name of a header field, as it reads in a post file.
pub open spec fn spec_field_name(f: HeaderField) -> Seq<char> {
    match f {
        HeaderField::Title => "title"@,
        HeaderField::Subtitle => "subtitle"@,
        HeaderField::Author => "author"@,
        HeaderField::Tags => "tags"@,
        HeaderField::Published => "published"@,
    }
}

/// What a header decode failure reads as.
pub open spec fn spec_header_error_message(e: HeaderError) -> Seq<char> {
    match e {
        HeaderError::Missing(f) => "missing required header field: "@ + spec_field_name(f),
        HeaderError::Invalid(f) => "malformed header field: "@ + spec_field_name(f),
        HeaderError::Duplicate(f) => "duplicate header field: "@ + spec_field_name(f),
        HeaderError::UnknownKey => "unknown header key"@,
        HeaderError::BadLine => "header line is not an assignment, a comment or blank"@,
    }
}

/// What a parse failure reads as.
pub open spec fn spec_error_message(e: Error) -> Seq<char> {
    match e {
        Error::NoDelim => "post has no header; no delimiter found"@,
        Error::Header(h) => "error decoding post header: "@ + spec_header_error_message(h),
    }
}

/// The field's name.
pub fn field_name(f: HeaderField) -> (r: &'static str)
    ensures
        r@ == spec_field_name(f),
{
    match f {
        HeaderField::Title => "title",
        HeaderField::Subtitle => "subtitle",
        HeaderField::Author => "author",
        HeaderField::Tags => "tags",
        HeaderField::Published => "published",
    }
}

impl HeaderError {
    /// A human-readable description of the decode failure.
    pub fn message(&self) -> (r: String)
        ensures
            r@ == spec_header_error_message(*self),
    {
        let mut out: String = String::new();
        match self {
            HeaderError::Missing(f) => {
                out.append("missing required header field: ");
                out.append(field_name(*f));
            },
            HeaderError::Invalid(f) => {
                out.append("malformed header field: ");
                out.append(field_name(*f));
            },
            HeaderError::Duplicate(f) => {
                out.append("duplicate header field: ");
                out.append(field_name(*f));
            },
            HeaderError::UnknownKey => {
                out.append("unknown header key");
            },
            HeaderError::BadLine => {
                out.append("header line is not an assignment, a comment or blank");
            },
        }
        proof {
            assert(out@ =~= spec_header_error_message(*self));
        }
        out
    }
}

impl Error {
    /// A human-readable description of the parse failure.
    pub fn message(&self) -> (r: String)
        ensures
            r@ == spec_error_message(*self),
    {
        match self {
            Error::NoDelim => {
                let mut out: String = String::new();
                out.append("post has no header; no delimiter found");
                proof {
                    assert(out@ =~= spec_error_message(*self));
                }
                out
            },
            Error::Header(h) => {
                let mut out: String = String::new();
                out.append("error decoding post header: ");
                let detail = h.message();
                out.append(detail.as_str());
                proof {
                    assert(out@ =~= spec_error_message(*self));
                }
                out
            },
        }
    }
}

} // verus!
