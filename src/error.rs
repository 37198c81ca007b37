//! Errors of compilation and of decoding.
use vstd::prelude::*;
use vstd::string::*;
use vstd::utf8::*;

verus! {

/// What went wrong.
#[derive(Clone, Copy, Debug, PartialEq, Eq, Structural)]
pub enum ErrorKind {
    /// A `{` is never closed.
    InvalidExpression,
    /// Percent-decoded bytes are not valid UTF-8.
    InvalidUtf8,
    /// The matching pattern could not be compiled.
    InvalidPattern,
}

/// The name of an error kind.
pub open spec fn kind_name(k: ErrorKind) -> Seq<char> {
    match k {
        ErrorKind::InvalidExpression => "InvalidExpression"@,
        ErrorKind::InvalidUtf8 => "InvalidUtf8"@,
        ErrorKind::InvalidPattern => "InvalidPattern"@,
    }
}

impl ErrorKind {
    pub fn name(&self) -> (r: &'static str)
        ensures
            r@ == kind_name(*self),
    {
        match self {
            ErrorKind::InvalidExpression => "InvalidExpression",
            ErrorKind::InvalidUtf8 => "InvalidUtf8",
            ErrorKind::InvalidPattern => "InvalidPattern",
        }
    }
}

/// An error, with the text it concerns and the byte offset at which it was found.
#[derive(Debug)]
pub struct Error {
    pub(crate) source: String,
    pub(crate) source_index: usize,
    pub(crate) kind: ErrorKind,
}

impl Error {
    pub closed spec fn spec_source(&self) -> Seq<char> {
        self.source@
    }

    pub closed spec fn spec_source_index(&self) -> usize {
        self.source_index
    }

    pub closed spec fn spec_kind(&self) -> ErrorKind {
        self.kind
    }

    pub fn new(source: &str, source_index: usize, kind: ErrorKind) -> (r: Self)
        ensures
            r.spec_source() == source@,
            r.spec_source_index() == source_index,
            r.spec_kind() == kind,
    {
        Error { source: source.to_owned(), source_index, kind }
    }

    pub fn kind(&self) -> (r: ErrorKind)
        ensures
            r == self.spec_kind(),
    {
        self.kind
    }

    /// Byte offset into `source()` where the error was found.
    pub fn source_index(&self) -> (r: usize)
        ensures
            r == self.spec_source_index(),
    {
        self.source_index
    }

    /// The text in which the error was found.
    pub fn source(&self) -> (r: &str)
        ensures
            r@ == self.spec_source(),
    {
        self.source.as_str()
    }
}

impl Error {
    /// `Kind ("before >>>> after")` and a newline, where `before` and `after` are the text
    /// split at the error's byte offset (the whole text where the offset is not a character
    /// boundary).
    pub fn message(&self) -> (r: String)
        ensures
            ({
                let bytes = encode_utf8(self.spec_source());
                let i = self.spec_source_index() as int;
                if is_char_boundary(bytes, i) {
                    r@ == kind_name(self.spec_kind()) + " (\""@ + decode_utf8(bytes.subrange(0, i))
                        + " >>>> "@ + decode_utf8(bytes.subrange(i, bytes.len() as int))
                        + "\")\n"@
                } else {
                    r@ == kind_name(self.spec_kind()) + " (\""@ + self.spec_source() + "\")\n"@
                }
            }),
    {
        broadcast use encode_utf8_decode_utf8;

        let mut r = String::from_str(self.kind.name());
        r.append(" (\"");
        let text = self.source.as_str();
        if text.is_char_boundary(self.source_index) {
            let (a, b) = text.split_at(self.source_index);
            proof {
                assert(a@ == decode_utf8(a.spec_bytes()));
                assert(b@ == decode_utf8(b.spec_bytes()));
            }
            r.append(a);
            r.append(" >>>> ");
            r.append(b);
        } else {
            r.append(text);
        }
        r.append("\")\n");
        r
    }
}

} // verus!
