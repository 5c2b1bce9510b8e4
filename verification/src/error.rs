use vstd::prelude::*;
use vstd::utf8::*;

use crate::text::{decimal, decimal_usize, hex4, hex_u16};

verus! {

/// Declares std's I/O error so that library errors can carry one.
#[verifier::external_type_specification]
#[verifier::external_body]
pub struct ExIoError(std::io::Error);

/// Declares std's UTF-8 validation error.
#[verifier::external_type_specification]
#[verifier::external_body]
pub struct ExUtf8Error(std::str::Utf8Error);

/// Declares std's integer parsing error.
#[verifier::external_type_specification]
#[verifier::external_body]
pub struct ExParseIntError(std::num::ParseIntError);

/// Failures while turning a frame into bytes.
#[derive(Debug)]
pub enum EncodeError {
    /// A string does not fit its fixed-width field (the terminating NUL needs one byte).
    StringExceedsFieldWidth(String, usize),
    Io(std::io::Error),
}

impl EncodeError {
    /// The text that describes this error, where it has one of its own: the
    /// byte length of a string that does not fit and the field's width. An I/O
    /// error has none; it is shown as it stands.
    pub fn message(&self) -> (m: Option<String>)
        ensures
            match self {
                EncodeError::StringExceedsFieldWidth(t, w) => m matches Some(x) && x@
                    == "string of length "@ + decimal(encode_utf8(t@).len()) + " exceeds field width "@
                    + decimal(*w as nat),
                EncodeError::Io(_) => m is None,
            },
    {
        match self {
            EncodeError::StringExceedsFieldWidth(t, w) => {
                proof {
                    reveal_strlit("string of length ");
                    reveal_strlit(" exceeds field width ");
                }
                let mut x = "string of length ".to_owned();
                x.append(decimal_usize(t.as_str().as_bytes().len()).as_str());
                x.append(" exceeds field width ");
                x.append(decimal_usize(*w).as_str());
                Some(x)
            },
            EncodeError::Io(_) => None,
        }
    }
}

/// Failures while reading a frame from bytes.
#[derive(Debug)]
pub enum DecodeError {
    UnsupportedOpcode(u16),
    Io(std::io::Error),
    InvalidUtf8(std::str::Utf8Error),
    /// The speed field holds no known speed.
    InvalidSpeed(u32),
}

impl DecodeError {
    /// The text that describes this error, where it has one of its own: an
    /// unsupported opcode in hexadecimal. The other errors have none; they are
    /// shown as they stand.
    pub fn message(&self) -> (m: Option<String>)
        ensures
            match self {
                DecodeError::UnsupportedOpcode(op) => m matches Some(x) && x@ == "unsupported opcode: "@
                    + "0x"@ + hex4(*op),
                _ => m is None,
            },
    {
        match self {
            DecodeError::UnsupportedOpcode(op) => {
                proof {
                    reveal_strlit("unsupported opcode: ");
                }
                let mut x = "unsupported opcode: ".to_owned();
                x.append(hex_u16(*op).as_str());
                Some(x)
            },
            _ => None,
        }
    }
}

/// Failures while reading device records out of sysfs text.
#[derive(Debug)]
pub enum ParseError {
    NotADirectory,
    NotAnInterface,
    NotADevice,
    NonUtf8Path,
    Io(std::io::Error),
    InvalidHex(std::num::ParseIntError),
    InvalidSpeedClass,
}

impl vstd::std_specs::convert::FromSpecImpl<std::io::Error> for EncodeError {
    open spec fn obeys_from_spec() -> bool {
        true
    }

    open spec fn from_spec(v: std::io::Error) -> EncodeError {
        EncodeError::Io(v)
    }
}

impl From<std::io::Error> for EncodeError {
    fn from(value: std::io::Error) -> EncodeError {
        EncodeError::Io(value)
    }
}

impl vstd::std_specs::convert::FromSpecImpl<std::io::Error> for DecodeError {
    open spec fn obeys_from_spec() -> bool {
        true
    }

    open spec fn from_spec(v: std::io::Error) -> DecodeError {
        DecodeError::Io(v)
    }
}

impl From<std::io::Error> for DecodeError {
    fn from(value: std::io::Error) -> DecodeError {
        DecodeError::Io(value)
    }
}

impl vstd::std_specs::convert::FromSpecImpl<std::str::Utf8Error> for DecodeError {
    open spec fn obeys_from_spec() -> bool {
        true
    }

    open spec fn from_spec(v: std::str::Utf8Error) -> DecodeError {
        DecodeError::InvalidUtf8(v)
    }
}

impl From<std::str::Utf8Error> for DecodeError {
    fn from(value: std::str::Utf8Error) -> DecodeError {
        DecodeError::InvalidUtf8(value)
    }
}

impl vstd::std_specs::convert::FromSpecImpl<std::io::Error> for ParseError {
    open spec fn obeys_from_spec() -> bool {
        true
    }

    open spec fn from_spec(v: std::io::Error) -> ParseError {
        ParseError::Io(v)
    }
}

impl From<std::io::Error> for ParseError {
    fn from(value: std::io::Error) -> ParseError {
        ParseError::Io(value)
    }
}

impl vstd::std_specs::convert::FromSpecImpl<std::num::ParseIntError> for ParseError {
    open spec fn obeys_from_spec() -> bool {
        true
    }

    open spec fn from_spec(v: std::num::ParseIntError) -> ParseError {
        ParseError::InvalidHex(v)
    }
}

impl From<std::num::ParseIntError> for ParseError {
    fn from(value: std::num::ParseIntError) -> ParseError {
        ParseError::InvalidHex(value)
    }
}

} // verus!
