use vstd::prelude::*;

verus! {

/// Failure conditions reported by the engine.
///
/// Errors raised by outside libraries (I/O, UTF-8 decoding, regex
/// compilation) are mapped onto the matching variant at the point where
/// the outside call is made, so the rest of the engine deals with this
/// one type only.
#[derive(Clone, Copy, Debug, PartialEq, Eq, Structural)]
pub enum Error {
    /// An in-memory data source has run out of seeded responses.
    InMemoryDataError,
    /// A delay string contains a suffix that is not a known time unit.
    TimeStringUnknownOperator,
    /// A key was looked up in the auxiliary store but never stored.
    UndefinedExtraData,
    /// A textual value could not be converted into an enumeration.
    FromStringError,
    /// An unclassified failure.
    GenericError,
    /// Reading from the underlying medium failed.
    IoError,
    /// Bytes read from a source do not form valid UTF-8 text.
    Utf8Error,
    /// A number in a delay string is empty or does not fit the type.
    ParseIntError,
    /// A trigger pattern failed to compile.
    RegexError,
    /// A persisted document is corrupt or truncated.
    DeserializeError,
    /// The data source needs outside input or output (a file read or a
    /// network fetch) that the engine itself does not perform; the
    /// embedding application must load the text and hand it to `check`.
    ExternalSource,
}

impl Error {
    /// The text that `as_string` returns for this error.
    pub open spec fn message(self) -> Seq<char> {
        match self {
            Error::InMemoryDataError => "InMemoryDataError"@,
            Error::TimeStringUnknownOperator => "Unknown Operator"@,
            Error::UndefinedExtraData => "UndefinedExtraData"@,
            Error::FromStringError => "FromStrError"@,
            Error::GenericError => "GenericError"@,
            Error::IoError => "IoError"@,
            Error::Utf8Error => "Utf8Error"@,
            Error::ParseIntError => "ParseIntError"@,
            Error::RegexError => "RegexError"@,
            Error::DeserializeError => "DeserializeError"@,
            Error::ExternalSource => "ExternalSource"@,
        }
    }

    /// A short, human-readable description of the error.
    pub fn as_string(&self) -> (r: String)
        ensures
            r@ == self.message(),
    {
        match self {
            Error::InMemoryDataError => String::from_str("InMemoryDataError"),
            Error::TimeStringUnknownOperator => String::from_str("Unknown Operator"),
            Error::UndefinedExtraData => String::from_str("UndefinedExtraData"),
            Error::FromStringError => String::from_str("FromStrError"),
            Error::GenericError => String::from_str("GenericError"),
            Error::IoError => String::from_str("IoError"),
            Error::Utf8Error => String::from_str("Utf8Error"),
            Error::ParseIntError => String::from_str("ParseIntError"),
            Error::RegexError => String::from_str("RegexError"),
            Error::DeserializeError => String::from_str("DeserializeError"),
            Error::ExternalSource => String::from_str("ExternalSource"),
        }
    }
}

} // verus!
