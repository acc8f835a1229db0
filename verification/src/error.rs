//! Error type returned by the decoder and encoder.
use vstd::prelude::*;

verus! {

/// The two classes of failure the codec reports. Contracts speak of an
/// error through its kind, and the decoder's contracts also through its
/// message ([`TgaError::msg`]).
#[derive(Debug, Clone, Copy, PartialEq, Eq, Structural)]
pub enum TgaErrorKind {
    InvalidData,
    Unsupported,
}

/// Error variants returned by the decoder and encoder.
#[derive(Debug, Clone, PartialEq, Eq)]
pub enum TgaError {
    /// The byte stream is malformed (truncated header, RLE packet runs
    /// past end of pixel data, palette index out of range, ...).
    InvalidData(String),
    /// The byte stream uses a feature this codec doesn't implement (an
    /// image type outside the 1/2/3/9/10/11 set, an unsupported pixel
    /// depth, ...).
    Unsupported(String),
}

impl TgaError {
    /// The kind of this error.
    pub open spec fn kind(self) -> TgaErrorKind {
        match self {
            TgaError::InvalidData(_) => TgaErrorKind::InvalidData,
            TgaError::Unsupported(_) => TgaErrorKind::Unsupported,
        }
    }

    /// The message this error carries.
    pub open spec fn msg(self) -> Seq<char> {
        match self {
            TgaError::InvalidData(m) => m@,
            TgaError::Unsupported(m) => m@,
        }
    }

    /// Construct a [`TgaError::InvalidData`] from a built message.
    pub fn invalid_owned(msg: String) -> (e: Self)
        ensures
            e.kind() == TgaErrorKind::InvalidData,
            e.msg() == msg@,
    {
        TgaError::InvalidData(msg)
    }

    /// Construct a [`TgaError::Unsupported`] from a built message.
    pub fn unsupported_owned(msg: String) -> (e: Self)
        ensures
            e.kind() == TgaErrorKind::Unsupported,
            e.msg() == msg@,
    {
        TgaError::Unsupported(msg)
    }

    /// Construct a [`TgaError::InvalidData`] from a message.
    pub fn invalid(msg: &str) -> (e: Self)
        ensures
            e.kind() == TgaErrorKind::InvalidData,
            e matches TgaError::InvalidData(m) && m@ == msg@,
            e.msg() == msg@,
    {
        TgaError::InvalidData(msg.to_owned())
    }

    /// Construct a [`TgaError::Unsupported`] from a message.
    pub fn unsupported(msg: &str) -> (e: Self)
        ensures
            e.kind() == TgaErrorKind::Unsupported,
            e matches TgaError::Unsupported(m) && m@ == msg@,
            e.msg() == msg@,
    {
        TgaError::Unsupported(msg.to_owned())
    }

    /// Human-readable message, `"invalid data: ..."` or `"unsupported: ..."`.
    pub fn message(&self) -> (s: String)
        ensures
            s@ == match self {
                TgaError::InvalidData(m) => "invalid data: "@ + m@,
                TgaError::Unsupported(m) => "unsupported: "@ + m@,
            },
    {
        match self {
            TgaError::InvalidData(m) => {
                let mut s = String::from_str("invalid data: ");
                s.append(m.as_str());
                s
            },
            TgaError::Unsupported(m) => {
                let mut s = String::from_str("unsupported: ");
                s.append(m.as_str());
                s
            },
        }
    }
}

} // verus!
