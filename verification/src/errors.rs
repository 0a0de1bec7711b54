//! Error kinds reported by the container codec.

use vstd::prelude::*;

verus! {

/// Spec view of a codec error: the kind together with its message.
#[verifier::ext_equal]
pub enum FracFormatErrorView {
    InvalidData(Seq<char>),
    Io(Seq<char>),
    MissingField(Seq<char>),
    InvalidHeader(Seq<char>),
    UnsupportedFeature(Seq<char>),
}

/// One error from encoding or decoding a container.
#[derive(Debug, Clone, PartialEq)]
pub enum FracFormatError {
    /// Malformed content: checksum mismatch, bad UTF-8, unknown tag byte.
    InvalidData(String),
    /// A read or write ran past the available bytes.
    Io(String),
    /// Reserved for required-field validation.
    MissingField(String),
    /// Magic mismatch or unsupported format version.
    InvalidHeader(String),
    /// The format cannot represent the given element or field.
    UnsupportedFeature(String),
}

impl View for FracFormatError {
    type V = FracFormatErrorView;

    open spec fn view(&self) -> FracFormatErrorView {
        match self {
            FracFormatError::InvalidData(m) => FracFormatErrorView::InvalidData(m@),
            FracFormatError::Io(m) => FracFormatErrorView::Io(m@),
            FracFormatError::MissingField(m) => FracFormatErrorView::MissingField(m@),
            FracFormatError::InvalidHeader(m) => FracFormatErrorView::InvalidHeader(m@),
            FracFormatError::UnsupportedFeature(m) => FracFormatErrorView::UnsupportedFeature(m@),
        }
    }
}

impl FracFormatError {
    /// A human-readable description of the error, with a prefix naming its kind.
    pub fn message(&self) -> (r: String)
        ensures
            r@ == match self {
                FracFormatError::InvalidData(msg) => "Invalid data for format: "@ + msg@,
                FracFormatError::Io(msg) => "Serialization I/O error: "@ + msg@,
                FracFormatError::MissingField(field) => "Required field is missing: "@ + field@,
                FracFormatError::InvalidHeader(msg) => "Invalid Header: "@ + msg@,
                FracFormatError::UnsupportedFeature(msg) => "Unsupported feature: "@ + msg@,
            },
    {
        match self {
            FracFormatError::InvalidData(msg) => {
                let mut s = String::from_str("Invalid data for format: ");
                s.append(msg.as_str());
                s
            },
            FracFormatError::Io(msg) => {
                let mut s = String::from_str("Serialization I/O error: ");
                s.append(msg.as_str());
                s
            },
            FracFormatError::MissingField(field) => {
                let mut s = String::from_str("Required field is missing: ");
                s.append(field.as_str());
                s
            },
            FracFormatError::InvalidHeader(msg) => {
                let mut s = String::from_str("Invalid Header: ");
                s.append(msg.as_str());
                s
            },
            FracFormatError::UnsupportedFeature(msg) => {
                let mut s = String::from_str("Unsupported feature: ");
                s.append(msg.as_str());
                s
            },
        }
    }
}

} // verus!
