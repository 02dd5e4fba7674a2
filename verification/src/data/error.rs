//! Errors of the binary record codec.

use vstd::prelude::*;

verus! {

/// Why decoding a response buffer failed.
#[derive(Clone, Debug, PartialEq)]
pub enum DecodeError {
    /// No layout is known for the TR code.
    UnknownLayout(String),
    /// A received block name is not in the layout.
    UnknownBlock(String),
    /// The buffer's length does not fit the layout.
    MismatchDataLength,
    /// An array block's five-byte count prefix is not a decimal number.
    InvalidArrayLength,
    /// A field holds bytes that are not valid in the legacy encoding.
    MalformedString,
}

/// Mathematical image of a [`DecodeError`].
pub ghost enum DecodeErrorV {
    UnknownLayout(Seq<char>),
    UnknownBlock(Seq<char>),
    MismatchDataLength,
    InvalidArrayLength,
    MalformedString,
}

impl View for DecodeError {
    type V = DecodeErrorV;

    open spec fn view(&self) -> DecodeErrorV {
        match self {
            DecodeError::UnknownLayout(s) => DecodeErrorV::UnknownLayout(s@),
            DecodeError::UnknownBlock(s) => DecodeErrorV::UnknownBlock(s@),
            DecodeError::MismatchDataLength => DecodeErrorV::MismatchDataLength,
            DecodeError::InvalidArrayLength => DecodeErrorV::InvalidArrayLength,
            DecodeError::MalformedString => DecodeErrorV::MalformedString,
        }
    }
}

/// Why encoding a request failed.
#[derive(Clone, Debug, PartialEq)]
pub enum EncodeError {
    /// The data's TR code is not the layout's.
    MismatchLayout,
    /// A declared block is missing from the data.
    MissingBlock { block: String },
    /// A single block was given where an array was declared, or the
    /// other way round.
    MismatchBlockType { block: String },
    /// An array block holds more records than the five-digit count can
    /// say.
    ExceedArrayLength { block: String },
    /// A declared field is missing from a record, under both of its
    /// names.
    MissingField { block: String, field: String },
    /// A field's encoded value is longer than the field's width.
    ExceedFieldLength { block: String, field: String },
}

/// Mathematical image of an [`EncodeError`].
pub ghost enum EncodeErrorV {
    MismatchLayout,
    MissingBlock { block: Seq<char> },
    MismatchBlockType { block: Seq<char> },
    ExceedArrayLength { block: Seq<char> },
    MissingField { block: Seq<char>, field: Seq<char> },
    ExceedFieldLength { block: Seq<char>, field: Seq<char> },
}

impl View for EncodeError {
    type V = EncodeErrorV;

    open spec fn view(&self) -> EncodeErrorV {
        match self {
            EncodeError::MismatchLayout => EncodeErrorV::MismatchLayout,
            EncodeError::MissingBlock { block } => EncodeErrorV::MissingBlock { block: block@ },
            EncodeError::MismatchBlockType { block } => EncodeErrorV::MismatchBlockType {
                block: block@,
            },
            EncodeError::ExceedArrayLength { block } => EncodeErrorV::ExceedArrayLength {
                block: block@,
            },
            EncodeError::MissingField { block, field } => EncodeErrorV::MissingField {
                block: block@,
                field: field@,
            },
            EncodeError::ExceedFieldLength { block, field } => EncodeErrorV::ExceedFieldLength {
                block: block@,
                field: field@,
            },
        }
    }
}

} // verus!
