//! The error taxonomy of the protocol layer.
//!
//! Decode and shape errors are local to the one message being processed;
//! transport failures are represented by the adapters in `app` code and are
//! not part of the verified decoding model.

use vstd::prelude::*;
use vstd::string::StringExecFns;

verus! {

/// Specification-level view of [`DecodeError`].
#[verifier::ext_equal]
pub enum DecodeErrorV {
    Json,
    UnknownCommand(Seq<char>),
    WrongCommand(Seq<char>),
}

/// Why a wire message failed to decode.
#[derive(Debug, Clone, PartialEq)]
pub enum DecodeError {
    /// Malformed JSON, or a schema violation such as a missing required
    /// field or a value of the wrong type.
    Json,
    /// The envelope tag of a client command is none of the expected values;
    /// carries the unrecognized tag.
    UnknownCommand(String),
    /// The envelope tag of a middleware command names a known command other
    /// than the settings notification; carries the unexpected tag.
    WrongCommand(String),
}

impl View for DecodeError {
    type V = DecodeErrorV;

    open spec fn view(&self) -> DecodeErrorV {
        match self {
            DecodeError::Json => DecodeErrorV::Json,
            DecodeError::UnknownCommand(s) => DecodeErrorV::UnknownCommand(s@),
            DecodeError::WrongCommand(s) => DecodeErrorV::WrongCommand(s@),
        }
    }
}

impl DecodeError {
    /// A short human-readable description.
    pub fn describe(&self) -> (r: String)
        ensures
            r@ == (match self {
                DecodeError::Json => "malformed JSON or schema mismatch"@,
                DecodeError::UnknownCommand(_) => "unknown command tag"@,
                DecodeError::WrongCommand(_) => "ON_SETTINGS_DID_CHANGE command expected"@,
            }),
    {
        match self {
            DecodeError::Json => String::from_str("malformed JSON or schema mismatch"),
            DecodeError::UnknownCommand(_) => String::from_str("unknown command tag"),
            DecodeError::WrongCommand(_) => String::from_str(
                "ON_SETTINGS_DID_CHANGE command expected",
            ),
        }
    }
}

/// An error yielded for one inbound frame; the sequence of frames goes on
/// after such an item.
#[derive(Debug, Clone, PartialEq)]
pub enum InboundError {
    /// The frame was not a text frame.
    NonTextMessage,
    /// The frame's text failed to decode.
    Decode(DecodeError),
}

impl View for InboundError {
    type V = InboundErrorV;

    open spec fn view(&self) -> InboundErrorV {
        match self {
            InboundError::NonTextMessage => InboundErrorV::NonTextMessage,
            InboundError::Decode(e) => InboundErrorV::Decode(e@),
        }
    }
}

/// Specification-level view of [`InboundError`].
#[verifier::ext_equal]
pub enum InboundErrorV {
    NonTextMessage,
    Decode(DecodeErrorV),
}

} // verus!
