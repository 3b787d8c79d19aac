//! What an operation of the channel can fail with.

use vstd::prelude::*;

verus! {
/// Why a frame could not be read.
#[derive(Clone, Copy, Debug, PartialEq, Eq, Structural)]
pub enum DecodeError {
    /// The framing is truncated or otherwise invalid.
    MalformedMessage,
    /// The frame carries a signature that does not verify under the key of
    /// the sender it names.
    SignatureInvalid,
}

/// Why an operation of a party failed. No failure is fatal: the party's state
/// is as it was before the operation, and the caller decides what follows.
#[derive(Clone, Copy, Debug, PartialEq, Eq, Structural)]
pub enum Error {
    /// The transport could not publish or fetch.
    TransportError,
    /// A key is malformed or untrusted, or key material does not open.
    AuthenticationError,
    /// A signature does not verify under the key of the claimed sender.
    SignatureInvalid,
    /// A frame does not follow the framing, or a message breaks the rules
    /// that link it into the channel.
    MalformedMessage,
    /// A subscription or a keyload names an unknown or revoked identity.
    MembershipError,
    /// Two messages contend for one place in the graph.
    AmbiguousLink,
    /// No announcement is at the link, or the party has no channel yet.
    ChannelNotFound,
    /// What is at the link is no valid announcement.
    InvalidAnnouncement,
}

impl Error {
    /// The operation error that stands for a decoding error.
    pub open spec fn of_decode(error: DecodeError) -> Error {
        match error {
            DecodeError::MalformedMessage => Error::MalformedMessage,
            DecodeError::SignatureInvalid => Error::SignatureInvalid,
        }
    }

    /// The operation error that stands for a decoding error.
    pub fn from_decode(error: DecodeError) -> (mapped: Error)
        ensures
            mapped == Error::of_decode(error),
    {
        match error {
            DecodeError::MalformedMessage => Error::MalformedMessage,
            DecodeError::SignatureInvalid => Error::SignatureInvalid,
        }
    }

    /// The name of the error, for reports.
    pub fn name(&self) -> (name: &'static str)
        ensures
            name@ == Error::name_of(*self),
    {
        match self {
            Error::TransportError => "TransportError",
            Error::AuthenticationError => "AuthenticationError",
            Error::SignatureInvalid => "SignatureInvalid",
            Error::MalformedMessage => "MalformedMessage",
            Error::MembershipError => "MembershipError",
            Error::AmbiguousLink => "AmbiguousLink",
            Error::ChannelNotFound => "ChannelNotFound",
            Error::InvalidAnnouncement => "InvalidAnnouncement",
        }
    }

    /// The name of the error, for reports.
    pub open spec fn name_of(error: Error) -> Seq<char> {
        match error {
            Error::TransportError => "TransportError"@,
            Error::AuthenticationError => "AuthenticationError"@,
            Error::SignatureInvalid => "SignatureInvalid"@,
            Error::MalformedMessage => "MalformedMessage"@,
            Error::MembershipError => "MembershipError"@,
            Error::AmbiguousLink => "AmbiguousLink"@,
            Error::ChannelNotFound => "ChannelNotFound"@,
            Error::InvalidAnnouncement => "InvalidAnnouncement"@,
        }
    }
}
} // verus!
