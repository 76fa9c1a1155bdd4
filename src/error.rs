//! Error types of the library's operations.
use vstd::prelude::*;

verus! {

/// An error that happened while decoding a value from bytes.
#[derive(Debug, Clone, PartialEq, Eq, Structural)]
pub enum DecodeError {
    /// A length prefix or an array size was invalid.
    InvalidSize(i64),
    /// The hash in front of a message is not the one of the expected type.
    HashMismatch { expected: u64, found: u64 },
    /// A boolean was encoded as neither `0` nor `1`.
    InvalidBoolean(i8),
    /// The bytes of a string were not valid UTF-8.
    Utf8Error,
    /// A string was not followed by its `0x00` terminator.
    MissingNullTerminator,
    /// The buffer ended before the value did.
    IoError,
}

/// An error that happened while encoding a value into bytes.
#[derive(Debug, Clone, PartialEq, Eq)]
pub enum EncodeError {
    /// The length of an array disagrees with the field that holds its size.
    SizeMismatch { size_var: String, expected: i64, found: usize },
}

/// The instance could not be created.
#[derive(Debug, Clone, PartialEq, Eq)]
pub enum InitError {
    /// The transport could not be set up.
    IoError,
    /// The URL names a provider that is not known.
    UnknownProvider(String),
    /// The URL could not be parsed.
    InvalidLcmUrl,
    /// The `ttl` option is not an unsigned 32-bit integer.
    InvalidTtl,
}

/// The attempt to subscribe to a channel failed.
#[derive(Debug, Clone, PartialEq, Eq)]
pub enum SubscribeError {
    /// The channel expression is not a valid regular expression.
    InvalidRegex(String),
    /// The provider could not take the subscription.
    ProviderIssue,
}

/// Publishing a message failed.
#[derive(Debug, Clone, PartialEq, Eq)]
pub enum PublishError {
    /// The message could not be encoded.
    MessageEncoding(EncodeError),
    /// The transport failed to send.
    IoError,
    /// The provider refused the message (channel or payload too long).
    ProviderIssue,
}

/// Handling incoming messages failed.
#[derive(Debug, Clone, Copy, PartialEq, Eq, Structural)]
pub enum HandleError {
    /// The transport failed.
    IoError,
    /// The receive side has stopped; the instance should be discarded.
    ProviderIssue,
}

/// The outcome of handing a payload to a subscription.
#[derive(Debug, Clone, PartialEq, Eq, Structural)]
pub enum TrampolineError {
    /// The subscriber has gone away.
    MessageChannelClosed,
    /// The payload could not be decoded.
    Decode(DecodeError),
}

impl From<EncodeError> for PublishError {
    fn from(err: EncodeError) -> (r: PublishError)
        ensures
            r == PublishError::MessageEncoding(err),
    {
        PublishError::MessageEncoding(err)
    }
}

impl vstd::std_specs::convert::FromSpecImpl<EncodeError> for PublishError {
    open spec fn obeys_from_spec() -> bool {
        true
    }

    open spec fn from_spec(err: EncodeError) -> PublishError {
        PublishError::MessageEncoding(err)
    }
}

impl From<DecodeError> for TrampolineError {
    fn from(err: DecodeError) -> (r: TrampolineError)
        ensures
            r == TrampolineError::Decode(err),
    {
        TrampolineError::Decode(err)
    }
}

impl vstd::std_specs::convert::FromSpecImpl<DecodeError> for TrampolineError {
    open spec fn obeys_from_spec() -> bool {
        true
    }

    open spec fn from_spec(err: DecodeError) -> TrampolineError {
        TrampolineError::Decode(err)
    }
}

} // verus!
