use vstd::prelude::*;
use crate::error::SignalProtocolError;

verus! {

/// The kinds of message that travel between sessions.
#[derive(Clone, Copy, Debug, PartialEq, Eq, Structural)]
pub enum CiphertextMessageType {
    Whisper,
    PreKey,
    SenderKey,
    SenderKeyDistribution,
}

/// The kinds of message as hosts of other languages number them.
#[derive(Clone, Copy, Debug, PartialEq, Eq, Structural)]
pub enum FfiCiphertextMessageType {
    Whisper,
    PreKey,
    SenderKey,
    SenderKeyDistribution,
}

/// The number that stands for a kind of message.
pub open spec fn type_code(t: CiphertextMessageType) -> u8 {
    match t {
        CiphertextMessageType::Whisper => 2,
        CiphertextMessageType::PreKey => 3,
        CiphertextMessageType::SenderKey => 4,
        CiphertextMessageType::SenderKeyDistribution => 5,
    }
}

/// The number that a host sees for a kind of message.
pub open spec fn ffi_type_code(t: FfiCiphertextMessageType) -> u8 {
    match t {
        FfiCiphertextMessageType::Whisper => 2,
        FfiCiphertextMessageType::PreKey => 3,
        FfiCiphertextMessageType::SenderKey => 4,
        FfiCiphertextMessageType::SenderKeyDistribution => 5,
    }
}

/// The host's kind for a kind of message.
pub open spec fn ffi_type_of(t: CiphertextMessageType) -> FfiCiphertextMessageType {
    match t {
        CiphertextMessageType::Whisper => FfiCiphertextMessageType::Whisper,
        CiphertextMessageType::PreKey => FfiCiphertextMessageType::PreKey,
        CiphertextMessageType::SenderKey => FfiCiphertextMessageType::SenderKey,
        CiphertextMessageType::SenderKeyDistribution => FfiCiphertextMessageType::SenderKeyDistribution,
    }
}

/// The kind that a sealed-sender content names with `msg_type`: 1 for the
/// first message of a session, 2 for a message of an open session.
pub open spec fn content_type_of(msg_type: u32) -> Option<CiphertextMessageType> {
    if msg_type == 1 {
        Some(CiphertextMessageType::PreKey)
    } else if msg_type == 2 {
        Some(CiphertextMessageType::Whisper)
    } else {
        None
    }
}

/// A host sees each kind under the number that the protocol gives it, and
/// no two kinds share a number.
pub proof fn lemma_type_codes_agree(t: CiphertextMessageType, u: CiphertextMessageType)
    ensures
        ffi_type_code(ffi_type_of(t)) == type_code(t),
        type_code(t) == type_code(u) ==> t == u,
{
}

impl CiphertextMessageType {
    /// The number of this kind.
    pub fn to_u8(self) -> (out: u8)
        ensures
            out == type_code(self),
    {
        match self {
            CiphertextMessageType::Whisper => 2,
            CiphertextMessageType::PreKey => 3,
            CiphertextMessageType::SenderKey => 4,
            CiphertextMessageType::SenderKeyDistribution => 5,
        }
    }

    /// The kind with this number, if there is one.
    pub fn from_u8(code: u8) -> (out: Option<CiphertextMessageType>)
        ensures
            match out {
                Some(t) => type_code(t) == code,
                None => forall|t: CiphertextMessageType| type_code(t) != code,
            },
    {
        if code == 2 {
            Some(CiphertextMessageType::Whisper)
        } else if code == 3 {
            Some(CiphertextMessageType::PreKey)
        } else if code == 4 {
            Some(CiphertextMessageType::SenderKey)
        } else if code == 5 {
            Some(CiphertextMessageType::SenderKeyDistribution)
        } else {
            None
        }
    }

    /// The kind that a sealed-sender content names with `msg_type`;
    /// `InvalidArgument` for any number but 1 and 2.
    pub fn from_content_type(msg_type: u32) -> (out: Result<
        CiphertextMessageType,
        SignalProtocolError,
    >)
        ensures
            match out {
                Ok(t) => content_type_of(msg_type) == Some(t),
                Err(e) => content_type_of(msg_type) is None && e
                    == SignalProtocolError::InvalidArgument,
            },
    {
        if msg_type == 1 {
            Ok(CiphertextMessageType::PreKey)
        } else if msg_type == 2 {
            Ok(CiphertextMessageType::Whisper)
        } else {
            Err(SignalProtocolError::InvalidArgument)
        }
    }
}

impl FfiCiphertextMessageType {
    /// The number that a host sees for this kind.
    pub fn to_u8(self) -> (out: u8)
        ensures
            out == ffi_type_code(self),
    {
        match self {
            FfiCiphertextMessageType::Whisper => 2,
            FfiCiphertextMessageType::PreKey => 3,
            FfiCiphertextMessageType::SenderKey => 4,
            FfiCiphertextMessageType::SenderKeyDistribution => 5,
        }
    }

    /// The host's kind for a kind of message.
    pub fn from_message_type(t: CiphertextMessageType) -> (out: FfiCiphertextMessageType)
        ensures
            out == ffi_type_of(t),
            ffi_type_code(out) == type_code(t),
    {
        match t {
            CiphertextMessageType::Whisper => FfiCiphertextMessageType::Whisper,
            CiphertextMessageType::PreKey => FfiCiphertextMessageType::PreKey,
            CiphertextMessageType::SenderKey => FfiCiphertextMessageType::SenderKey,
            CiphertextMessageType::SenderKeyDistribution => FfiCiphertextMessageType::SenderKeyDistribution,
        }
    }
}

} // verus!
