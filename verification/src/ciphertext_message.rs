use vstd::prelude::*;
use crate::message_type::{type_code, CiphertextMessageType};
use crate::pre_key_message::{pre_key_wire, PreKeySignalMessage};
use crate::sender_key::{
    distribution_wire, sender_key_wire, SenderKeyDistributionMessage, SenderKeyMessage,
};
use crate::signal_message::{signal_wire, SignalMessage};

verus! {

/// A message of any of the kinds that travel between sessions.
#[derive(Debug, PartialEq, Eq)]
pub enum CiphertextMessage {
    SignalMessage(SignalMessage),
    PreKeySignalMessage(PreKeySignalMessage),
    SenderKeyMessage(SenderKeyMessage),
    SenderKeyDistributionMessage(SenderKeyDistributionMessage),
}

/// The kind of a message.
pub open spec fn kind_of(message: CiphertextMessage) -> CiphertextMessageType {
    match message {
        CiphertextMessage::SignalMessage(_) => CiphertextMessageType::Whisper,
        CiphertextMessage::PreKeySignalMessage(_) => CiphertextMessageType::PreKey,
        CiphertextMessage::SenderKeyMessage(_) => CiphertextMessageType::SenderKey,
        CiphertextMessage::SenderKeyDistributionMessage(_) => CiphertextMessageType::SenderKeyDistribution,
    }
}

/// The bytes of a message on the wire.
pub open spec fn wire_of(message: CiphertextMessage) -> Seq<u8> {
    match message {
        CiphertextMessage::SignalMessage(m) => signal_wire(m@),
        CiphertextMessage::PreKeySignalMessage(m) => pre_key_wire(m@),
        CiphertextMessage::SenderKeyMessage(m) => sender_key_wire(m@),
        CiphertextMessage::SenderKeyDistributionMessage(m) => distribution_wire(m@),
    }
}

impl CiphertextMessage {
    /// The kind of the message.
    pub fn message_type(&self) -> (out: CiphertextMessageType)
        ensures
            out == kind_of(*self),
    {
        match self {
            CiphertextMessage::SignalMessage(_) => CiphertextMessageType::Whisper,
            CiphertextMessage::PreKeySignalMessage(_) => CiphertextMessageType::PreKey,
            CiphertextMessage::SenderKeyMessage(_) => CiphertextMessageType::SenderKey,
            CiphertextMessage::SenderKeyDistributionMessage(_) => CiphertextMessageType::SenderKeyDistribution,
        }
    }

    /// The number of the kind of the message: 2 for a message of an open
    /// session, 3 for the first message of a session, 4 for a group
    /// message, 5 for a distribution message.
    pub fn type_number(&self) -> (out: u8)
        ensures
            out == type_code(kind_of(*self)),
    {
        self.message_type().to_u8()
    }

    /// The bytes of the message on the wire.
    pub fn serialize(&self) -> (out: &Vec<u8>)
        ensures
            out@ == wire_of(*self),
    {
        match self {
            CiphertextMessage::SignalMessage(m) => m.serialized(),
            CiphertextMessage::PreKeySignalMessage(m) => m.serialized(),
            CiphertextMessage::SenderKeyMessage(m) => m.serialized(),
            CiphertextMessage::SenderKeyDistributionMessage(m) => m.serialized(),
        }
    }
}

} // verus!
