//! Session layer of an end-to-end encrypted messaging protocol: key
//! primitives, key derivation, ratchet chains, session records, message
//! framing, certificates and safety numbers, with machine-checked contracts.

pub mod address;
pub mod aead;
pub mod bundle;
pub mod bytes;
pub mod certificate;
pub mod ciphertext_message;
pub mod curve;
pub mod error;
pub mod fingerprint;
pub mod hash;
pub mod identity;
pub mod kdf;
pub mod message_type;
pub mod pre_key_message;
pub mod ratchet;
pub mod sealed_sender;
pub mod sender_key;
pub mod session;
pub mod session_cipher;
pub mod session_store;
pub mod signal_message;
pub mod signature;
pub mod wire;
