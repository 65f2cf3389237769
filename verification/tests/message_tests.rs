use signal_session::ciphertext_message::CiphertextMessage;
use signal_session::curve::PublicKey;
use signal_session::error::SignalProtocolError;
use signal_session::message_type::{CiphertextMessageType, FfiCiphertextMessageType};
use signal_session::pre_key_message::PreKeySignalMessage;
use signal_session::sealed_sender::UnidentifiedSenderMessage;
use signal_session::sender_key::{
    sender_key_bytes_to_sign, SenderKeyDistributionMessage, SenderKeyMessage,
};
use signal_session::signal_message::SignalMessage;
use signal_session::wire::{read_u32, write_varint};

fn key(seed: u8) -> PublicKey {
    PublicKey::from_bytes([seed; 32])
}

fn sample(counter: u32, previous: u32, ciphertext: &[u8]) -> SignalMessage {
    SignalMessage::new(3, &[0x11; 32], key(1), counter, previous, ciphertext, &key(2), &key(3))
        .unwrap()
}

#[test]
fn varint_bytes() {
    let cases: [(u64, &[u8]); 6] = [
        (0, &[0]),
        (1, &[1]),
        (127, &[127]),
        (128, &[0x80, 1]),
        (300, &[0xac, 2]),
        (0xffff_ffff, &[0xff, 0xff, 0xff, 0xff, 0x0f]),
    ];
    for (value, bytes) in cases {
        let mut out = Vec::new();
        write_varint(&mut out, value);
        assert_eq!(out, bytes);
        assert_eq!(read_u32(bytes, 0), Some((value as u32, bytes.len())));
    }
    assert_eq!(read_u32(&[0x80], 0), None);
    assert_eq!(read_u32(&[], 0), None);
    assert_eq!(read_u32(&[0x80, 0], 0), None);
    assert_eq!(read_u32(&[0xff, 0xff, 0xff, 0xff, 0x1f], 0), None);
    assert_eq!(read_u32(&[0xff, 0xff, 0xff, 0xff, 0xff, 1], 0), None);
    assert_eq!(read_u32(&[9, 0x85, 3], 1), Some((389, 3)));
}

#[test]
fn signal_message_wire_bytes() {
    let m = sample(5, 300, b"abc");
    let wire = m.serialized().clone();
    let mut expected = vec![0x33, 10, 33, 5];
    expected.extend_from_slice(&[1u8; 32]);
    expected.extend_from_slice(&[16, 5, 24, 0xac, 2, 34, 3, b'a', b'b', b'c']);
    assert_eq!(&wire[..wire.len() - 8], &expected[..]);
    assert_eq!(wire.len(), expected.len() + 8);
    assert_eq!(m.message_version(), 3);
    assert_eq!(m.counter(), 5);
    assert_eq!(m.previous_counter(), 300);
    assert_eq!(m.body().as_slice(), b"abc");
    assert_eq!(m.sender_ratchet_key(), &key(1));
}

#[test]
fn signal_message_round_trip() {
    for (counter, previous, text) in
        [(0u32, 0u32, &b""[..]), (1, 2, &b"x"[..]), (u32::MAX, 16384, &[7u8; 200][..])]
    {
        let m = sample(counter, previous, text);
        let back = SignalMessage::deserialize(m.serialized()).unwrap();
        assert_eq!(back, m);
        assert_eq!(back.serialized(), m.serialized());
    }
}

#[test]
fn signal_message_mac() {
    let m = sample(1, 0, b"body");
    assert_eq!(m.verify_mac(&key(2), &key(3), &[0x11; 32]), Ok(true));
    assert_eq!(m.verify_mac(&key(3), &key(2), &[0x11; 32]), Ok(false));
    assert_eq!(m.verify_mac(&key(2), &key(3), &[0x12; 32]), Ok(false));
    assert_eq!(m.verify_mac(&key(2), &key(3), &[0x11; 31]), Err(SignalProtocolError::InvalidArgument));
    let other = sample(2, 0, b"body");
    assert_ne!(other.serialized(), m.serialized());
}

#[test]
fn signal_message_refusals() {
    assert_eq!(
        SignalMessage::new(16, &[0; 32], key(1), 0, 0, b"", &key(2), &key(3)).map(|_| ()),
        Err(SignalProtocolError::InvalidArgument)
    );
    assert_eq!(
        SignalMessage::new(3, &[0; 16], key(1), 0, 0, b"", &key(2), &key(3)).map(|_| ()),
        Err(SignalProtocolError::InvalidArgument)
    );
    let wire = sample(1, 2, b"abc").serialized().clone();
    assert!(SignalMessage::deserialize(&[]).is_err());
    assert!(SignalMessage::deserialize(&wire[..wire.len() - 1]).is_err());
    let mut longer = wire.clone();
    longer.push(0);
    assert!(SignalMessage::deserialize(&longer).is_err());
    let mut version = wire.clone();
    version[0] = 0x32;
    assert_eq!(
        SignalMessage::deserialize(&version).map(|_| ()),
        Err(SignalProtocolError::InvalidMessage)
    );
    let mut tag = wire.clone();
    tag[1] = 11;
    assert!(SignalMessage::deserialize(&tag).is_err());
    let mut key_type = wire;
    key_type[3] = 6;
    assert!(SignalMessage::deserialize(&key_type).is_err());
}

#[test]
fn pre_key_message_round_trip_with_and_without_pre_key() {
    for pre_key_id in [None, Some(0u32), Some(8), Some(u32::MAX)] {
        let m = PreKeySignalMessage::new(3, 1234, pre_key_id, 99, key(4), key(5), sample(1, 0, b"hi"))
            .unwrap();
        let back = PreKeySignalMessage::deserialize(m.serialized()).unwrap();
        assert_eq!(back, m);
        assert_eq!(back.pre_key_id(), pre_key_id);
        assert_eq!(back.registration_id(), 1234);
        assert_eq!(back.signed_pre_key_id(), 99);
        assert_eq!(back.base_key(), &key(4));
        assert_eq!(back.identity_key(), &key(5));
        assert_eq!(back.message(), &sample(1, 0, b"hi"));
        assert_eq!(back.message_version(), 3);
    }
    let with = PreKeySignalMessage::new(3, 1, Some(2), 3, key(4), key(5), sample(1, 0, b"hi")).unwrap();
    assert_eq!(&with.serialized()[..7], &[0x33, 40, 1, 8, 2, 48, 3]);
    let without = PreKeySignalMessage::new(3, 1, None, 3, key(4), key(5), sample(1, 0, b"hi")).unwrap();
    assert_eq!(&without.serialized()[..5], &[0x33, 40, 1, 48, 3]);
    assert!(PreKeySignalMessage::deserialize(&without.serialized()[..20]).is_err());
    assert_eq!(
        PreKeySignalMessage::new(16, 1, None, 3, key(4), key(5), sample(1, 0, b"hi")).map(|_| ()),
        Err(SignalProtocolError::InvalidArgument)
    );
}

#[test]
fn sender_key_message_round_trip() {
    let m = SenderKeyMessage::new(42, 7, b"group text", &[9u8; 64]).unwrap();
    let mut expected = vec![0x33, 8, 42, 16, 7, 26, 10];
    expected.extend_from_slice(b"group text");
    assert_eq!(m.signed_part(), expected);
    assert_eq!(sender_key_bytes_to_sign(42, 7, b"group text"), expected);
    expected.extend_from_slice(&[9u8; 64]);
    assert_eq!(m.serialized(), &expected);
    let back = SenderKeyMessage::deserialize(&expected).unwrap();
    assert_eq!(back, m);
    assert_eq!(back.key_id(), 42);
    assert_eq!(back.iteration(), 7);
    assert_eq!(back.ciphertext().as_slice(), b"group text");
    assert_eq!(back.signature().as_slice(), &[9u8; 64]);
    assert_eq!(
        SenderKeyMessage::new(42, 7, b"x", &[9u8; 63]).map(|_| ()),
        Err(SignalProtocolError::InvalidArgument)
    );
    assert_eq!(
        SenderKeyMessage::deserialize(&expected[..expected.len() - 1]).map(|_| ()),
        Err(SignalProtocolError::InvalidMessage)
    );
}

#[test]
fn distribution_message_round_trip() {
    let m = SenderKeyDistributionMessage::new(3, 1000, &[8u8; 32], key(6)).unwrap();
    let back = SenderKeyDistributionMessage::deserialize(m.serialized()).unwrap();
    assert_eq!(back, m);
    assert_eq!(back.id(), 3);
    assert_eq!(back.iteration(), 1000);
    assert_eq!(back.chain_key(), [8u8; 32]);
    assert_eq!(back.signing_key(), key(6));
    assert_eq!(&m.serialized()[..8], &[0x33, 8, 3, 16, 0xe8, 7, 26, 32]);
    assert_eq!(
        SenderKeyDistributionMessage::new(3, 1, &[8u8; 31], key(6)).map(|_| ()),
        Err(SignalProtocolError::InvalidArgument)
    );
    assert!(SenderKeyDistributionMessage::deserialize(&[0x33]).is_err());
}

#[test]
fn envelope_round_trip() {
    let m = UnidentifiedSenderMessage::new(key(7), b"static", b"message").unwrap();
    let back = UnidentifiedSenderMessage::deserialize(m.serialized()).unwrap();
    assert_eq!(back, m);
    assert_eq!(back.ephemeral_public(), key(7));
    assert_eq!(back.encrypted_static().as_slice(), b"static");
    assert_eq!(back.encrypted_message().as_slice(), b"message");
    assert_eq!(m.serialized()[0], 0x11);
    assert_eq!(
        UnidentifiedSenderMessage::deserialize(&[0x22]).map(|_| ()),
        Err(SignalProtocolError::InvalidMessage)
    );
}

#[test]
fn message_type_numbers() {
    assert_eq!(CiphertextMessageType::Whisper.to_u8(), 2);
    assert_eq!(CiphertextMessageType::PreKey.to_u8(), 3);
    assert_eq!(CiphertextMessageType::SenderKey.to_u8(), 4);
    assert_eq!(CiphertextMessageType::SenderKeyDistribution.to_u8(), 5);
    assert_eq!(FfiCiphertextMessageType::Whisper.to_u8(), 2);
    assert_eq!(FfiCiphertextMessageType::PreKey.to_u8(), 3);
    assert_eq!(FfiCiphertextMessageType::SenderKey.to_u8(), 4);
    assert_eq!(FfiCiphertextMessageType::SenderKeyDistribution.to_u8(), 5);
    for code in 0u8..=255 {
        match CiphertextMessageType::from_u8(code) {
            Some(t) => {
                assert_eq!(t.to_u8(), code);
                assert_eq!(FfiCiphertextMessageType::from_message_type(t).to_u8(), code);
            }
            None => assert!(!(2..=5).contains(&code)),
        }
    }
    assert_eq!(CiphertextMessageType::from_content_type(1), Ok(CiphertextMessageType::PreKey));
    assert_eq!(CiphertextMessageType::from_content_type(2), Ok(CiphertextMessageType::Whisper));
    assert_eq!(
        CiphertextMessageType::from_content_type(0),
        Err(SignalProtocolError::InvalidArgument)
    );
    assert_eq!(
        CiphertextMessageType::from_content_type(3),
        Err(SignalProtocolError::InvalidArgument)
    );
}

#[test]
fn any_message_reports_its_kind_and_bytes() {
    let whisper = CiphertextMessage::SignalMessage(sample(1, 0, b"x"));
    let pre_key = CiphertextMessage::PreKeySignalMessage(
        PreKeySignalMessage::new(3, 1, None, 2, key(4), key(5), sample(1, 0, b"x")).unwrap(),
    );
    let group =
        CiphertextMessage::SenderKeyMessage(SenderKeyMessage::new(1, 2, b"c", &[0u8; 64]).unwrap());
    let distribution = CiphertextMessage::SenderKeyDistributionMessage(
        SenderKeyDistributionMessage::new(1, 2, &[3u8; 32], key(6)).unwrap(),
    );
    assert_eq!(whisper.type_number(), 2);
    assert_eq!(pre_key.type_number(), 3);
    assert_eq!(group.type_number(), 4);
    assert_eq!(distribution.type_number(), 5);
    assert_eq!(whisper.message_type(), CiphertextMessageType::Whisper);
    assert_eq!(distribution.message_type(), CiphertextMessageType::SenderKeyDistribution);
    assert_eq!(whisper.serialize(), sample(1, 0, b"x").serialized());
    assert_eq!(
        SenderKeyMessage::deserialize(group.serialize()).unwrap(),
        SenderKeyMessage::new(1, 2, b"c", &[0u8; 64]).unwrap()
    );
    assert_eq!(pre_key.serialize()[0], 0x33);
    assert_eq!(distribution.serialize()[0], 0x33);
}
