use signal_session::certificate::{SenderCertificate, ServerCertificate};
use signal_session::curve::{KeyPair, PrivateKey};
use signal_session::error::SignalProtocolError;
use signal_session::sealed_sender::UnidentifiedSenderMessageContent;
use signal_session::wire::{read_fixed64_field, write_fixed64_field};

fn pair(seed: u8) -> KeyPair {
    KeyPair::from_private(PrivateKey::from_bytes([seed; 32]))
}

fn chain(e164: Option<&[u8]>, expiration: u64) -> SenderCertificate {
    let server = ServerCertificate::sign(3, pair(2).public_key, &pair(1).private_key).unwrap();
    SenderCertificate::sign(
        b"9d0652a3-dcc3-4d11-975f-74d61598733f",
        e164,
        pair(4).public_key,
        42,
        expiration,
        server,
        &pair(2).private_key,
    )
    .unwrap()
}

#[test]
fn fixed64_bytes() {
    for value in [0u64, 1, 255, 256, 0x0102030405060708, u64::MAX] {
        let mut out = vec![0xee];
        write_fixed64_field(&mut out, 25, value);
        assert_eq!(out.len(), 10);
        assert_eq!(out[1], 25);
        assert_eq!(&out[2..], &value.to_le_bytes());
        assert_eq!(read_fixed64_field(&out, 1, 25), Some((value, 10)));
        assert_eq!(read_fixed64_field(&out, 1, 24), None);
        assert_eq!(read_fixed64_field(&out[..9], 1, 25), None);
    }
}

#[test]
fn server_certificate_round_trip() {
    let server = ServerCertificate::sign(3, pair(2).public_key, &pair(1).private_key).unwrap();
    let wire = server.serialized().clone();
    let back = ServerCertificate::deserialize(&wire).unwrap();
    assert_eq!(back, server);
    assert_eq!(back.serialized(), &wire);
    assert!(back.validate(&pair(1).public_key));
    assert_eq!(back.key_id(), 3);
    assert_eq!(back.public_key(), pair(2).public_key);
    assert_eq!(
        ServerCertificate::deserialize(&wire[..wire.len() - 1]).map(|_| ()),
        Err(SignalProtocolError::InvalidMessage)
    );
    let mut longer = wire.clone();
    longer.push(0);
    assert!(ServerCertificate::deserialize(&longer).is_err());
    assert!(ServerCertificate::deserialize(&[]).is_err());
}

#[test]
fn sender_certificate_round_trip() {
    for e164 in [None, Some(&b"+14152222222"[..])] {
        for expiration in [0u64, 1605722925, u64::MAX] {
            let certificate = chain(e164, expiration);
            let wire = certificate.serialized().clone();
            let back = SenderCertificate::deserialize(&wire).unwrap();
            assert_eq!(back, certificate);
            assert_eq!(back.serialized(), &wire);
            assert_eq!(back.expiration(), expiration);
            assert_eq!(back.sender_e164(), &e164.map(|n| n.to_vec()));
            assert_eq!(back.sender_device_id(), 42);
            assert_eq!(back.key(), pair(4).public_key);
            assert_eq!(back.sender_uuid().as_slice(), b"9d0652a3-dcc3-4d11-975f-74d61598733f");
            if expiration > 0 {
                assert_eq!(back.validate(&pair(1).public_key, expiration - 1), Ok(()));
            }
            assert_eq!(
                back.validate(&pair(1).public_key, expiration),
                Err(SignalProtocolError::SignatureVerificationFailed)
            );
        }
    }
    let wire = chain(None, 9).serialized().clone();
    assert_eq!(
        SenderCertificate::deserialize(&wire[1..]).map(|_| ()),
        Err(SignalProtocolError::InvalidMessage)
    );
}

#[test]
fn tampered_certificate_bytes_do_not_validate() {
    let certificate = chain(Some(b"+14152222222"), 1000);
    let wire = certificate.serialized().clone();
    let mut refused = 0;
    let mut invalid = 0;
    for i in 0..wire.len() {
        let mut bad = wire.clone();
        bad[i] ^= 1;
        match SenderCertificate::deserialize(&bad) {
            Ok(changed) => {
                assert_ne!(changed, certificate);
                assert_eq!(
                    changed.validate(&pair(1).public_key, 999),
                    Err(SignalProtocolError::SignatureVerificationFailed)
                );
                invalid += 1;
            }
            Err(e) => {
                assert_eq!(e, SignalProtocolError::InvalidMessage);
                refused += 1;
            }
        }
    }
    assert!(invalid > 128);
    assert_eq!(invalid + refused, wire.len());
}

#[test]
fn sealed_sender_content_round_trip() {
    for kind in [1u32, 2] {
        let content = UnidentifiedSenderMessageContent::new(kind, chain(None, 77), b"inner message").unwrap();
        let wire = content.serialized().clone();
        let back = UnidentifiedSenderMessageContent::deserialize(&wire).unwrap();
        assert_eq!(back, content);
        assert_eq!(back.msg_type(), if kind == 1 { 3 } else { 2 });
        assert_eq!(back.contents().as_slice(), b"inner message");
        assert_eq!(back.sender().validate(&pair(1).public_key, 76), Ok(()));
        let mut other = wire.clone();
        other[1] = 3;
        assert_eq!(
            UnidentifiedSenderMessageContent::deserialize(&other).map(|_| ()),
            Err(SignalProtocolError::InvalidMessage)
        );
    }
}
