use signal_session::error::SignalProtocolError;
use signal_session::kdf::{derive_into, derive_secrets, Hkdf};

fn unhex(s: &str) -> Vec<u8> {
    let digits: Vec<u8> = s.bytes().map(|c| (c as char).to_digit(16).unwrap() as u8).collect();
    digits.chunks(2).map(|p| p[0] * 16 + p[1]).collect()
}

#[test]
fn version3_matches_the_standard_test_vector() {
    let ikm = unhex("0b0b0b0b0b0b0b0b0b0b0b0b0b0b0b0b0b0b0b0b0b0b");
    let salt = unhex("000102030405060708090a0b0c");
    let info = unhex("f0f1f2f3f4f5f6f7f8f9");
    let okm = unhex(
        "3cb25f25faacd57a90434f64d0362f2a2d2d0a90cf1a5a4c5db02d56ecc4c5bf34007208d5b887185865",
    );
    let out = derive_secrets(42, 3, &ikm, &info, Some(&salt)).unwrap();
    assert_eq!(out, okm);
    let kdf = Hkdf::new(3).unwrap();
    assert_eq!(kdf.derive_salted_secrets(&ikm, &salt, &info, 42).unwrap(), okm);
}

#[test]
fn version2_counts_blocks_from_zero() {
    let ikm = unhex("0b0b0b0b0b0b0b0b0b0b0b0b0b0b0b0b0b0b0b0b0b0b");
    let salt = unhex("000102030405060708090a0b0c");
    let info = unhex("f0f1f2f3f4f5f6f7f8f9");
    let v2 = derive_secrets(64, 2, &ikm, &info, Some(&salt)).unwrap();
    let v3 = derive_secrets(64, 3, &ikm, &info, Some(&salt)).unwrap();
    assert_eq!(v2.len(), 64);
    assert_ne!(v2, v3);
    assert_ne!(v2[..32], v3[..32]);
}

#[test]
fn no_salt_is_a_block_of_zeros() {
    let ikm = [7u8; 32];
    let with_default = derive_secrets(64, 3, &ikm, b"WhisperText", None).unwrap();
    let with_zeros = derive_secrets(64, 3, &ikm, b"WhisperText", Some(&[0u8; 32])).unwrap();
    assert_eq!(with_default, with_zeros);
    let other = derive_secrets(64, 3, &ikm, b"WhisperText", Some(&[1u8; 32])).unwrap();
    assert_ne!(with_default, other);
}

#[test]
fn shorter_output_is_a_prefix_of_longer() {
    let long = derive_secrets(80, 3, b"secret", b"label", None).unwrap();
    let short = derive_secrets(33, 3, b"secret", b"label", None).unwrap();
    assert_eq!(short.len(), 33);
    assert_eq!(&long[..33], &short[..]);
}

#[test]
fn refused_versions_and_lengths() {
    assert_eq!(derive_secrets(32, 1, b"k", b"l", None), Err(SignalProtocolError::InvalidArgument));
    assert_eq!(derive_secrets(32, 4, b"k", b"l", None), Err(SignalProtocolError::InvalidArgument));
    assert_eq!(derive_secrets(0, 3, b"k", b"l", None), Err(SignalProtocolError::InvalidArgument));
    assert_eq!(derive_secrets(8161, 3, b"k", b"l", None), Err(SignalProtocolError::InvalidArgument));
    assert_eq!(derive_secrets(8160, 3, b"k", b"l", None).unwrap().len(), 8160);
    assert!(Hkdf::new(0).is_err());
}

#[test]
fn derive_into_fills_the_buffer() {
    let mut buffer = vec![0u8; 48];
    derive_into(&mut buffer, 3, b"secret", b"label", b"salt").unwrap();
    assert_eq!(buffer, derive_secrets(48, 3, b"secret", b"label", Some(b"salt")).unwrap());
    let mut empty: Vec<u8> = Vec::new();
    assert_eq!(
        derive_into(&mut empty, 3, b"secret", b"label", b"salt"),
        Err(SignalProtocolError::InvalidArgument)
    );
    let mut kept = vec![9u8; 4];
    assert!(derive_into(&mut kept, 9, b"secret", b"label", b"salt").is_err());
    assert_eq!(kept, vec![9u8; 4]);
}

#[test]
fn every_shorter_output_is_a_prefix() {
    let long = derive_secrets(100, 2, b"ikm", b"info", Some(b"salt")).unwrap();
    for n in 1..=100u32 {
        let short = derive_secrets(n, 2, b"ikm", b"info", Some(b"salt")).unwrap();
        assert_eq!(short.len(), n as usize);
        assert_eq!(&long[..n as usize], &short[..]);
    }
}
