use fero::encoder::{ecdsa_to_der, encode, parse_ecdsa_der, EncodeError};
use fero::types::ArtifactFormat;

#[test]
fn der_of_small_values() {
    // r = 1, s = 0x80 with leading zeros in 4-byte halves.
    let raw = vec![0, 0, 0, 1, 0, 0, 0, 0x80];
    let der = ecdsa_to_der(&raw);
    assert_eq!(der, vec![0x30, 0x07, 0x02, 0x01, 0x01, 0x02, 0x02, 0x00, 0x80]);
}

#[test]
fn der_keeps_one_zero_byte() {
    let raw = vec![0, 0, 0, 0];
    assert_eq!(ecdsa_to_der(&raw), vec![0x30, 0x06, 0x02, 0x01, 0x00, 0x02, 0x01, 0x00]);
}

#[test]
fn der_of_full_width_halves() {
    let mut raw = vec![0x7f; 32];
    raw.extend(vec![0xff; 32]);
    let der = encode(ArtifactFormat::EcdsaDer, &raw).unwrap();
    assert_eq!(der.len(), 2 + 2 + 32 + 2 + 33);
    assert_eq!(&der[0..4], &[0x30, 0x45, 0x02, 0x20]);
    assert_eq!(&der[4..36], &[0x7f; 32][..]);
    assert_eq!(&der[36..39], &[0x02, 0x21, 0x00]);
    assert_eq!(&der[39..], &[0xff; 32][..]);
}

#[test]
fn ecdsa_rejects_malformed_raw() {
    assert_eq!(encode(ArtifactFormat::EcdsaDer, &vec![]), Err(EncodeError::MalformedRawSignature));
    assert_eq!(encode(ArtifactFormat::EcdsaDer, &vec![1, 2, 3]), Err(EncodeError::MalformedRawSignature));
    assert_eq!(encode(ArtifactFormat::EcdsaDer, &vec![1; 122]), Err(EncodeError::MalformedRawSignature));
    assert!(encode(ArtifactFormat::EcdsaDer, &vec![1; 120]).is_ok());
}

#[test]
fn rsa_signature_is_published_as_is() {
    let raw = vec![9, 8, 7, 6];
    assert_eq!(encode(ArtifactFormat::RsaPkcs1, &raw), Ok(raw.clone()));
    assert_eq!(encode(ArtifactFormat::RsaPkcs1, &vec![]), Err(EncodeError::MalformedRawSignature));
    assert_eq!(encode(ArtifactFormat::RawKey, &raw), Ok(raw.clone()));
    assert_eq!(encode(ArtifactFormat::RawKey, &vec![]), Err(EncodeError::MalformedRawSignature));
}

#[test]
fn undeclared_format_is_unsupported() {
    assert_eq!(encode(ArtifactFormat::Undeclared, &vec![1, 2]), Err(EncodeError::UnsupportedActionType));
}

#[test]
fn der_artifact_reads_back() {
    let mut raw = vec![0u8, 0x12];
    raw.extend(vec![0xc0, 0x01]);
    let der = ecdsa_to_der(&raw);
    assert_eq!(parse_ecdsa_der(&der), Some((vec![0x12], vec![0x00, 0xc0, 0x01])));
}

#[test]
fn der_reader_refuses_malformed_input() {
    assert_eq!(parse_ecdsa_der(&vec![]), None);
    assert_eq!(parse_ecdsa_der(&vec![0x31, 0x03, 0x02, 0x01, 0x01]), None);
    // One INTEGER only.
    assert_eq!(parse_ecdsa_der(&vec![0x30, 0x03, 0x02, 0x01, 0x01]), None);
    // Trailing byte after the sequence.
    assert_eq!(parse_ecdsa_der(&vec![0x30, 0x06, 0x02, 0x01, 0x01, 0x02, 0x01, 0x02, 0x00]), None);
    assert_eq!(
        parse_ecdsa_der(&vec![0x30, 0x06, 0x02, 0x01, 0x01, 0x02, 0x01, 0x02]),
        Some((vec![0x01], vec![0x02]))
    );
}
