use beet_esp::tls::cert_verify_message_bytes;
use beet_esp::tls::PinnedVerifier;
use beet_esp::tls::TlsError;
use beet_esp::tls::ECDSA_SECP256R1_SHA256;
use p256::ecdsa::signature::Signer;
use p256::ecdsa::Signature;
use p256::ecdsa::SigningKey;

const CERT: &[u8] = b"pinned certificate bytes";

fn key() -> SigningKey {
    SigningKey::from_slice(&[7u8; 32]).unwrap()
}

fn pubkey() -> Vec<u8> {
    key().verifying_key().to_encoded_point(false).as_bytes().to_vec()
}

fn sign(hash: &[u8]) -> Vec<u8> {
    let message = cert_verify_message_bytes(hash);
    let sig: Signature = key().sign(&message);
    sig.to_der().as_bytes().to_vec()
}

fn pinned() -> PinnedVerifier {
    PinnedVerifier::new(CERT.to_vec(), pubkey())
}

#[test]
fn message_layout() {
    let m = cert_verify_message_bytes(&[9, 9]);
    assert_eq!(m.len(), 64 + 33 + 1 + 2);
    assert!(m[..64].iter().all(|b| *b == 0x20));
    assert_eq!(&m[64..97], b"TLS 1.3, server CertificateVerify");
    assert_eq!(m[97], 0);
    assert_eq!(&m[98..], &[9, 9]);
}

#[test]
fn pinned_cert_and_valid_signature_are_trusted() {
    let hash = [3u8; 32];
    let mut v = pinned();
    assert_eq!(v.verify_certificate(&hash, Some(CERT)), Ok(()));
    assert_eq!(v.verify_signature(ECDSA_SECP256R1_SHA256, &sign(&hash)), Ok(()));
}

#[test]
fn another_certificate_is_refused() {
    let mut v = pinned();
    assert_eq!(v.verify_certificate(&[0; 32], Some(b"someone else")), Err(TlsError::InvalidCertificate));
    assert_eq!(v.verify_certificate(&[0; 32], None), Err(TlsError::InvalidCertificate));
    assert!(v.transcript.is_none());
}

#[test]
fn signature_needs_a_certificate_first_and_is_single_use() {
    let hash = [3u8; 32];
    let sig = sign(&hash);
    let mut v = pinned();
    assert_eq!(v.verify_signature(ECDSA_SECP256R1_SHA256, &sig), Err(TlsError::InvalidCertificate));
    v.verify_certificate(&hash, Some(CERT)).unwrap();
    assert_eq!(v.verify_signature(ECDSA_SECP256R1_SHA256, &sig), Ok(()));
    assert_eq!(v.verify_signature(ECDSA_SECP256R1_SHA256, &sig), Err(TlsError::InvalidCertificate));
}

#[test]
fn wrong_scheme_and_bad_signatures_are_refused() {
    let hash = [3u8; 32];
    let mut v = pinned();
    v.verify_certificate(&hash, Some(CERT)).unwrap();
    assert_eq!(v.verify_signature(0x0804, &sign(&hash)), Err(TlsError::InvalidSignatureScheme));
    v.verify_certificate(&hash, Some(CERT)).unwrap();
    assert_eq!(v.verify_signature(ECDSA_SECP256R1_SHA256, &[1, 2, 3]), Err(TlsError::InvalidSignature));
    // A valid signature over another transcript does not verify.
    v.verify_certificate(&hash, Some(CERT)).unwrap();
    assert_eq!(
        v.verify_signature(ECDSA_SECP256R1_SHA256, &sign(&[4u8; 32])),
        Err(TlsError::InvalidSignature)
    );
}

#[test]
fn undecodable_pinned_key_is_a_decode_error() {
    let hash = [3u8; 32];
    let mut v = PinnedVerifier::new(CERT.to_vec(), vec![4, 1, 2]);
    v.verify_certificate(&hash, Some(CERT)).unwrap();
    assert_eq!(v.verify_signature(ECDSA_SECP256R1_SHA256, &sign(&hash)), Err(TlsError::DecodeError));
}
