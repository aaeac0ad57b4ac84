//! Pinned-certificate trust for the TLS 1.3 client: the peer must present
//! byte-for-byte the pinned certificate, and its `CertificateVerify`
//! signature must verify under that certificate's P-256 key over the
//! handshake transcript (RFC 8446 §4.4.3). No chains, no CA set, no clock.
//!
//! The ECDSA arithmetic is the `p256` crate's; the TLS session itself runs
//! at the application's edge, which hands each check its inputs.
use crate::text::append_bytes;
use crate::text::copy_bytes;
use vstd::prelude::*;
use vstd::string::StringSliceAdditionalSpecFns;

verus! {

/// The TLS `SignatureScheme` code of `ecdsa_secp256r1_sha256`, the only
/// scheme the pinned certificate's key can sign with.
pub const ECDSA_SECP256R1_SHA256: u16 = 0x0403;

/// Why a peer was not trusted.
#[derive(Debug, Clone, Copy, PartialEq, Eq, Structural)]
pub enum TlsError {
    /// No certificate, not the pinned one, or no certificate seen before the
    /// signature.
    InvalidCertificate,
    /// The signature uses a scheme other than ECDSA P-256/SHA-256.
    InvalidSignatureScheme,
    /// The pinned public key does not decode.
    DecodeError,
    /// The signature does not decode or does not verify.
    InvalidSignature,
}

// ---------------------------------------------------------------------------
// p256
// ---------------------------------------------------------------------------

/// Whether `p256::ecdsa::VerifyingKey::from_sec1_bytes` accepts `key` (a
/// SEC1-encoded point on the curve).
pub uninterp spec fn p256_key_valid(key: Seq<u8>) -> bool;

/// Whether `p256::ecdsa::Signature::from_der` accepts `sig` (an ASN.1 DER
/// signature with both scalars in range).
pub uninterp spec fn p256_der_signature_valid(sig: Seq<u8>) -> bool;

/// Whether the ECDSA P-256/SHA-256 signature `sig` (DER) over `msg` verifies
/// under the public key `key` (SEC1).
pub uninterp spec fn p256_verifies(key: Seq<u8>, msg: Seq<u8>, sig: Seq<u8>) -> bool;

/// Calls `p256::ecdsa::VerifyingKey::from_sec1_bytes`. Claims only that its
/// success is the named predicate of the key bytes.
#[verifier::external_body]
fn sec1_key_valid(key: &[u8]) -> (r: bool)
    ensures
        r == p256_key_valid(key@),
{
    p256::ecdsa::VerifyingKey::from_sec1_bytes(key).is_ok()
}

/// Calls `p256::ecdsa::Signature::from_der`. Claims only that its success is
/// the named predicate of the signature bytes.
#[verifier::external_body]
fn der_signature_valid(sig: &[u8]) -> (r: bool)
    ensures
        r == p256_der_signature_valid(sig@),
{
    p256::ecdsa::Signature::from_der(sig).is_ok()
}

/// Calls `p256::ecdsa::signature::Verifier::verify` on the key and signature
/// decoded from their bytes (both decodings succeed by the precondition).
/// Claims only that the outcome is the named predicate of the three byte
/// strings.
#[verifier::external_body]
fn ecdsa_verify(key: &[u8], msg: &[u8], sig: &[u8]) -> (r: bool)
    requires
        p256_key_valid(key@),
        p256_der_signature_valid(sig@),
    ensures
        r == p256_verifies(key@, msg@, sig@),
{
    let key = match p256::ecdsa::VerifyingKey::from_sec1_bytes(key) {
        Ok(key) => key,
        Err(_) => return false,
    };
    let sig = match p256::ecdsa::Signature::from_der(sig) {
        Ok(sig) => sig,
        Err(_) => return false,
    };
    p256::ecdsa::signature::Verifier::verify(&key, msg, &sig).is_ok()
}

// ---------------------------------------------------------------------------
// The pinned verifier
// ---------------------------------------------------------------------------

/// The context string of a server `CertificateVerify`.
pub const CERT_VERIFY_CONTEXT: &'static str = "TLS 1.3, server CertificateVerify";

/// The message a server's `CertificateVerify` signs: 64 spaces, the context
/// string, a zero byte, then the transcript hash.
pub open spec fn cert_verify_message(transcript_hash: Seq<u8>) -> Seq<u8> {
    Seq::new(64, |i: int| 0x20u8) + CERT_VERIFY_CONTEXT.spec_bytes() + seq![0u8] + transcript_hash
}

/// Trusts exactly the pinned certificate.
pub struct PinnedVerifier {
    /// The pinned certificate (DER).
    pub pinned_der: Vec<u8>,
    /// Its public key (uncompressed SEC1 P-256 point).
    pub pinned_key: Vec<u8>,
    /// The transcript hash at the Certificate message, kept for the
    /// signature check that follows.
    pub transcript: Option<Vec<u8>>,
}

/// The outcome of the signature check for the transcript hash kept (if
/// any), the signature scheme code, the pinned key and the signature.
pub open spec fn spec_verify_signature(
    transcript: Option<Seq<u8>>,
    scheme: u16,
    key: Seq<u8>,
    signature: Seq<u8>,
) -> Result<(), TlsError> {
    match transcript {
        None => Err(TlsError::InvalidCertificate),
        Some(hash) => if scheme != ECDSA_SECP256R1_SHA256 {
            Err(TlsError::InvalidSignatureScheme)
        } else if !p256_key_valid(key) {
            Err(TlsError::DecodeError)
        } else if !p256_der_signature_valid(signature) {
            Err(TlsError::InvalidSignature)
        } else if !p256_verifies(key, cert_verify_message(hash), signature) {
            Err(TlsError::InvalidSignature)
        } else {
            Ok(())
        },
    }
}

impl PinnedVerifier {
    /// A verifier pinned to `der` with public key `key`, before any
    /// certificate.
    pub fn new(der: Vec<u8>, key: Vec<u8>) -> (r: Self)
        ensures
            r.pinned_der@ == der@,
            r.pinned_key@ == key@,
            r.transcript is None,
    {
        PinnedVerifier { pinned_der: der, pinned_key: key, transcript: None }
    }

    /// The kept transcript hash, by value.
    pub open spec fn kept(&self) -> Option<Seq<u8>> {
        match self.transcript {
            Some(h) => Some(h@),
            None => None,
        }
    }

    /// Check the presented leaf certificate (`None` when the first entry is
    /// missing or not X.509): it must equal the pinned certificate byte for
    /// byte. On success, keep `transcript_hash` for the signature check.
    pub fn verify_certificate(&mut self, transcript_hash: &[u8], leaf: Option<&[u8]>) -> (r: Result<
        (),
        TlsError,
    >)
        ensures
            final(self).pinned_der@ == old(self).pinned_der@,
            final(self).pinned_key@ == old(self).pinned_key@,
            match leaf {
                Some(l) => if l@ == old(self).pinned_der@ {
                    r is Ok && final(self).kept() == Some(transcript_hash@)
                } else {
                    r == Err::<(), TlsError>(TlsError::InvalidCertificate) && final(self).kept()
                        == old(self).kept()
                },
                None => r == Err::<(), TlsError>(TlsError::InvalidCertificate) && final(self).kept()
                    == old(self).kept(),
            },
    {
        let leaf = match leaf {
            Some(l) => l,
            None => return Err(TlsError::InvalidCertificate),
        };
        if !crate::text::bytes_eq(leaf, self.pinned_der.as_slice()) {
            return Err(TlsError::InvalidCertificate);
        }
        self.transcript = Some(copy_bytes(transcript_hash));
        Ok(())
    }

    /// Check the peer's `CertificateVerify`: the kept transcript hash is
    /// consumed, the scheme must be ECDSA P-256/SHA-256, and the signature
    /// must verify under the pinned key over [`cert_verify_message`].
    pub fn verify_signature(&mut self, scheme: u16, signature: &[u8]) -> (r: Result<(), TlsError>)
        ensures
            final(self).pinned_der@ == old(self).pinned_der@,
            final(self).pinned_key@ == old(self).pinned_key@,
            final(self).transcript is None,
            r == spec_verify_signature(old(self).kept(), scheme, old(self).pinned_key@, signature@),
    {
        let transcript = match self.transcript.take() {
            Some(t) => t,
            None => return Err(TlsError::InvalidCertificate),
        };
        if scheme != ECDSA_SECP256R1_SHA256 {
            return Err(TlsError::InvalidSignatureScheme);
        }
        let message = cert_verify_message_bytes(transcript.as_slice());
        if !sec1_key_valid(self.pinned_key.as_slice()) {
            return Err(TlsError::DecodeError);
        }
        if !der_signature_valid(signature) {
            return Err(TlsError::InvalidSignature);
        }
        if !ecdsa_verify(self.pinned_key.as_slice(), message.as_slice(), signature) {
            return Err(TlsError::InvalidSignature);
        }
        Ok(())
    }
}

/// Build the message a server's `CertificateVerify` signs.
pub fn cert_verify_message_bytes(transcript_hash: &[u8]) -> (r: Vec<u8>)
    ensures
        r@ == cert_verify_message(transcript_hash@),
{
    let mut message: Vec<u8> = Vec::new();
    let mut i: usize = 0;
    while i < 64
        invariant
            i <= 64,
            message@ == Seq::new(i as nat, |j: int| 0x20u8),
        decreases 64 - i,
    {
        message.push(0x20);
        proof {
            assert(message@ =~= Seq::new((i + 1) as nat, |j: int| 0x20u8));
        }
        i = i + 1;
    }
    append_bytes(&mut message, CERT_VERIFY_CONTEXT.as_bytes());
    message.push(0);
    append_bytes(&mut message, transcript_hash);
    proof {
        assert(message@ =~= cert_verify_message(transcript_hash@));
    }
    message
}

/// The transcript is single-use: once a signature check has run, a second
/// one fails until another pinned certificate is presented.
pub proof fn lemma_signature_needs_certificate(scheme: u16, key: Seq<u8>, signature: Seq<u8>)
    ensures
        spec_verify_signature(None, scheme, key, signature) == Err::<(), TlsError>(
            TlsError::InvalidCertificate,
        ),
{
}

} // verus!
