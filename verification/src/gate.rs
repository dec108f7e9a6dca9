//! The trust check for privileged requests arriving over the network.
//!
//! A caller that asks for an install must present a base64-encoded
//! RSA PKCS#1 v1.5 signature over the SHA-256 digest of the payload:
//! the target file's content for a package install, the raw bytes of
//! the manifest URL for a web-app install.  The signature is checked
//! against one fixed public key, and only a request that carries a
//! valid one is turned into a request frame; an unauthorized request
//! never reaches the transport.

use vstd::prelude::*;
use vstd::slice::slice_to_vec;
use vstd::utf8::encode_utf8;

use crate::router::install;
use crate::router::install_pwa;
use crate::router::request_frame;
use crate::router::Command;

verus! {

/// The content a digester has absorbed so far.
pub uninterp spec fn absorbed(d: Digester) -> Seq<u8>;

/// The SHA-256 digest of a byte string.
pub uninterp spec fn sha256_of(data: Seq<u8>) -> Seq<u8>;

/// What standard-alphabet base64 decoding yields for a string, when
/// the string is well-formed base64.
pub uninterp spec fn base64_decoding(s: Seq<char>) -> Option<Seq<u8>>;

/// Whether DER bytes parse as a PKCS#1 RSA public key.
pub uninterp spec fn rsa_key_parses(der: Seq<u8>) -> bool;

/// Whether the key with the given DER encoding accepts `signature`
/// as a PKCS#1 v1.5 signature, with SHA-256 as the hash identifier,
/// over `digest`.
pub uninterp spec fn rsa_verifies(key_der: Seq<u8>, digest: Seq<u8>, signature: Seq<u8>) -> bool;

/// An incremental SHA-256 digest, so a file of any size can be
/// absorbed chunk by chunk without holding it whole.
#[verifier::external_body]
pub struct Digester {
    inner: sha2::Sha256,
}

impl Digester {
    /// A fresh digester that has absorbed nothing.
    /// Relies on sha2::Sha256::new.
    #[verifier::external_body]
    pub fn new() -> (r: Digester)
        ensures
            absorbed(r) == Seq::<u8>::empty(),
    {
        Digester { inner: <sha2::Sha256 as sha2::Digest>::new() }
    }

    /// Absorb one chunk.
    /// Relies on sha2::Sha256::update absorbing the chunk in order.
    #[verifier::external_body]
    pub fn update(&mut self, chunk: &[u8])
        ensures
            absorbed(*final(self)) == absorbed(*old(self)) + chunk@,
    {
        <sha2::Sha256 as sha2::Digest>::update(&mut self.inner, chunk);
    }

    /// The digest of everything absorbed.
    /// Relies on sha2::Sha256::finalize: SHA-256 is a function of the
    /// absorbed bytes alone, and its digest is 32 bytes long.
    #[verifier::external_body]
    pub fn finish(self) -> (r: Vec<u8>)
        ensures
            r@ == sha256_of(absorbed(self)),
            r@.len() == 32,
    {
        <sha2::Sha256 as sha2::Digest>::finalize(self.inner).to_vec()
    }
}

/// The SHA-256 digest of one byte string held in memory.
pub fn sha256(data: &[u8]) -> (r: Vec<u8>)
    ensures
        r@ == sha256_of(data@),
        r@.len() == 32,
{
    let mut d = Digester::new();
    d.update(data);
    proof {
        assert(Seq::<u8>::empty() + data@ =~= data@);
    }
    d.finish()
}

/// Relies on base64::engine::general_purpose::STANDARD.decode:
/// decoding is a function of the characters alone.
#[verifier::external_body]
fn b64_decode(s: &str) -> (r: Option<Vec<u8>>)
    ensures
        match r {
            Some(v) => base64_decoding(s@) == Some(v@),
            None => base64_decoding(s@) is None,
        },
{
    base64::Engine::decode(&base64::engine::general_purpose::STANDARD, s).ok()
}

#[verifier::external_type_specification]
#[verifier::external_body]
pub struct ExRsaPublicKey(rsa::RsaPublicKey);

/// Relies on rsa::pkcs1::DecodeRsaPublicKey::from_pkcs1_der: whether
/// DER bytes parse as an RSA public key depends on the bytes alone.
#[verifier::external_body]
fn parse_rsa_key(der: &[u8]) -> (r: Option<rsa::RsaPublicKey>)
    ensures
        r is Some == rsa_key_parses(der@),
{
    <rsa::RsaPublicKey as rsa::pkcs1::DecodeRsaPublicKey>::from_pkcs1_der(der).ok()
}

/// The single trusted public key, fixed at startup.  Its view is its
/// DER encoding, which the verification contracts speak of.
pub struct TrustKey {
    key: rsa::RsaPublicKey,
    der: Vec<u8>,
}

impl View for TrustKey {
    type V = Seq<u8>;

    closed spec fn view(&self) -> Seq<u8> {
        self.der@
    }
}

impl TrustKey {
    /// Load the trusted key from its PKCS#1 DER encoding; this is the
    /// type's only constructor, so a key's view is always the DER it
    /// was parsed from.
    pub fn from_der(der: &[u8]) -> (r: Option<TrustKey>)
        ensures
            match r {
                Some(k) => rsa_key_parses(der@) && k@ == der@,
                None => !rsa_key_parses(der@),
            },
    {
        match parse_rsa_key(der) {
            Some(key) => Some(TrustKey { key, der: slice_to_vec(der) }),
            None => None,
        }
    }
}

/// Relies on rsa::Pkcs1v15Sign::verify with SHA-256: acceptance is a
/// function of the key, the digest and the signature bytes alone.  A
/// TrustKey's parsed key is the one decoded from its stored DER.
#[verifier::external_body]
fn rsa_verify(key: &TrustKey, digest: &[u8], signature: &[u8]) -> (r: bool)
    ensures
        r == rsa_verifies(key@, digest@, signature@),
{
    rsa::traits::SignatureScheme::verify(
        rsa::Pkcs1v15Sign::new::<sha2::Sha256>(),
        &key.key,
        digest,
        signature,
    ).is_ok()
}

/// Why a request was refused: the signature was not valid base64,
/// or it did not verify against the expected digest.
#[derive(Clone, Copy, Debug, PartialEq, Eq, Structural)]
pub enum SignatureError {
    Malformed,
    Mismatch,
}

/// A well-formed, verifying signature: the base64 decodes and the key
/// accepts the decoded bytes over the digest.
pub open spec fn sig_verifies(key_der: Seq<u8>, digest: Seq<u8>, sig_b64: Seq<char>) -> bool {
    match base64_decoding(sig_b64) {
        Some(raw) => rsa_verifies(key_der, digest, raw),
        None => false,
    }
}

/// The error a failed check yields: malformed base64 is told apart
/// from a cryptographic mismatch.
pub open spec fn sig_error(key_der: Seq<u8>, digest: Seq<u8>, sig_b64: Seq<char>) -> SignatureError {
    if base64_decoding(sig_b64) is None {
        SignatureError::Malformed
    } else {
        SignatureError::Mismatch
    }
}

/// Check a caller's signature over an already-computed payload
/// digest against the trusted key.
pub fn verify_signature(key: &TrustKey, digest: &[u8], signature_b64: &str) -> (r: Result<
    (),
    SignatureError,
>)
    ensures
        r is Ok <==> sig_verifies(key@, digest@, signature_b64@),
        !sig_verifies(key@, digest@, signature_b64@) ==> r == Err::<(), SignatureError>(
            sig_error(key@, digest@, signature_b64@),
        ),
{
    match b64_decode(signature_b64) {
        None => Err(SignatureError::Malformed),
        Some(raw) => {
            if rsa_verify(key, digest, raw.as_slice()) {
                Ok(())
            } else {
                Err(SignatureError::Mismatch)
            }
        },
    }
}

/// The authorization decision: forward this request frame to the
/// transport, reject the signature, or report that the payload file
/// could not be read for digesting.
pub enum GateOutcome {
    Forward(Vec<u8>),
    Rejected(SignatureError),
    Unreadable,
}

/// Authorize a network-facing install request.  `digest` is the
/// SHA-256 digest of the target file's content, or `None` when the
/// file could not be read.  Only a verifying signature yields a
/// request frame; everything else stops here, before any transport
/// is touched.
pub fn authorize_install(
    path: String,
    digest: Option<Vec<u8>>,
    signature_b64: &str,
    key: &TrustKey,
) -> (r: GateOutcome)
    ensures
        match digest {
            None => r is Unreadable,
            Some(d) => if sig_verifies(key@, d@, signature_b64@) {
                match r {
                    GateOutcome::Forward(f) => f@ == request_frame((Command::Install { path })),
                    _ => false,
                }
            } else {
                (r == GateOutcome::Rejected(sig_error(key@, d@, signature_b64@)))
            },
        },
{
    let d = match digest {
        Some(d) => d,
        None => {
            return GateOutcome::Unreadable;
        },
    };
    match verify_signature(key, d.as_slice(), signature_b64) {
        Ok(()) => GateOutcome::Forward(install(path)),
        Err(e) => GateOutcome::Rejected(e),
    }
}

/// Authorize a network-facing web-app install request.  The digest is
/// taken over the raw UTF-8 bytes of the manifest URL itself — never
/// over any manifest content — byte-exact, with no normalization.
pub fn authorize_install_pwa(url: String, signature_b64: &str, key: &TrustKey) -> (r: GateOutcome)
    ensures
        ({
            let d = sha256_of(encode_utf8(url@));
            if sig_verifies(key@, d, signature_b64@) {
                match r {
                    GateOutcome::Forward(f) => f@ == request_frame((Command::InstallPwa { url })),
                    _ => false,
                }
            } else {
                (r == GateOutcome::Rejected(sig_error(key@, d, signature_b64@)))
            }
        }),
{
    let digest = sha256(url.as_str().as_bytes());
    match verify_signature(key, digest.as_slice(), signature_b64) {
        Ok(()) => GateOutcome::Forward(install_pwa(url)),
        Err(e) => GateOutcome::Rejected(e),
    }
}

impl GateOutcome {
    /// The HTTP envelope code of a refused request: 1 when the file
    /// could not be read, 2 when the signature failed.
    pub fn rejection_code(&self) -> (r: u8)
        requires
            !(self is Forward),
        ensures
            match self {
                GateOutcome::Unreadable => r == 1,
                GateOutcome::Rejected(_) => r == 2,
                GateOutcome::Forward(_) => false,
            },
    {
        match self {
            GateOutcome::Unreadable => 1,
            GateOutcome::Rejected(_) => 2,
            GateOutcome::Forward(_) => {
                proof {
                    assert(false);
                }
                0
            },
        }
    }
}

} // verus!
