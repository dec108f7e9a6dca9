use app_bridge::authorize_install;
use app_bridge::authorize_install_pwa;
use app_bridge::install;
use app_bridge::install_pwa;
use app_bridge::sha256;
use app_bridge::verify_signature;
use app_bridge::Digester;
use app_bridge::GateOutcome;
use app_bridge::SignatureError;
use app_bridge::TrustKey;

fn make_key() -> (rsa::RsaPrivateKey, Vec<u8>) {
    let mut rng = rand::thread_rng();
    let private = rsa::RsaPrivateKey::new(&mut rng, 1024).expect("key generation");
    let public = private.to_public_key();
    let der = rsa::pkcs1::EncodeRsaPublicKey::to_pkcs1_der(&public).expect("der");
    (private, der.as_bytes().to_vec())
}

fn sign_digest(private: &rsa::RsaPrivateKey, digest: &[u8]) -> String {
    let scheme = rsa::Pkcs1v15Sign::new::<sha2::Sha256>();
    let sig = rsa::traits::SignatureScheme::sign(
        scheme,
        None::<&mut rand::rngs::ThreadRng>,
        private,
        digest,
    )
    .expect("sign");
    base64::Engine::encode(&base64::engine::general_purpose::STANDARD, sig)
}

#[test]
fn valid_signature_verifies() {
    let (private, der) = make_key();
    let key = TrustKey::from_der(&der).expect("key parses");
    let payload = b"some payload bytes";
    let digest = sha256(payload);
    let sig = sign_digest(&private, &digest);
    assert_eq!(verify_signature(&key, &digest, &sig), Ok(()));
}

#[test]
fn bit_flip_in_payload_fails() {
    let (private, der) = make_key();
    let key = TrustKey::from_der(&der).expect("key parses");
    let payload = b"some payload bytes".to_vec();
    let digest = sha256(&payload);
    let sig = sign_digest(&private, &digest);
    let mut tampered = payload.clone();
    tampered[0] ^= 0x01;
    let digest2 = sha256(&tampered);
    assert_eq!(
        verify_signature(&key, &digest2, &sig),
        Err(SignatureError::Mismatch)
    );
    // A single flipped bit of the digest itself fails too.
    let mut dflip = digest.clone();
    dflip[31] ^= 0x80;
    assert_eq!(verify_signature(&key, &dflip, &sig), Err(SignatureError::Mismatch));
}

#[test]
fn bit_flip_in_signature_fails() {
    let (private, der) = make_key();
    let key = TrustKey::from_der(&der).expect("key parses");
    let digest = sha256(b"payload");
    let sig = sign_digest(&private, &digest);
    let mut raw = base64::Engine::decode(&base64::engine::general_purpose::STANDARD, &sig).unwrap();
    raw[0] ^= 0x01;
    let flipped = base64::Engine::encode(&base64::engine::general_purpose::STANDARD, raw);
    assert_eq!(
        verify_signature(&key, &digest, &flipped),
        Err(SignatureError::Mismatch)
    );
}

#[test]
fn malformed_base64_is_distinct() {
    let (_, der) = make_key();
    let key = TrustKey::from_der(&der).expect("key parses");
    let digest = sha256(b"payload");
    assert_eq!(
        verify_signature(&key, &digest, "!!not base64!!"),
        Err(SignatureError::Malformed)
    );
}

#[test]
fn wrong_key_fails() {
    let (private, _) = make_key();
    let (_, other_der) = make_key();
    let key = TrustKey::from_der(&other_der).expect("key parses");
    let digest = sha256(b"payload");
    let sig = sign_digest(&private, &digest);
    assert_eq!(verify_signature(&key, &digest, &sig), Err(SignatureError::Mismatch));
}

#[test]
fn install_gate_forwards_valid_request() {
    let (private, der) = make_key();
    let key = TrustKey::from_der(&der).expect("key parses");
    let file_content = b"binary package content".to_vec();
    let digest = sha256(&file_content);
    let sig = sign_digest(&private, &digest);
    let path = "/data/apps/pkg.zip";
    match authorize_install(path.to_string(), Some(digest), &sig, &key) {
        GateOutcome::Forward(frame) => {
            // The authorized frame carries the very path that was requested.
            assert_eq!(frame, install(path.to_string()));
        }
        _ => panic!("valid request must be forwarded"),
    }
}

#[test]
fn install_gate_blocks_invalid_signature() {
    let (private, der) = make_key();
    let key = TrustKey::from_der(&der).expect("key parses");
    let digest = sha256(b"actual file content");
    let other_digest = sha256(b"what the attacker signed");
    let sig = sign_digest(&private, &other_digest);
    let out = authorize_install("/data/apps/pkg.zip".to_string(), Some(digest), &sig, &key);
    // No request frame exists, so no socket traffic can happen.
    assert!(matches!(out, GateOutcome::Rejected(SignatureError::Mismatch)));
    assert_eq!(out.rejection_code(), 2);
}

#[test]
fn install_gate_reports_unreadable_file() {
    let (private, der) = make_key();
    let key = TrustKey::from_der(&der).expect("key parses");
    let sig = sign_digest(&private, &sha256(b"x"));
    let out = authorize_install("/gone".to_string(), None, &sig, &key);
    assert!(matches!(out, GateOutcome::Unreadable));
    assert_eq!(out.rejection_code(), 1);
}

#[test]
fn pwa_signature_is_over_url_bytes() {
    let (private, der) = make_key();
    let key = TrustKey::from_der(&der).expect("key parses");
    let url = "https://apps.example/app.webmanifest";
    let manifest_content = b"{\"name\":\"an app\"}";

    // A signature over the digest of the raw URL bytes verifies.
    let sig = sign_digest(&private, &sha256(url.as_bytes()));
    match authorize_install_pwa(url.to_string(), &sig, &key) {
        GateOutcome::Forward(frame) => assert_eq!(frame, install_pwa(url.to_string())),
        _ => panic!("signature over the URL bytes must verify"),
    }

    // A signature over the digest of the manifest's content does not.
    let sig = sign_digest(&private, &sha256(manifest_content));
    let out = authorize_install_pwa(url.to_string(), &sig, &key);
    assert!(matches!(out, GateOutcome::Rejected(SignatureError::Mismatch)));
}

#[test]
fn digester_streams_like_one_shot() {
    let mut d = Digester::new();
    d.update(b"alpha ");
    d.update(b"");
    d.update(b"beta");
    let streamed = d.finish();
    let whole = sha256(b"alpha beta");
    assert_eq!(streamed, whole);
    assert_eq!(streamed.len(), 32);
    // Cross-check against the digest computed directly.
    let direct = <sha2::Sha256 as sha2::Digest>::digest(b"alpha beta").to_vec();
    assert_eq!(streamed, direct);
}

#[test]
fn from_der_rejects_garbage() {
    assert!(TrustKey::from_der(b"not a key").is_none());
}
