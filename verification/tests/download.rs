use hmac::Mac;
use wartable::download::{constant_time_eq, DownloadSigner};

fn signer() -> DownloadSigner {
    DownloadSigner::with_key(vec![7u8; 32], "http://host:9400".to_string())
}

#[test]
fn constant_time_eq_cases() {
    assert!(constant_time_eq(b"abc", b"abc"));
    assert!(!constant_time_eq(b"abc", b"abd"));
    assert!(!constant_time_eq(b"abc", b"ab"));
    assert!(constant_time_eq(b"", b""));
}

#[test]
fn signature_matches_hmac_sha256_in_lowercase_hex() {
    let s = signer();
    let mut mac = hmac::Hmac::<sha2::Sha256>::new_from_slice(&[7u8; 32]).unwrap();
    mac.update(b"/tmp/x|42");
    let expected = hex::encode(mac.finalize().into_bytes());
    assert_eq!(s.compute_sig("/tmp/x", 42), expected);
}

#[test]
fn links_percent_encode_the_path() {
    let s = signer();
    let sig = s.compute_sig("/opt/a b~_-.txt", 7);
    assert_eq!(
        s.sign_at("/opt/a b~_-.txt", 7),
        format!("http://host:9400/api/dl?path=%2Fopt%2Fa%20b~_-.txt&exp=7&sig={}", sig)
    );
    let sig = s.compute_sig("é", 7);
    assert_eq!(s.sign_at("é", 7), format!("http://host:9400/api/dl?path=%C3%A9&exp=7&sig={}", sig));
}

#[test]
fn signature_is_hmac_sha256_hex() {
    let s = signer();
    let sig = s.compute_sig("/opt/wartable/jobs/out.txt", 1000);
    assert_eq!(sig.len(), 64);
    assert!(sig.chars().all(|c| c.is_ascii_hexdigit() && !c.is_ascii_uppercase()));
    assert_eq!(sig, s.compute_sig("/opt/wartable/jobs/out.txt", 1000));
    assert_ne!(sig, s.compute_sig("/opt/wartable/jobs/out.txt", 1001));
    assert_ne!(sig, s.compute_sig("/opt/wartable/jobs/other.txt", 1000));
}

#[test]
fn signed_link_shape() {
    let s = signer();
    let url = s.sign_at("/tmp/a b", 42);
    let sig = s.compute_sig("/tmp/a b", 42);
    assert_eq!(url, format!("http://host:9400/api/dl?path=%2Ftmp%2Fa%20b&exp=42&sig={}", sig));
    let fresh = s.sign("/tmp/x").unwrap();
    assert!(fresh.starts_with("http://host:9400/api/dl?path=%2Ftmp%2Fx&exp="));
}

#[test]
fn verify_accepts_own_signature_until_expiry() {
    let s = signer();
    let sig = s.compute_sig("/tmp/x", 500);
    assert_eq!(s.verify_at("/tmp/x", 500, &sig, Some(400)), Ok("/tmp/x".to_string()));
    assert_eq!(s.verify_at("/tmp/x", 500, &sig, Some(500)), Ok("/tmp/x".to_string()));
    assert_eq!(s.verify_at("/tmp/x", 500, &sig, Some(501)), Err("Token expired"));
    assert_eq!(s.verify_at("/tmp/x", 500, "deadbeef", Some(400)), Err("Invalid signature"));
    assert_eq!(s.verify_at("/tmp/y", 500, &sig, Some(400)), Err("Invalid signature"));
    assert_eq!(s.verify_at("/tmp/x", 500, &sig, None), Ok("/tmp/x".to_string()));
}

#[test]
fn verify_against_clock() {
    let s = DownloadSigner::new("http://h".to_string()).unwrap();
    let far = 4_000_000_000u64;
    let sig = s.compute_sig("/f", far);
    assert_eq!(s.verify("/f", far, &sig), Ok("/f".to_string()));
    let old = s.compute_sig("/f", 10);
    assert_eq!(s.verify("/f", 10, &old), Err("Token expired"));
    let other = DownloadSigner::new("http://h".to_string()).unwrap();
    assert_eq!(other.verify("/f", far, &sig), Err("Invalid signature"));
}

#[test]
fn links_expire_fifteen_minutes_after_signing() {
    let s = signer();
    let url = s.sign_from("/tmp/x", 1000).unwrap();
    assert_eq!(url, s.sign_at("/tmp/x", 1900));
    let sig = s.compute_sig("/tmp/x", 1900);
    assert_eq!(s.verify_at("/tmp/x", 1900, &sig, Some(1900)), Ok("/tmp/x".to_string()));
    assert_eq!(s.verify_at("/tmp/x", 1900, &sig, Some(1901)), Err("Token expired"));
    assert_eq!(s.sign_from("/tmp/x", u64::MAX - 899), None);
    assert!(s.sign_from("/tmp/x", u64::MAX - 900).is_some());
}

#[test]
fn a_copy_of_the_signer_accepts_its_links() {
    let s = signer();
    let copy = s.duplicate();
    let sig = s.compute_sig("/tmp/out.txt", 500);
    assert_eq!(copy.compute_sig("/tmp/out.txt", 500), sig);
    assert_eq!(copy.verify_at("/tmp/out.txt", 500, &sig, Some(499)), Ok("/tmp/out.txt".to_string()));
    let other = DownloadSigner::with_key(vec![8u8; 32], "http://host:9400".to_string());
    assert!(other.verify_at("/tmp/out.txt", 500, &sig, Some(499)).is_err());
}
