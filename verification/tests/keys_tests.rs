use base64::Engine;
use wirecage::keys::{load_key, trim_copy, KeyError};

fn b64(bytes: &[u8]) -> String {
    base64::engine::general_purpose::STANDARD.encode(bytes)
}

#[test]
fn load_key_round_trips_decode() {
    let raw: Vec<u8> = (0u8..32).collect();
    let text = b64(&raw);
    let key = load_key(text.as_bytes()).unwrap();
    assert_eq!(key.raw, raw);
    let direct = base64::engine::general_purpose::STANDARD
        .decode(text.as_bytes())
        .unwrap();
    assert_eq!(key.raw, direct);
}

#[test]
fn load_key_tolerates_surrounding_whitespace() {
    let raw = [7u8; 32];
    let text = format!("  {}\n\n", b64(&raw));
    let key = load_key(text.as_bytes()).unwrap();
    assert_eq!(key.raw, raw.to_vec());
}

#[test]
fn load_key_rejects_bad_encoding() {
    assert!(matches!(load_key(b"!!! not base64 !!!"), Err(KeyError::BadEncoding)));
}

#[test]
fn load_key_rejects_wrong_length() {
    let text = b64(&[1u8; 16]);
    assert!(matches!(load_key(text.as_bytes()), Err(KeyError::WrongLength)));
}

#[test]
fn trim_copy_strips_both_ends() {
    assert_eq!(trim_copy(b"  abc\r\n"), b"abc".to_vec());
    assert_eq!(trim_copy(b"\t\n  \t"), Vec::<u8>::new());
    assert_eq!(trim_copy(b"x"), b"x".to_vec());
}
