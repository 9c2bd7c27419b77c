//! The wire side: request bodies, response classification, and the
//! whole lookup decision.

use std::collections::HashMap;

use m365check::verdict::LookupError;
use m365check::wire::{classify_response, lookup_outcome, request_body, verdict_for};

fn found_body(user: &str) -> Vec<u8> {
    format!(
        "{{\"Username\":\"{}\",\"Display\":\"{}\",\"IfExistsResult\":0,\
         \"IsUnmanaged\":false,\"ThrottleStatus\":0,\"Credentials\":{{\
         \"PrefCredential\":1,\"HasPassword\":true,\"RemoteNgcParams\":null,\
         \"FidoParams\":null,\"SasParams\":null,\"CertAuthParams\":null,\
         \"GoogleParams\":null,\"FacebookParams\":null,\"OtcNotAutoSent\":true}},\
         \"EstsProperties\":{{\"DomainType\":3}},\"IsSignupDisallowed\":false,\
         \"apiCanary\":\"aGVsbG8\"}}",
        user, user
    )
    .into_bytes()
}

fn not_found_body(user: &str) -> Vec<u8> {
    String::from_utf8(found_body(user))
        .unwrap()
        .replace("\"IfExistsResult\":0", "\"IfExistsResult\":1")
        .into_bytes()
}

#[test]
fn request_body_is_single_field_json() {
    assert_eq!(
        request_body(b"alice@example.com"),
        b"{\"Username\":\"alice@example.com\"}".to_vec()
    );
}

#[test]
fn request_body_matches_reference_serializer() {
    for addr in [
        "alice@example.com",
        "odd \"quoted\" name@example.com",
        "back\\slash@example.com",
        "ctrl\u{1}char@example.com",
        "tab\there@example.com",
        "unicode-\u{e9}\u{4e16}@example.com",
    ] {
        let mut payload = HashMap::new();
        payload.insert("Username", addr.to_string());
        let reference = serde_json::to_vec(&payload).unwrap();
        assert_eq!(request_body(addr.as_bytes()), reference);
    }
}

#[test]
fn found_code_confirms_existence() {
    let v = classify_response(b"alice@example.com".to_vec(), &found_body("alice@example.com"))
        .unwrap();
    assert_eq!(v.address, b"alice@example.com".to_vec());
    assert!(v.exists);
}

#[test]
fn other_code_denies_existence() {
    let v = classify_response(b"bob@example.com".to_vec(), &not_found_body("bob@example.com"))
        .unwrap();
    assert_eq!(v.address, b"bob@example.com".to_vec());
    assert!(!v.exists);
}

#[test]
fn minimal_body_with_code_still_classifies() {
    let v = classify_response(b"a@b".to_vec(), b"{\"IfExistsResult\":5}").unwrap();
    assert!(!v.exists);
}

#[test]
fn missing_code_is_a_decode_error() {
    let r = classify_response(b"a@b".to_vec(), b"{\"Display\":\"x\"}");
    assert_eq!(r.unwrap_err(), LookupError::Decode);
}

#[test]
fn malformed_body_is_a_decode_error() {
    let r = classify_response(b"a@b".to_vec(), b"not json at all");
    assert_eq!(r.unwrap_err(), LookupError::Decode);
}

#[test]
fn empty_body_is_a_decode_error() {
    let r = classify_response(b"a@b".to_vec(), b"");
    assert_eq!(r.unwrap_err(), LookupError::Decode);
}

#[test]
fn non_integer_code_is_a_decode_error() {
    let r = classify_response(b"a@b".to_vec(), b"{\"IfExistsResult\":\"0\"}");
    assert_eq!(r.unwrap_err(), LookupError::Decode);
}

#[test]
fn verdict_for_uses_the_found_sentinel() {
    assert!(verdict_for(b"a@b".to_vec(), 0).exists);
    assert!(!verdict_for(b"a@b".to_vec(), 1).exists);
    assert!(!verdict_for(b"a@b".to_vec(), -1).exists);
}

#[test]
fn no_response_is_a_transport_error() {
    let r = lookup_outcome(b"a@b".to_vec(), None);
    assert_eq!(r.unwrap_err(), LookupError::Transport);
}

#[test]
fn lookup_outcome_classifies_a_response() {
    let v = lookup_outcome(b"a@b".to_vec(), Some(found_body("a@b"))).unwrap();
    assert!(v.exists);
    assert_eq!(v.address, b"a@b".to_vec());
}
