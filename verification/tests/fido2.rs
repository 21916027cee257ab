use desktop_native::biometric::{KeyMaterial, OsDerivedKey};
use desktop_native::fido2::{
    assertion_request, assertion_token, client_data, decode_credentials, Assertion,
    Fido2ClientError,
};

fn answer(credential_id: &[u8], auth_data: &[u8], signature: &[u8]) -> Assertion {
    Assertion {
        credential_id: credential_id.to_vec(),
        auth_data: auth_data.to_vec(),
        signature: signature.to_vec(),
    }
}

#[test]
fn client_data_is_the_webauthn_get_object() {
    assert_eq!(
        client_data("abc", "example.com"),
        r#"{"type":"webauthn.get","challenge":"abc","origin":"https://example.com","crossOrigin": true}"#
    );
}

#[test]
fn credentials_are_decoded_in_order() {
    let credentials = vec![String::from("Y3JlZGVudGlhbC0x"), String::from("AAECAwQFBgc"), String::new()];
    assert_eq!(
        decode_credentials(&credentials),
        Ok(vec![b"credential-1".to_vec(), vec![0, 1, 2, 3, 4, 5, 6, 7], vec![]])
    );
    assert_eq!(decode_credentials(&vec![String::from("-_8")]), Ok(vec![vec![0xfb, 0xff]]));
}

#[test]
fn padded_or_foreign_credentials_are_invalid_input() {
    for bad in ["Zg==", "+/8", "Z", "not base64!", "Zm9v Zm9v"] {
        let credentials = vec![String::from("Zm9v"), String::from(bad)];
        assert_eq!(decode_credentials(&credentials), Err(Fido2ClientError::InvalidInput));
    }
}

#[test]
fn request_without_pin_names_the_credentials() {
    let credentials = vec![String::from("Zm9v"), String::from("Zg")];
    let request = assertion_request("abc", &credentials, "example.com", None).unwrap();
    assert_eq!(request.rpid, "example.com");
    assert_eq!(request.client_data, client_data("abc", "example.com"));
    assert_eq!(request.pin, None);
    assert_eq!(request.credential_ids, vec![b"foo".to_vec(), b"f".to_vec()]);
}

#[test]
fn request_with_pin_ignores_the_credentials() {
    let credentials = vec![String::from("not base64!")];
    let request =
        assertion_request("abc", &credentials, "example.com", Some(String::from("1234"))).unwrap();
    assert_eq!(request.pin.as_deref(), Some("1234"));
    assert!(request.credential_ids.is_empty());
}

#[test]
fn request_without_pin_refuses_bad_credentials() {
    let credentials = vec![String::from("not base64!")];
    let request = assertion_request("abc", &credentials, "example.com", None);
    assert_eq!(request.err(), Some(Fido2ClientError::InvalidInput));
}

#[test]
fn token_is_made_of_the_first_answer() {
    let data = client_data("abc", "example.com");
    let answers = vec![answer(b"foo", b"hello", &[0xfb, 0xff]), answer(b"x", b"y", b"z")];
    let token = assertion_token(&data, Some(answers)).unwrap();
    assert_eq!(token.id, "Zm9v");
    assert_eq!(token.raw_id, "Zm9v");
    assert_eq!(token.type_, "public-key");
    assert_eq!(token.extensions.appid, Some(false));
    assert_eq!(token.response.authenticator_data, "aGVsbG8");
    assert_eq!(token.response.signature, "-_8");
    assert_eq!(
        token.response.client_data_json,
        "eyJ0eXBlIjoid2ViYXV0aG4uZ2V0IiwiY2hhbGxlbmdlIjoiYWJjIiwib3JpZ2luIjoiaHR0cHM6Ly9leGFtcGxlLmNvbSIsImNyb3NzT3JpZ2luIjogdHJ1ZX0"
    );
}

#[test]
fn failed_key_means_no_credentials() {
    let token = assertion_token("{}", None);
    assert_eq!(token.err(), Some(Fido2ClientError::NoCredentials));
}

#[test]
fn no_answer_is_an_assertion_error() {
    let token = assertion_token("{}", Some(vec![]));
    assert_eq!(token.err(), Some(Fido2ClientError::AssertionError));
}

#[test]
fn key_material_keeps_its_parts() {
    let material = KeyMaterial::new(String::from("b3M"), Some(String::from("Y2xpZW50")));
    assert_eq!(material.os_key_part_b64, "b3M");
    assert_eq!(material.client_key_part_b64.as_deref(), Some("Y2xpZW50"));
    assert!(material.has_client_part());
    assert!(!KeyMaterial::new(String::from("b3M"), None).has_client_part());
}

#[test]
fn derived_key_is_joined_by_a_bar() {
    let key = OsDerivedKey::new(String::from("a2V5"), String::from("aXY"));
    assert_eq!(key.key_b64, "a2V5");
    assert_eq!(key.iv_b64, "aXY");
    assert_eq!(key.joined(), "a2V5|aXY");
}
