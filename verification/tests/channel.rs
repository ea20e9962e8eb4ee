use lynkc::channel::generate_channel_id;
use lynkc::channel::generate_channel_password;
use lynkc::channel::hash_channel_password;
use lynkc::channel::verify_channel_password;
use lynkc::channel::CHANNEL_PASSWORD_LENGTH;

#[test]
fn channel_generated_channel_id_is_short_and_uniqueish() {
    let first = generate_channel_id();
    let second = generate_channel_id();
    assert_eq!(first.len(), 8);
    assert_ne!(first, second);
}

#[test]
fn lib_generated_channel_id_is_short_and_uniqueish() {
    let first = generate_channel_id();
    let second = generate_channel_id();
    assert_eq!(first.len(), 8);
    assert_ne!(first, second);
}

#[test]
fn generated_password_has_expected_length() {
    let password = generate_channel_password();
    assert_eq!(password.len(), CHANNEL_PASSWORD_LENGTH);
}

#[test]
fn password_hash_verification_succeeds_for_correct_password() {
    let password = "correct horse";
    let hash = hash_channel_password(password);
    assert!(verify_channel_password(Some(&hash), Some(password)));
}

#[test]
fn password_hash_verification_fails_for_incorrect_password() {
    let password = "correct horse";
    let hash = hash_channel_password(password);
    assert!(!verify_channel_password(Some(&hash), Some("wrong")));
    assert!(!verify_channel_password(Some(&hash), None));
}

#[test]
fn generated_id_uses_lowercase_hex_only() {
    let id = generate_channel_id();
    assert!(id.chars().all(|c| c.is_ascii_hexdigit() && !c.is_ascii_uppercase()));
}

#[test]
fn generated_password_is_alphanumeric() {
    let password = generate_channel_password();
    assert!(password.chars().all(|c| c.is_ascii_alphanumeric()));
}

#[test]
fn hashing_is_deterministic_and_one_way() {
    let p = "some high entropy value";
    let h1 = hash_channel_password(p);
    let h2 = hash_channel_password(p);
    assert_eq!(h1, h2);
    assert_eq!(h1.len(), 64);
    assert!(h1.chars().all(|c| c.is_ascii_hexdigit() && !c.is_ascii_uppercase()));
    assert_ne!(h1, p);
    assert_ne!(hash_channel_password("a"), hash_channel_password("b"));
}

#[test]
fn unprotected_channel_admits_everyone() {
    assert!(verify_channel_password(None, None));
    assert!(verify_channel_password(None, Some("anything")));
    assert!(verify_channel_password(Some(""), None));
    assert!(verify_channel_password(Some(""), Some("anything")));
}
