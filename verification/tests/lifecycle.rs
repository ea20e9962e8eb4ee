use std::collections::HashMap;

use lynkc::channel::ChannelData;
use lynkc::channel::ChannelFile;
use lynkc::channel::StoredChannel;
use lynkc::error::ChannelError;
use lynkc::error::ErrorResponse;
use lynkc::health_check;
use lynkc::lifecycle::channel_key;
use lynkc::lifecycle::clamp_ttl;
use lynkc::lifecycle::create_channel;
use lynkc::lifecycle::create_response;
use lynkc::lifecycle::delete_channel_file;
use lynkc::lifecycle::open_channel;
use lynkc::lifecycle::payload_response;
use lynkc::lifecycle::update_channel;
use lynkc::lifecycle::CreateChannelRequest;
use lynkc::lifecycle::UpdateChannelRequest;
use lynkc::DEFAULT_CHANNEL_TTL_SECONDS;

fn sample_file(id: &str) -> ChannelFile {
    ChannelFile {
        id: id.to_string(),
        name: format!("{id}.txt"),
        mime_type: "text/plain".to_string(),
        size: 5,
        data_base64: "aGVsbG8=".to_string(),
    }
}

#[test]
fn health_check_answers_ok() {
    assert_eq!(health_check(), "ok");
}

#[test]
fn channel_key_prefixes_the_identifier() {
    assert_eq!(channel_key("a1b2c3d4"), "channel:a1b2c3d4");
}

#[test]
fn ttl_is_clamped_to_the_default_when_missing_or_negative() {
    assert_eq!(clamp_ttl(Some(123), DEFAULT_CHANNEL_TTL_SECONDS), 123);
    assert_eq!(clamp_ttl(Some(0), DEFAULT_CHANNEL_TTL_SECONDS), 0);
    assert_eq!(clamp_ttl(Some(-1), DEFAULT_CHANNEL_TTL_SECONDS), 900);
    assert_eq!(clamp_ttl(Some(-2), DEFAULT_CHANNEL_TTL_SECONDS), 900);
    assert_eq!(clamp_ttl(None, DEFAULT_CHANNEL_TTL_SECONDS), 900);
}

#[test]
fn create_then_fetch_round_trips_through_a_store() {
    let mut store: HashMap<String, String> = HashMap::new();

    let req = CreateChannelRequest { text: Some("hello".to_string()), files: Vec::new() };
    let created = create_channel(req, false, DEFAULT_CHANNEL_TTL_SECONDS).unwrap();
    assert_eq!(created.id.len(), 8);
    assert!(created.id.chars().all(|c| c.is_ascii_hexdigit() && !c.is_ascii_uppercase()));
    assert!(created.password.is_none());
    assert_eq!(created.ttl_seconds, 900);
    assert_eq!(created.key, format!("channel:{}", created.id));

    let response = create_response(&created);
    assert_eq!(response.id, created.id);
    assert_eq!(response.ttl_seconds, 900);

    store.insert(created.key.clone(), created.value.clone());

    let raw = store.get(&created.key).cloned();
    let record = open_channel(raw, None).unwrap();
    assert_eq!(record.data.text, "hello");
    assert!(record.data.files.is_empty());

    let ttl = clamp_ttl(Some(900), DEFAULT_CHANNEL_TTL_SECONDS);
    assert!(ttl <= 900);
    let payload = payload_response(created.id.clone(), record.data, ttl);
    assert_eq!(payload.id, created.id);
    assert_eq!(payload.text, "hello");
    assert!(payload.files.is_empty());
    assert_eq!(payload.ttl_seconds, 900);
}

#[test]
fn fetching_a_missing_channel_is_not_found() {
    let store: HashMap<String, String> = HashMap::new();
    let raw = store.get("channel:ffffffff").cloned();
    assert_eq!(open_channel(raw, None).unwrap_err(), ChannelError::ChannelNotFound);
}

#[test]
fn password_gate_blocks_and_admits() {
    let req = CreateChannelRequest { text: Some("secret".to_string()), files: Vec::new() };
    let created = create_channel(req, true, DEFAULT_CHANNEL_TTL_SECONDS).unwrap();
    let password = created.password.clone().unwrap();
    assert_eq!(password.len(), 12);
    assert!(password.chars().all(|c| c.is_ascii_alphanumeric()));

    let without = open_channel(Some(created.value.clone()), None);
    assert_eq!(without.unwrap_err(), ChannelError::InvalidChannelPassword);

    let wrong = open_channel(Some(created.value.clone()), Some("wrongpasswrd"));
    assert_eq!(wrong.unwrap_err(), ChannelError::InvalidChannelPassword);

    let with = open_channel(Some(created.value.clone()), Some(&password)).unwrap();
    assert_eq!(with.data.text, "secret");
    assert!(with.password_hash.is_some());
}

#[test]
fn update_preserves_protection_and_replaces_the_body() {
    let req = CreateChannelRequest { text: Some("before".to_string()), files: Vec::new() };
    let created = create_channel(req, true, DEFAULT_CHANNEL_TTL_SECONDS).unwrap();
    let password = created.password.clone().unwrap();

    let record = open_channel(Some(created.value.clone()), Some(&password)).unwrap();
    let update = UpdateChannelRequest { text: "newText".to_string(), files: vec![sample_file("f1")] };
    let new_value = update_channel(record, update).unwrap();

    let refetched = open_channel(Some(new_value.clone()), Some(&password)).unwrap();
    assert_eq!(refetched.data.text, "newText");
    assert_eq!(refetched.data.files.len(), 1);
    assert_eq!(refetched.data.files[0].id, "f1");

    let wrong = open_channel(Some(new_value.clone()), Some("stillwrong12"));
    assert_eq!(wrong.unwrap_err(), ChannelError::InvalidChannelPassword);
    let missing = open_channel(Some(new_value), None);
    assert_eq!(missing.unwrap_err(), ChannelError::InvalidChannelPassword);
}

#[test]
fn create_rejects_an_invalid_file() {
    let bad = ChannelFile {
        id: "f1".to_string(),
        name: "f1".to_string(),
        mime_type: "text/plain".to_string(),
        size: 1,
        data_base64: "***".to_string(),
    };
    let req = CreateChannelRequest { text: None, files: vec![bad] };
    let r = create_channel(req, false, DEFAULT_CHANNEL_TTL_SECONDS);
    assert_eq!(r.unwrap_err(), ChannelError::InvalidFileData);
}

#[test]
fn update_rejects_an_oversized_body() {
    let record = StoredChannel {
        password_hash: None,
        data: ChannelData { text: String::new(), files: Vec::new() },
    };
    let update = UpdateChannelRequest {
        text: "a".repeat(lynkc::MAX_CHANNEL_BYTES + 1),
        files: Vec::new(),
    };
    assert_eq!(update_channel(record, update).unwrap_err(), ChannelError::PayloadTooLarge);
}

#[test]
fn deleting_a_file_removes_only_the_first_match() {
    let mut record = StoredChannel {
        password_hash: Some("h".repeat(64)),
        data: ChannelData {
            text: "t".to_string(),
            files: vec![sample_file("f1"), sample_file("f2"), sample_file("f1")],
        },
    };
    assert_eq!(delete_channel_file(&mut record, "f1"), Ok(()));
    assert_eq!(record.data.files.len(), 2);
    assert_eq!(record.data.files[0].id, "f2");
    assert_eq!(record.data.files[1].id, "f1");
    assert_eq!(record.data.text, "t");
    assert_eq!(record.password_hash, Some("h".repeat(64)));
}

#[test]
fn deleting_an_absent_file_changes_nothing() {
    let mut record = StoredChannel {
        password_hash: None,
        data: ChannelData { text: "t".to_string(), files: vec![sample_file("f1")] },
    };
    let before = record.clone();
    assert_eq!(delete_channel_file(&mut record, "zz").unwrap_err(), ChannelError::FileNotFound);
    assert_eq!(record, before);
}

#[test]
fn error_kinds_map_to_distinct_outcomes() {
    assert_eq!(ChannelError::ChannelNotFound.http_status(), 404);
    assert_eq!(ChannelError::InvalidChannelPassword.http_status(), 401);
    assert_eq!(ChannelError::PayloadTooLarge.http_status(), 400);
    assert_eq!(ChannelError::InvalidFileData.http_status(), 400);
    assert_eq!(ChannelError::FileNotFound.http_status(), 404);
    assert_eq!(ChannelError::ChannelNotFound.message(), "channel not found");
    assert_eq!(ChannelError::InvalidChannelPassword.message(), "invalid channel password");
    assert_eq!(ChannelError::PayloadTooLarge.message(), "channel payload exceeds allowed size");
    assert_eq!(ChannelError::InvalidFileData.message(), "invalid file data encoding");
    assert_eq!(ChannelError::FileNotFound.message(), "file not found");
    let body = ErrorResponse::from_error(&ChannelError::ChannelNotFound);
    assert_eq!(body.message, "channel not found");
}
