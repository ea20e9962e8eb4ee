use lynkc::channel::ChannelData;
use lynkc::channel::ChannelFile;
use lynkc::channel::StoredChannel;
use lynkc::codec::deserialize_channel;
use lynkc::codec::serialize_channel;
use lynkc::hexnum::hex16;
use lynkc::hexnum::parse_hex16;

fn sample_file(id: &str, data_base64: &str) -> ChannelFile {
    ChannelFile {
        id: id.to_string(),
        name: format!("{id}.bin"),
        mime_type: "application/octet-stream".to_string(),
        size: 5,
        data_base64: data_base64.to_string(),
    }
}

#[test]
fn round_trip_full_record() {
    let record = StoredChannel {
        password_hash: Some("0123456789abcdef".repeat(4)),
        data: ChannelData {
            text: "hello | world\nwith lines".to_string(),
            files: vec![sample_file("f1", "aGVsbG8="), sample_file("f2", "d29ybGQ=")],
        },
    };
    let encoded = serialize_channel(&record);
    let decoded = deserialize_channel(encoded);
    assert_eq!(decoded, record);
}

#[test]
fn round_trip_empty_record() {
    let record = StoredChannel {
        password_hash: None,
        data: ChannelData { text: String::new(), files: Vec::new() },
    };
    let encoded = serialize_channel(&record);
    let decoded = deserialize_channel(encoded);
    assert_eq!(decoded, record);
}

#[test]
fn round_trip_keeps_empty_hash_distinct_from_none() {
    let record = StoredChannel {
        password_hash: Some(String::new()),
        data: ChannelData { text: "open".to_string(), files: Vec::new() },
    };
    let encoded = serialize_channel(&record);
    let decoded = deserialize_channel(encoded);
    assert_eq!(decoded.password_hash, Some(String::new()));
    assert_eq!(decoded, record);
}

#[test]
fn round_trip_multibyte_text() {
    let record = StoredChannel {
        password_hash: None,
        data: ChannelData {
            text: "προσοχή — fichiers: déjà vu ✓".to_string(),
            files: vec![sample_file("ü-id", "AA==")],
        },
    };
    let encoded = serialize_channel(&record);
    let decoded = deserialize_channel(encoded);
    assert_eq!(decoded, record);
}

#[test]
fn legacy_plain_text_falls_back() {
    let decoded = deserialize_channel("plain unstructured text".to_string());
    assert_eq!(decoded.password_hash, None);
    assert_eq!(decoded.data.text, "plain unstructured text");
    assert!(decoded.data.files.is_empty());
}

#[test]
fn truncated_record_falls_back_to_plain_text() {
    let decoded = deserialize_channel("ch1|".to_string());
    assert_eq!(decoded.password_hash, None);
    assert_eq!(decoded.data.text, "ch1|");
    assert!(decoded.data.files.is_empty());
}

#[test]
fn trailing_garbage_falls_back_to_plain_text() {
    let record = StoredChannel {
        password_hash: None,
        data: ChannelData { text: "x".to_string(), files: Vec::new() },
    };
    let mut encoded = serialize_channel(&record);
    encoded.push('!');
    let decoded = deserialize_channel(encoded.clone());
    assert_eq!(decoded.password_hash, None);
    assert_eq!(decoded.data.text, encoded);
    assert!(decoded.data.files.is_empty());
}

#[test]
fn hex_width_is_fixed_and_lowercase() {
    assert_eq!(hex16(0), "0000000000000000");
    assert_eq!(hex16(255), "00000000000000ff");
    assert_eq!(hex16(u64::MAX), "ffffffffffffffff");
}

#[test]
fn hex_parsing_reads_sixteen_digits() {
    let cs: Vec<char> = "00000000000000ffrest".chars().collect();
    assert_eq!(parse_hex16(&cs, 0), Some((255, 16)));
    let bad: Vec<char> = "00000000000000zz".chars().collect();
    assert_eq!(parse_hex16(&bad, 0), None);
    let short: Vec<char> = "ff".chars().collect();
    assert_eq!(parse_hex16(&short, 0), None);
}

#[test]
fn serialized_form_is_printable_header_plus_fields() {
    let record = StoredChannel {
        password_hash: None,
        data: ChannelData { text: "hi".to_string(), files: Vec::new() },
    };
    let encoded = serialize_channel(&record);
    assert_eq!(
        encoded,
        "ch1|n0000000000000002hi0000000000000000",
    );
}
