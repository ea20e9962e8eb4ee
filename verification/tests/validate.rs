use lynkc::channel::ChannelData;
use lynkc::channel::ChannelFile;
use lynkc::error::ChannelError;
use lynkc::validate::validate_channel_data;
use lynkc::MAX_CHANNEL_BYTES;

fn file_with_data(data_base64: &str) -> ChannelFile {
    ChannelFile {
        id: "f1".to_string(),
        name: "f1.bin".to_string(),
        mime_type: "application/octet-stream".to_string(),
        size: 0,
        data_base64: data_base64.to_string(),
    }
}

#[test]
fn empty_channel_passes() {
    let data = ChannelData { text: String::new(), files: Vec::new() };
    assert_eq!(validate_channel_data(&data), Ok(()));
}

#[test]
fn text_at_exactly_the_maximum_passes() {
    let data = ChannelData { text: "a".repeat(MAX_CHANNEL_BYTES), files: Vec::new() };
    assert_eq!(validate_channel_data(&data), Ok(()));
}

#[test]
fn one_byte_over_the_maximum_is_too_large() {
    let data = ChannelData { text: "a".repeat(MAX_CHANNEL_BYTES + 1), files: Vec::new() };
    assert_eq!(validate_channel_data(&data), Err(ChannelError::PayloadTooLarge));
}

#[test]
fn decoded_file_bytes_count_toward_the_maximum() {
    // "aGVsbG8=" decodes to the five bytes of "hello"; the base64 text
    // itself is eight characters, so a wrong accounting shows up at the
    // boundary.
    let at_limit = ChannelData {
        text: "a".repeat(MAX_CHANNEL_BYTES - 5),
        files: vec![file_with_data("aGVsbG8=")],
    };
    assert_eq!(validate_channel_data(&at_limit), Ok(()));

    let over_limit = ChannelData {
        text: "a".repeat(MAX_CHANNEL_BYTES - 4),
        files: vec![file_with_data("aGVsbG8=")],
    };
    assert_eq!(validate_channel_data(&over_limit), Err(ChannelError::PayloadTooLarge));
}

#[test]
fn invalid_base64_is_rejected_whatever_the_declared_size() {
    let mut file = file_with_data("not base64!!!");
    file.size = 1;
    let data = ChannelData { text: "x".to_string(), files: vec![file] };
    assert_eq!(validate_channel_data(&data), Err(ChannelError::InvalidFileData));

    let mut huge = file_with_data("###");
    huge.size = u64::MAX;
    let data = ChannelData { text: String::new(), files: vec![huge] };
    assert_eq!(validate_channel_data(&data), Err(ChannelError::InvalidFileData));
}

#[test]
fn invalid_file_fails_before_size_is_counted() {
    // The scan is in order and fails fast: the first file's bad encoding
    // wins even though a later file is perfectly fine.
    let bad = file_with_data("!!!");
    let good = file_with_data("aGVsbG8=");
    let data = ChannelData { text: String::new(), files: vec![bad, good] };
    assert_eq!(validate_channel_data(&data), Err(ChannelError::InvalidFileData));
}

#[test]
fn empty_base64_decodes_to_nothing() {
    let data = ChannelData {
        text: "a".repeat(MAX_CHANNEL_BYTES),
        files: vec![file_with_data("")],
    };
    assert_eq!(validate_channel_data(&data), Ok(()));
}
