use mediumi::aac::adts::Adts;
use mediumi::aac::api::Processor;
use mediumi::aac::error::Error;

fn build_frame() -> Vec<u8> {
    vec![0xFF, 0xF1, 0x50, 0x40, 0x01, 0x1F, 0xFC, 0xAA]
}

#[test]
fn adts_test_parse() {
    let data = build_frame();
    let result = Adts::parse(&data).unwrap();

    assert!(!result.id);
    assert!(result.protection_absent);
    assert_eq!(result.profile, 1);
    assert_eq!(result.sampling_frequency_index, 4);
    assert!(!result.private_bit);
    assert_eq!(result.channel_configuration, 1);
    assert!(!result.original_copy);
    assert!(!result.home);
    assert!(!result.copyright_identification_bit);
    assert!(!result.copyright_identification_start);
    assert_eq!(result.aac_frame_length, 8);
    assert_eq!(result.adts_buffer_fullness, 0x7FF);
    assert_eq!(result.number_of_raw_data_blocks_in_frame, 0);
    assert!(result.crc.is_none());
    assert_eq!(result.payload, vec![0xAA]);
}

#[test]
fn test_parse_with_crc() {
    let data = vec![0xFF, 0xF0, 0x50, 0x40, 0x01, 0x5F, 0xFC, 0xDE, 0xAD, 0xBB];
    let result = Adts::parse(&data).unwrap();

    assert!(!result.protection_absent);
    assert_eq!(result.crc, Some(0xDEAD));
    assert_eq!(result.aac_frame_length, 10);
    assert_eq!(result.payload, vec![0xBB]);
}

#[test]
fn test_parse_all_flags_set() {
    let data = vec![0xFF, 0xF9, 0x52, 0xBC, 0x01, 0x1F, 0xFC, 0xCC];
    let result = Adts::parse(&data).unwrap();

    assert!(result.id);
    assert!(result.private_bit);
    assert!(result.original_copy);
    assert!(result.home);
    assert!(result.copyright_identification_bit);
    assert!(result.copyright_identification_start);
}

#[test]
fn adts_test_data_too_short() {
    let data = vec![0xFF, 0xF1, 0x50];
    let result = Adts::parse(&data);
    assert_eq!(result.err(), Some(Error::DataTooShort));
}

#[test]
fn test_data_too_short_for_frame_length() {
    let data = vec![0xFF, 0xF1, 0x50, 0x40, 0x01, 0x1F, 0xFC];
    let result = Adts::parse(&data);
    assert_eq!(result.err(), Some(Error::DataTooShort));
}

#[test]
fn test_invalid_syncword() {
    let data = vec![0x00, 0x00, 0x50, 0x40, 0x01, 0x1F, 0xFC, 0xAA];
    let result = Adts::parse(&data);
    assert!(matches!(result.err(), Some(Error::InvalidSyncword(_))));
}

#[test]
fn test_invalid_layer() {
    let data = vec![0xFF, 0xF3, 0x50, 0x40, 0x01, 0x1F, 0xFC, 0xAA];
    let result = Adts::parse(&data);
    assert_eq!(result.err(), Some(Error::InvalidLayer(1)));
}

#[test]
fn adts_test_roundtrip() {
    let data = build_frame();
    let parsed = Adts::parse(&data).unwrap();
    let output = parsed.to_bytes();
    assert_eq!(data, output);
}

#[test]
fn test_roundtrip_with_crc() {
    let data = vec![0xFF, 0xF0, 0x50, 0x40, 0x01, 0x5F, 0xFC, 0xDE, 0xAD, 0xBB];
    let parsed = Adts::parse(&data).unwrap();
    let output = parsed.to_bytes();
    assert_eq!(data, output);
}

#[test]
fn test_roundtrip_all_flags_set() {
    let data = vec![0xFF, 0xF9, 0x52, 0xBC, 0x01, 0x1F, 0xFC, 0xCC];
    let parsed = Adts::parse(&data).unwrap();
    let output = parsed.to_bytes();
    assert_eq!(data, output);
}

#[test]
fn adts_stream_of_two_frames_roundtrips() {
    let mut data = build_frame();
    data.extend_from_slice(&[0xFF, 0xF0, 0x50, 0x40, 0x01, 0x5F, 0xFC, 0xDE, 0xAD, 0xBB]);
    let p = Processor::parse(&data).unwrap();
    assert_eq!(p.adts_frames.len(), 2);
    assert_eq!(p.to_bytes(), data);
}

#[test]
fn error_messages_carry_their_values() {
    assert_eq!(Error::DataTooShort.message(), "ADTS data too short");
    assert_eq!(Error::InvalidSyncword(0x12A).message(), "Invalid Syncword: expected 0xFFF, got 0x12A");
    assert_eq!(Error::InvalidSyncword(0xA).message(), "Invalid Syncword: expected 0xFFF, got 0x00A");
    assert_eq!(Error::InvalidLayer(1).message(), "Invalid Layer: expected 0b00, got 0b01");
}
