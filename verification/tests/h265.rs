use mediumi::h265::annex_b::{parse_all, AnnexB, StartCode};
use mediumi::h265::aud::{Aud, PicType};
use mediumi::h265::error::Error;
use mediumi::h265::nal::{insert_emulation_prevention_bytes, remove_emulation_prevention_bytes, Header, NalUnitType};
use mediumi::h265::{parse_annex_b, serialize_annex_b, NalData, NalPayload};

const AUD_NAL: &[u8] = &[0x46, 0x01, 0x30];

#[test]
fn test_annex_b_roundtrip() {
    let mut stream = Vec::new();
    stream.extend_from_slice(&[0x00, 0x00, 0x00, 0x01]);
    stream.extend_from_slice(AUD_NAL);
    stream.extend_from_slice(&[0x00, 0x00, 0x01]);
    stream.extend_from_slice(&[0x42, 0x01, 0xde, 0xad]);

    let entries = parse_all(&stream).expect("parse_all");
    assert_eq!(entries.len(), 2);
    assert_eq!(entries[0].start_code, StartCode::FourBytes);
    assert_eq!(entries[0].nal_unit.header.nal_unit_type, NalUnitType::AudNut);
    assert_eq!(entries[1].start_code, StartCode::ThreeBytes);
    assert_eq!(entries[1].nal_unit.header.nal_unit_type, NalUnitType::SpsNut);

    let rebuilt: Vec<u8> = entries.iter().flat_map(|e| e.to_bytes()).collect();
    assert_eq!(rebuilt, stream);
}

#[test]
fn h265_annex_b_test_invalid_start_code() {
    assert!(matches!(AnnexB::parse(&[0x11, 0x22, 0x33, 0x44]), Err(Error::InvalidStartCode(0x11223344))));
}

#[test]
fn test_aud_roundtrip() {
    let aud = Aud { pic_type: PicType::PI };
    let bytes = aud.to_bytes();
    let parsed_aud = Aud::parse(&bytes).expect("Failed to parse AUD");
    assert_eq!(aud.pic_type, parsed_aud.pic_type);
}

#[test]
fn nal_data_parses_aud() {
    let nal = NalData::parse(AUD_NAL).expect("parse");
    assert_eq!(nal.header.nal_unit_type, NalUnitType::AudNut);
    let NalPayload::Aud(aud) = &nal.payload else {
        panic!("expected Aud payload, got {:?}", nal.payload);
    };
    assert_eq!(aud.pic_type, PicType::PI);
    assert_eq!(nal.to_bytes(), AUD_NAL);
}

#[test]
fn nal_data_preserves_unknown_type() {
    let bytes = [0x42, 0x01, 0xde, 0xad, 0xbe, 0xef];
    let nal = NalData::parse(&bytes).expect("parse");
    assert_eq!(nal.header.nal_unit_type, NalUnitType::SpsNut);
    assert!(matches!(&nal.payload, NalPayload::Unknown(raw) if raw == &bytes[2..]));
    assert_eq!(nal.to_bytes(), bytes);
}

#[test]
fn annex_b_stream_full_roundtrip() {
    let mut stream = Vec::new();
    stream.extend_from_slice(&[0x00, 0x00, 0x00, 0x01]);
    stream.extend_from_slice(AUD_NAL);
    stream.extend_from_slice(&[0x00, 0x00, 0x01]);
    stream.extend_from_slice(&[0x42, 0x01, 0xde, 0xad]);

    let nals = parse_annex_b(&stream).expect("parse_annex_b");
    assert_eq!(nals.len(), 2);
    assert!(matches!(nals[0].nal.payload, NalPayload::Aud(_)));
    assert!(matches!(nals[1].nal.payload, NalPayload::Unknown(_)));

    assert_eq!(serialize_annex_b(&nals), stream);
}

#[test]
fn test_nal_unit_header_roundtrip() {
    let header = Header { forbidden_zero_bit: 0, nal_unit_type: NalUnitType::TrailN, nuh_layer_id: 0, nuh_temporal_id_plus1: 1 };

    let bytes = header.to_bytes();
    let parsed_header = Header::parse(&bytes).expect("Failed to parse NAL unit header");

    assert_eq!(header.forbidden_zero_bit, parsed_header.forbidden_zero_bit);
    assert_eq!(header.nal_unit_type, parsed_header.nal_unit_type);
    assert_eq!(header.nuh_layer_id, parsed_header.nuh_layer_id);
    assert_eq!(header.nuh_temporal_id_plus1, parsed_header.nuh_temporal_id_plus1);
}

#[test]
fn test_emulation_prevention_roundtrip() {
    let sodb = vec![0x00, 0x00, 0x01, 0xaa, 0x00, 0x00, 0x00, 0x00, 0x02, 0xff];
    let with_epb = insert_emulation_prevention_bytes(&sodb);
    assert!(!with_epb.windows(3).any(|w| w[0] == 0 && w[1] == 0 && w[2] <= 1));
    let restored = remove_emulation_prevention_bytes(&with_epb);
    assert_eq!(sodb, restored);
}

#[test]
fn insert_emulation_prevention_bytes_leaves_no_start_code_pattern() {
    let sodb = vec![0x00, 0x00, 0x01, 0xaa, 0x00, 0x00, 0x00, 0x00, 0x02, 0xff];
    let with_epb = insert_emulation_prevention_bytes(&sodb);
    assert_eq!(with_epb, vec![0x00, 0x00, 0x03, 0x01, 0xaa, 0x00, 0x00, 0x03, 0x00, 0x00, 0x03, 0x02, 0xff]);
    assert!(!with_epb.windows(3).any(|w| w[0] == 0 && w[1] == 0 && w[2] <= 2));
    assert_eq!(remove_emulation_prevention_bytes(&with_epb), sodb);
    let zeros = insert_emulation_prevention_bytes(&[0, 0, 0, 0, 0]);
    assert!(!zeros.windows(3).any(|w| w[0] == 0 && w[1] == 0 && w[2] <= 2));
    assert_eq!(remove_emulation_prevention_bytes(&zeros), vec![0, 0, 0, 0, 0]);
}

#[test]
fn parse_all_entries_write_back_the_stream_from_the_first_start_code() {
    let mut stream = vec![0x12, 0x34];
    stream.extend_from_slice(&[0x00, 0x00, 0x00, 0x01, 0x46, 0x01, 0x30]);
    stream.extend_from_slice(&[0x00, 0x00, 0x01, 0x42, 0x01, 0xde, 0xad]);
    let entries = parse_all(&stream).unwrap();
    assert_eq!(entries.len(), 2);
    assert_eq!(entries[0].start_code, StartCode::FourBytes);
    assert_eq!(entries[1].start_code, StartCode::ThreeBytes);
    let written: Vec<u8> = entries.iter().flat_map(|e| e.to_bytes()).collect();
    assert_eq!(written, stream[2..].to_vec());
}

#[test]
fn h265_error_messages_carry_their_values() {
    assert_eq!(Error::DataTooShort.message(), "Data too short");
    assert_eq!(Error::InvalidStartCode(0x0000_0002).message(), "Invalid start code: got 0x00000002");
    assert_eq!(Error::InvalidPicType(5).message(), "Invalid pic_type: 5");
}
