use mediumi::bitstream::{BitstreamReader, BitstreamWriter};

#[test]
fn bitstream_test_read_bits() {
    let data = &[0b10101010, 0b11111111];
    let mut reader = BitstreamReader::new(data);
    let r_1 = reader.read_bits(4).unwrap();
    assert_eq!(r_1, 0b1010);
    assert_eq!(reader.bit_offset(), 4);
    assert_eq!(reader.byte_offset(), 0);

    let r_2 = reader.read_bits(5).unwrap();
    assert_eq!(r_2, 0b10101);
    assert_eq!(reader.bit_offset(), 1);
    assert_eq!(reader.byte_offset(), 1);
}

#[test]
fn bitstream_test_read_bit() {
    let data = &[0b10101010, 0b11111111];
    let mut reader = BitstreamReader::new(data);
    let r_1 = reader.read_bit().unwrap();
    assert!(r_1);
    assert_eq!(reader.bit_offset(), 1);
    assert_eq!(reader.byte_offset(), 0);

    let r_2 = reader.read_bit().unwrap();
    assert!(!r_2);
    assert_eq!(reader.bit_offset(), 2);
    assert_eq!(reader.byte_offset(), 0);

    for _ in 0..7 {
        let _ = reader.read_bit().unwrap();
    }
    assert_eq!(reader.bit_offset(), 1);
    assert_eq!(reader.byte_offset(), 1);
}

#[test]
fn test_read_ue() {
    let data = &[0b10101010, 0b11111111];
    let mut reader = BitstreamReader::new(data);
    assert_eq!(reader.read_ue().unwrap(), 0);
    assert_eq!(reader.read_ue().unwrap(), 1);
    assert_eq!(reader.read_ue().unwrap(), 0);
    assert_eq!(reader.read_ue().unwrap(), 1);
}

#[test]
fn test_read_se() {
    let data = &[0b01100100, 0b00101000];
    let mut reader = BitstreamReader::new(data);
    assert_eq!(reader.read_se().unwrap(), -1);
    assert_eq!(reader.read_se().unwrap(), 2);
    assert_eq!(reader.read_se().unwrap(), -2);
}

#[test]
fn bitstream_test_write_bits() {
    let mut writer = BitstreamWriter::new();
    writer.write_bits(0b0011_1111, 6);
    writer.write_bits(0b0000_1111, 4);
    let bytes = writer.finish();
    assert_eq!(bytes, vec![0b1111_1111, 0b1100_0000]);
}

#[test]
fn bitstream_test_write_bit() {
    let mut writer = BitstreamWriter::new();
    writer.write_bool(true);
    let bytes = writer.finish();
    assert_eq!(bytes, vec![0b1000_0000]);
}

#[test]
fn test_write_ue() {
    let mut writer = BitstreamWriter::new();
    writer.write_ue(0);
    writer.write_ue(1);
    writer.write_ue(2);
    writer.write_ue(3);
    let bytes = writer.finish();
    assert_eq!(bytes, vec![0b1010_0110, 0b0100_0000]);
}

#[test]
fn test_write_se() {
    let mut writer = BitstreamWriter::new();
    writer.write_se(0);
    writer.write_se(1);
    writer.write_se(-1);
    writer.write_se(2);
    writer.write_se(-2);
    let bytes = writer.finish();
    assert_eq!(bytes, vec![0b1010_0110, 0b0100_0010, 0b1000_0000]);
}

#[test]
fn test_ue_roundtrip() {
    let mut writer = BitstreamWriter::new();
    let values: [u32; 4] = [0xDE, 0xAD, 0xBE, 0xEF];
    for &v in &values {
        writer.write_ue(v);
    }
    let bytes = writer.finish();

    let mut reader = BitstreamReader::new(&bytes);
    for &v in &values {
        assert_eq!(reader.read_ue().unwrap(), v);
    }
}

#[test]
fn test_se_roundtrip() {
    let mut writer = BitstreamWriter::new();
    let values: [i32; 4] = [0xDE, 0xAD, 0xBE, 0xEF];
    for &v in &values {
        writer.write_se(v);
    }
    let bytes = writer.finish();

    let mut reader = BitstreamReader::new(&bytes);
    for &v in &values {
        assert_eq!(reader.read_se().unwrap(), v);
    }
}

#[test]
fn bitstream_read_past_end_is_refused() {
    let data = &[0xFFu8];
    let mut reader = BitstreamReader::new(data);
    assert!(reader.read_bits(9).is_err());
    assert_eq!(reader.read_bits(8).unwrap(), 0xFF);
    assert!(reader.read_bit().is_err());
}

#[test]
fn bitstream_ue_of_large_values_roundtrips() {
    let mut writer = BitstreamWriter::new();
    writer.write_ue(u32::MAX - 1);
    writer.write_se(i32::MAX);
    writer.write_se(i32::MIN + 1);
    let bytes = writer.finish();
    let mut reader = BitstreamReader::new(&bytes);
    assert_eq!(reader.read_ue().unwrap(), u32::MAX - 1);
    assert_eq!(reader.read_se().unwrap(), i32::MAX);
    assert_eq!(reader.read_se().unwrap(), i32::MIN + 1);
}
