use mediumi::ac3::api::Processor;
use mediumi::ac3::bap::{compute_bap, masktab, BapParams, BNDSZ, BNDTAB};
use mediumi::ac3::error::Error;
use mediumi::ac3::frame::{peek_frame_size, Ac3, AudioMode, BsiExtension, CplStrategy, MantissaWriteAction, SyncInfo};
use mediumi::ac3::mantissa::{parse_mantissas, write_mantissas, GroupedQuantizer, MantissaParams};
use mediumi::bitstream::{BitstreamReader, BitstreamWriter};

fn make_reader(bits: &[(u32, u8)]) -> Vec<u8> {
    let mut w = BitstreamWriter::new();
    for &(val, n) in bits {
        w.write_bits(val, n);
    }
    w.finish()
}

fn unpack_val(gq: &mut GroupedQuantizer, reader: &mut BitstreamReader, bap: u8) -> i32 {
    gq.unpack_with_action(reader, bap).unwrap().0
}

fn hex(s: &str) -> Vec<u8> {
    (0..s.len()).step_by(2).map(|i| u8::from_str_radix(&s[i..i + 2], 16).unwrap()).collect()
}

// A 48 kHz 1/0 frame of 128 bytes: six blocks, the first with new
// exponents, bit allocation and SNR offsets, the others reusing them;
// pointers 6, 3 and 2 for the first three bins, auxiliary data, CRC 0xBEEF.
const FRAME: &str = "0b77123400402d840903fe7cf9f3e7cf9f3e7cf9f3e7cf9f3e7cf9f3e7cf9f0cb7b210fffe007fff003fff801fffc00fffe007fff1c71c71c71c71c71c71c71c71c71c71c71c71c71c71c71c71c71c71c71c71c71c71c71c71c71c71c71c71c71c71c71c71c71c71c71c71c71c71c71c71c71c71c71c71c71c71c71c71c6beef";

fn params(floorcod: u8, csnroffst: u8, fsnroffst: u8) -> BapParams {
    BapParams {
        sdcycod: 2,
        fdcycod: 1,
        sgaincod: 1,
        dbpbcod: 2,
        floorcod,
        csnroffst,
        fsnroffst,
        fgaincod: 4,
        fscod: 1,
    }
}

#[test]
fn test_bap0() {
    let data = make_reader(&[]);
    let mut reader = BitstreamReader::new(&data);
    let mut gq = GroupedQuantizer::new();
    assert_eq!(unpack_val(&mut gq, &mut reader, 0), 0);
}

#[test]
fn test_bap1_group() {
    let data = make_reader(&[(15, 5)]);
    let mut reader = BitstreamReader::new(&data);
    let mut gq = GroupedQuantizer::new();
    assert_eq!(unpack_val(&mut gq, &mut reader, 1), 0);
    assert_eq!(unpack_val(&mut gq, &mut reader, 1), 1);
    assert_eq!(unpack_val(&mut gq, &mut reader, 1), -1);
}

#[test]
fn test_bap1_two_groups() {
    let data = make_reader(&[(26, 5), (0, 5)]);
    let mut reader = BitstreamReader::new(&data);
    let mut gq = GroupedQuantizer::new();
    for _ in 0..3 {
        assert_eq!(unpack_val(&mut gq, &mut reader, 1), 1);
    }
    for _ in 0..3 {
        assert_eq!(unpack_val(&mut gq, &mut reader, 1), -1);
    }
}

#[test]
fn test_bap2_group() {
    let data = make_reader(&[(70, 7)]);
    let mut reader = BitstreamReader::new(&data);
    let mut gq = GroupedQuantizer::new();
    assert_eq!(unpack_val(&mut gq, &mut reader, 2), 0);
    assert_eq!(unpack_val(&mut gq, &mut reader, 2), 2);
    assert_eq!(unpack_val(&mut gq, &mut reader, 2), -2);
}

#[test]
fn test_bap3() {
    let data = make_reader(&[(0, 3), (3, 3), (6, 3)]);
    let mut reader = BitstreamReader::new(&data);
    let mut gq = GroupedQuantizer::new();
    assert_eq!(unpack_val(&mut gq, &mut reader, 3), -3);
    assert_eq!(unpack_val(&mut gq, &mut reader, 3), 0);
    assert_eq!(unpack_val(&mut gq, &mut reader, 3), 3);
}

#[test]
fn test_bap4_group() {
    let data = make_reader(&[(88, 7)]);
    let mut reader = BitstreamReader::new(&data);
    let mut gq = GroupedQuantizer::new();
    assert_eq!(unpack_val(&mut gq, &mut reader, 4), 3);
    assert_eq!(unpack_val(&mut gq, &mut reader, 4), -5);
}

#[test]
fn test_bap5() {
    let data = make_reader(&[(0, 4), (7, 4), (14, 4)]);
    let mut reader = BitstreamReader::new(&data);
    let mut gq = GroupedQuantizer::new();
    assert_eq!(unpack_val(&mut gq, &mut reader, 5), -7);
    assert_eq!(unpack_val(&mut gq, &mut reader, 5), 0);
    assert_eq!(unpack_val(&mut gq, &mut reader, 5), 7);
}

#[test]
fn test_bap6() {
    let data = make_reader(&[(0, 5), (16, 5), (31, 5)]);
    let mut reader = BitstreamReader::new(&data);
    let mut gq = GroupedQuantizer::new();
    assert_eq!(unpack_val(&mut gq, &mut reader, 6), -16);
    assert_eq!(unpack_val(&mut gq, &mut reader, 6), 0);
    assert_eq!(unpack_val(&mut gq, &mut reader, 6), 15);
}

#[test]
fn test_bap15() {
    let data = make_reader(&[(0, 16), (32768, 16)]);
    let mut reader = BitstreamReader::new(&data);
    let mut gq = GroupedQuantizer::new();
    assert_eq!(unpack_val(&mut gq, &mut reader, 15), -32768);
    assert_eq!(unpack_val(&mut gq, &mut reader, 15), 0);
}

#[test]
fn test_mixed_grouped_quantizers() {
    let data = make_reader(&[(13, 5), (62, 7)]);
    let mut reader = BitstreamReader::new(&data);
    let mut gq = GroupedQuantizer::new();
    assert_eq!(unpack_val(&mut gq, &mut reader, 1), 0);
    assert_eq!(unpack_val(&mut gq, &mut reader, 1), 0);
    assert_eq!(unpack_val(&mut gq, &mut reader, 2), 0);
    assert_eq!(unpack_val(&mut gq, &mut reader, 1), 0);
    assert_eq!(unpack_val(&mut gq, &mut reader, 2), 0);
    assert_eq!(unpack_val(&mut gq, &mut reader, 2), 0);
}

#[test]
fn test_parse_mantissas_simple() {
    let data = make_reader(&[(4, 3), (2, 3), (10, 4)]);
    let mut reader = BitstreamReader::new(&data);
    let channels = vec![(vec![3, 3, 5], 3)];
    let params = MantissaParams {
        channels: &channels,
        chincpl: &[false],
        coupling: None,
        lfe: None,
    };
    let result = parse_mantissas(&mut reader, &params).unwrap();
    assert_eq!(result.chmant, vec![vec![1, -1, 3]]);
    assert!(result.cplmant.is_none());
    assert!(result.lfemant.is_none());
}

#[test]
fn test_parse_mantissas_all_bap0() {
    let data = make_reader(&[]);
    let mut reader = BitstreamReader::new(&data);
    let channels = vec![(vec![0, 0, 0, 0], 4)];
    let params = MantissaParams {
        channels: &channels,
        chincpl: &[false],
        coupling: None,
        lfe: None,
    };
    let result = parse_mantissas(&mut reader, &params).unwrap();
    assert_eq!(result.chmant, vec![vec![0, 0, 0, 0]]);
}

#[test]
fn ac3_mantissas_rewrite_reproduces_bits() {
    // Channel pointers 1,1,2,4,3, then a coupling channel (2,1) after the
    // first channel in coupling that takes the groups' remaining values,
    // then effects pointers 5 and 0s.
    let data = make_reader(&[(13, 5), (62, 7), (88, 7), (5, 3), (13, 4)]);
    let mut reader = BitstreamReader::new(&data);
    let channels = vec![(vec![1, 1, 2, 4, 3], 5)];
    let cpl: Vec<u8> = vec![2, 1];
    let lfe: Vec<u8> = vec![5, 0, 0, 0, 0, 0, 0];
    let params = MantissaParams {
        channels: &channels,
        chincpl: &[true],
        coupling: Some((&cpl, 2)),
        lfe: Some(&lfe),
    };
    let result = parse_mantissas(&mut reader, &params).unwrap();
    assert_eq!(result.chmant, vec![vec![0, 0, 0, 3, 2]]);
    assert_eq!(result.cplmant, Some(vec![0, 0]));
    assert_eq!(result.lfemant, Some(vec![6, 0, 0, 0, 0, 0, 0]));
    assert_eq!(result.write_actions.len(), 14);
    assert_eq!(result.write_actions[5], MantissaWriteAction::Skip);
    assert_eq!(result.write_actions[7], MantissaWriteAction::WriteSingle { code: 13, bits: 4 });
    assert_eq!(result.write_actions[8], MantissaWriteAction::NoOp);
    assert_eq!(result.write_actions[0], MantissaWriteAction::WriteGroup { code: 13, bits: 5 });
    assert_eq!(result.write_actions[1], MantissaWriteAction::Skip);
    let mut w = BitstreamWriter::new();
    write_mantissas(&mut w, &result);
    assert_eq!(w.finish(), data);
}

#[test]
fn ac3_unpack_invalid_bap() {
    let data = make_reader(&[(0, 8)]);
    let mut reader = BitstreamReader::new(&data);
    let mut gq = GroupedQuantizer::new();
    assert!(matches!(gq.unpack_with_action(&mut reader, 16), Err(Error::InvalidState(_))));
}

#[test]
fn ac3_unpack_data_too_short() {
    let data: Vec<u8> = vec![];
    let mut reader = BitstreamReader::new(&data);
    let mut gq = GroupedQuantizer::new();
    assert!(matches!(gq.unpack_with_action(&mut reader, 3), Err(Error::Bitstream(_))));
}

#[test]
fn test_masktab_one_bin_per_band() {
    for bin in 0..28 {
        assert_eq!(masktab(bin), bin, "bin {}", bin);
    }
}

#[test]
fn test_masktab_multi_bin_bands() {
    assert_eq!(masktab(28), 28);
    assert_eq!(masktab(30), 28);
    assert_eq!(masktab(31), 29);
    assert_eq!(masktab(33), 29);
}

#[test]
fn test_masktab_boundaries() {
    for band in 0..50 {
        let start = BNDTAB[band];
        let end = BNDTAB[band] + BNDSZ[band];
        assert_eq!(masktab(start), band, "band {} start", band);
        assert_eq!(masktab(end - 1), band, "band {} end", band);
    }
}

#[test]
fn test_compute_bap_high_snr() {
    let exps = vec![0u8; 10];
    let params = BapParams {
        sdcycod: 0,
        fdcycod: 0,
        sgaincod: 0,
        dbpbcod: 0,
        floorcod: 0,
        csnroffst: 63,
        fsnroffst: 15,
        fgaincod: 0,
        fscod: 0,
    };
    let bap = compute_bap(&exps, 30, 40, &params, None, None);
    for (i, &b) in bap.iter().enumerate() {
        assert!(b > 0, "bin {} expected bap>0, got 0", i);
        assert!(b <= 15, "bin {} bap out of range: {}", i, b);
    }
    assert_eq!(bap, vec![15u8; 10]);
}

#[test]
fn test_compute_bap_zero_energy() {
    let exps = vec![24u8; 10];
    let params = BapParams {
        sdcycod: 0,
        fdcycod: 0,
        sgaincod: 0,
        dbpbcod: 0,
        floorcod: 7,
        csnroffst: 15,
        fsnroffst: 0,
        fgaincod: 0,
        fscod: 0,
    };
    let bap = compute_bap(&exps, 0, 10, &params, None, None);
    for (i, &b) in bap.iter().enumerate() {
        assert_eq!(b, 0, "bin {} expected bap=0, got {}", i, b);
    }
}

#[test]
fn test_compute_bap_empty() {
    let params = BapParams {
        sdcycod: 0,
        fdcycod: 0,
        sgaincod: 0,
        dbpbcod: 0,
        floorcod: 0,
        csnroffst: 15,
        fsnroffst: 0,
        fgaincod: 0,
        fscod: 0,
    };
    let bap = compute_bap(&[], 0, 0, &params, None, None);
    assert!(bap.is_empty());
}

#[test]
fn test_compute_bap_full_range() {
    let exps = vec![5u8; 253];
    let params = BapParams {
        sdcycod: 2,
        fdcycod: 1,
        sgaincod: 1,
        dbpbcod: 2,
        floorcod: 4,
        csnroffst: 31,
        fsnroffst: 7,
        fgaincod: 4,
        fscod: 1,
    };
    let bap = compute_bap(&exps, 0, 253, &params, None, None);
    assert_eq!(bap.len(), 253);
    let mut expected = vec![14u8; 85];
    expected.extend(vec![13u8; 168]);
    assert_eq!(bap, expected);
}

#[test]
fn test_compute_bap_coupling() {
    let exps = vec![8u8; 120];
    let params = BapParams {
        sdcycod: 2,
        fdcycod: 1,
        sgaincod: 1,
        dbpbcod: 2,
        floorcod: 4,
        csnroffst: 31,
        fsnroffst: 7,
        fgaincod: 4,
        fscod: 1,
    };
    let bap = compute_bap(&exps, 37, 157, &params, None, None);
    assert_eq!(bap.len(), 120);
    let mut expected = vec![14u8; 48];
    expected.extend(vec![13u8; 72]);
    assert_eq!(bap, expected);
}

#[test]
fn ac3_compute_bap_coupling_leak() {
    let exps = vec![8u8; 120];
    let bap = compute_bap(&exps, 37, 157, &params(4, 31, 7), None, Some((3, 5)));
    let mut expected = vec![10u8; 12];
    expected.extend(vec![11u8; 36]);
    expected.extend(vec![12u8; 72]);
    assert_eq!(bap, expected);
}

#[test]
fn ac3_compute_bap_varied_exponents() {
    let exps: Vec<u8> = (0..40).map(|i| ((i * 7) % 25) as u8).collect();
    let bap = compute_bap(&exps, 0, 40, &params(4, 31, 7), None, None);
    assert_eq!(
        bap,
        vec![14, 14, 8, 0, 14, 8, 0, 0, 14, 7, 0, 14, 8, 0, 0, 14, 7, 0, 14, 8, 0, 0, 14, 7, 0, 14, 8, 0, 0, 14, 7, 0, 0, 12, 3, 0, 14, 8, 0, 0]
    );
}

#[test]
fn ac3_compute_bap_delta_segments() {
    let exps: Vec<u8> = (0..40).map(|i| ((i * 7) % 25) as u8).collect();
    let segs = [(2u8, 3u8, 7u8), (5, 2, 0)];
    let bap = compute_bap(&exps, 0, 40, &params(4, 31, 7), Some(&segs), None);
    assert_eq!(
        bap,
        vec![14, 14, 7, 0, 11, 8, 0, 0, 14, 7, 0, 15, 8, 0, 0, 14, 7, 0, 14, 8, 0, 0, 14, 7, 0, 14, 8, 0, 0, 14, 7, 0, 0, 12, 3, 0, 14, 8, 0, 0]
    );
}

#[test]
fn ac3_compute_bap_effects_channel() {
    let exps = vec![3u8, 9, 1, 0, 12, 5, 7];
    let bap = compute_bap(&exps, 0, 7, &params(4, 31, 7), None, None);
    assert_eq!(bap, vec![14, 13, 14, 14, 1, 11, 10]);
}

#[test]
fn ac3_compute_bap_past_256_is_zero() {
    let exps = vec![0u8; 300];
    let bap = compute_bap(&exps, 0, 262, &params(4, 31, 7), None, None);
    assert_eq!(bap, vec![0u8; 262]);
}

#[test]
fn ac3_peek_frame_size() {
    let data = hex(FRAME);
    assert_eq!(peek_frame_size(&data), Some(128));
    assert_eq!(peek_frame_size(&[0x0B, 0x77, 0, 0, 0x40 | 37]), Some(2788));
    assert_eq!(peek_frame_size(&[0x0B, 0x77, 0, 0, 0x80 | 1]), Some(192));
    assert_eq!(peek_frame_size(&[0x0B, 0x77, 0, 0, 0xC0]), None);
    assert_eq!(peek_frame_size(&[0x0B, 0x77, 0, 0, 38]), None);
    assert_eq!(peek_frame_size(&[0x0B, 0x78, 0, 0, 0]), None);
    assert_eq!(peek_frame_size(&[0x0B, 0x77, 0, 0]), None);
}

#[test]
fn ac3_sync_info_frame_size() {
    let si = SyncInfo { syncword: 0x0B77, crc1: 0, fscod: 2, frmsizecod: 18 };
    assert_eq!(si.frame_size(), Some(960));
    let si = SyncInfo { syncword: 0x0B77, crc1: 0, fscod: 3, frmsizecod: 0 };
    assert_eq!(si.frame_size(), None);
}

#[test]
fn ac3_nfchans() {
    assert_eq!(AudioMode::Center.nfchans(), 1);
    assert_eq!(AudioMode::Stereo { dsurmod: 0 }.nfchans(), 2);
    assert_eq!(AudioMode::FiveChannel { cmixlev: 0, surmixlev: 0 }.nfchans(), 5);
    assert_eq!(
        AudioMode::DualMono { dialnorm2: 0, compr2: None, langcod2: None, audprodi2: None }.nfchans(),
        2
    );
}

#[test]
fn ac3_parse_frame_fields() {
    let data = hex(FRAME);
    let f = Ac3::parse(&data).unwrap();
    assert_eq!(f.si.syncword, 0x0B77);
    assert_eq!(f.si.crc1, 0x1234);
    assert_eq!(f.si.frame_size(), Some(128));
    assert_eq!(f.bsi.bsid, 8);
    assert_eq!(f.bsi.acmod, 1);
    assert!(matches!(f.bsi.audio_mode, AudioMode::Center));
    assert_eq!(f.bsi.dialnorm, 27);
    assert!(f.bsi.origbs);
    assert!(matches!(f.bsi.ext, BsiExtension::Standard { timecod1: None, timecod2: None }));
    assert_eq!(f.ab.len(), 6);
    assert!(matches!(f.ab[0].cpl.strategy, CplStrategy::NotInUse));
    assert!(matches!(f.ab[1].cpl.strategy, CplStrategy::Reuse));
    assert_eq!(f.ab[0].exponent_strategy.chexpstr, vec![1]);
    assert_eq!(f.ab[0].exponent_strategy.chbwcod, vec![Some(0)]);
    let fb = f.ab[0].fb_ch_exps.channels[0].as_ref().unwrap();
    assert_eq!(fb.abs_exp, 15);
    assert_eq!(fb.exps.len(), 24);
    let snr = f.ab[0].bapi.snroffst.as_ref().unwrap();
    assert_eq!(snr.csnroffst, 25);
    assert_eq!(snr.fgaincod, vec![4]);
    assert_eq!(f.ab[0].mantissas.chmant[0].len(), 73);
    assert_eq!(&f.ab[0].mantissas.chmant[0][..3], &[15, 4, 3]);
    assert_eq!(f.ab[3].mantissas.chmant[0][..3], f.ab[0].mantissas.chmant[0][..3]);
    assert_eq!(f.ec.crc2, 0xBEEF);
    assert!(!f.ec.crcrsv);
    assert_eq!(f.aux.last_byte_bits, 3);
    assert_eq!(f.aux.auxdata.len(), 74);
}

#[test]
fn ac3_frame_roundtrip() {
    let data = hex(FRAME);
    let f = Ac3::parse(&data).unwrap();
    assert_eq!(f.to_bytes().unwrap(), data);
}

#[test]
fn ac3_processor_roundtrip() {
    let mut data = hex(FRAME);
    data.extend(hex(FRAME));
    let p = Processor::parse(&data).unwrap();
    assert_eq!(p.ac3_frames.len(), 2);
    assert_eq!(p.to_bytes().unwrap(), data);
}

#[test]
fn ac3_processor_errors() {
    let data = hex(FRAME);
    assert!(matches!(Processor::parse(&data[..100]), Err(Error::DataTooShort)));
    let mut bad = data.clone();
    bad[1] = 0x78;
    assert!(matches!(Processor::parse(&bad), Err(Error::InvalidFrameSize)));
    let empty = Processor::parse(&[]).unwrap();
    assert!(empty.ac3_frames.is_empty());
}

#[test]
fn ac3_parse_too_short() {
    let data = hex(FRAME);
    assert!(matches!(Ac3::parse(&data[..4]), Err(Error::Bitstream(_))));
    assert!(matches!(Ac3::parse(&data[..8]), Err(Error::Bitstream(_))));
}

#[test]
fn ac3_truncated_frame_keeps_blocks_read() {
    // Cut after the second block: fewer than 5 bits remain for the third.
    let data = hex(FRAME);
    let f = Ac3::parse(&data[..40]).unwrap();
    assert_eq!(f.ab.len(), 2);
    assert!(f.aux.auxdata.is_empty());
    assert_eq!(f.ec.crc2, 0);
}

#[test]
fn ac3_error_messages() {
    assert_eq!(Error::DataTooShort.message(), "AC-3 data too short");
    assert_eq!(Error::InvalidFrameSize.message(), "Invalid frame size");
}

#[test]
fn frame_shorter_than_sync_info_is_a_bitstream_error() {
    assert!(matches!(Ac3::parse(&[0x0B, 0x77, 0x00, 0x00]), Err(Error::Bitstream(_))));
    assert!(matches!(Ac3::parse(&[]), Err(Error::Bitstream(_))));
}

#[test]
fn inverted_coupling_range_is_refused() {
    let data = make_reader(&[
        // sync information
        (0x0B77, 16), (0, 16), (0, 2), (0, 6),
        // bit stream information: bsid 8, bsmod 0, acmod 2 (stereo), dsurmod,
        // lfeon, dialnorm, no compr / langcod / audprodi, copyright, original,
        // no time codes, no additional information
        (8, 5), (0, 3), (2, 3), (0, 2), (0, 1), (0, 5), (0, 1), (0, 1), (0, 1),
        (0, 1), (0, 1), (0, 1), (0, 1), (0, 1),
        // audio block: blksw, dithflag, dynrnge, cplstre, cplinu, chincpl,
        // phsflginu, cplbegf 15, cplendf 0
        (0, 2), (0, 2), (0, 1), (1, 1), (1, 1), (0b11, 2), (0, 1), (15, 4), (0, 4),
        (0, 32), (0, 32),
    ]);
    match Ac3::parse(&data) {
        Err(Error::InvalidState(m)) => assert_eq!(m, "invalid coupling range: ncplsubnd would be negative"),
        other => panic!("unexpected result: {:?}", other.map(|_| ())),
    }
}

#[test]
fn frame_of_only_sync_and_stream_information_parses() {
    let data = make_reader(&[
        (0x0B77, 16), (0x1234, 16), (1, 2), (4, 6),
        // bsid 8, bsmod 0, acmod 5 (3/2), cmixlev, surmixlev, lfeon, dialnorm,
        // no compr / langcod / audprodi, copyright, original, no time codes,
        // no additional information
        (8, 5), (0, 3), (5, 3), (1, 2), (2, 2), (0, 1), (27, 5), (0, 1), (0, 1), (0, 1),
        (1, 1), (0, 1), (0, 1), (0, 1), (0, 1),
    ]);
    assert_eq!(data.len(), 9);
    let f = Ac3::parse(&data).unwrap();
    assert_eq!(f.ab.len(), 0);
    assert_eq!(f.si.crc1, 0x1234);
    assert_eq!(f.bsi.acmod, 5);
    assert_eq!(f.bsi.dialnorm, 27);
    assert!(f.bsi.copyrightb);
}

#[test]
fn empty_stream_parses_to_no_frames() {
    let p = Processor::parse(&[]).unwrap();
    assert_eq!(p.ac3_frames.len(), 0);
    assert_eq!(p.to_bytes().unwrap(), Vec::<u8>::new());
}

#[test]
fn ac3_error_messages_carry_their_values() {
    assert_eq!(Error::InvalidSyncword(0x0B78).message(), "Invalid syncword: expected 0x0B77, got 0x0B78");
    assert_eq!(Error::InvalidAcmod(9).message(), "Invalid acmod: 9");
    assert_eq!(Error::InvalidState("bai missing").message(), "Invalid state: bai missing");
    assert_eq!(
        Error::Bitstream(mediumi::bitstream::Error::DataTooShort(16, 3)).message(),
        "Bitstream error: Data Too Short: expected at least 16 bytes, got 3 bytes"
    );
}
