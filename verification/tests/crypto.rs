use mediumi::crypto::cbc::{apply_cbcs_subsamples, Aes128CbcPatternCipher};
use mediumi::crypto::cenc::{apply_cenc_subsamples, derive_per_sample_iv, encrypted_block_count, Subsample};
use mediumi::crypto::ctr::Aes128CtrCipher;
use mediumi::crypto::encrypter::Iv;
use mediumi::crypto::error::Error;
use mediumi::crypto::media::{sample_ranges, Traf, Trun};
use mediumi::crypto::pssh::{Pssh, PsshInput};
use mediumi::crypto::subsample::avc::{self, ParamSets};
use mediumi::crypto::subsample::{self, CodecKind, MediaKind};
use mediumi::crypto::track::parse_avcc_params;
use mediumi::h264::nal::NalUnit;
use mediumi::h264::pps::Pps;
use mediumi::h264::sps::{PicOrderCnt, Sps};

const KEY: [u8; 16] = [
    0x2b, 0x7e, 0x15, 0x16, 0x28, 0xae, 0xd2, 0xa6, 0xab, 0xf7, 0x15, 0x88, 0x09, 0xcf, 0x4f, 0x3c,
];
const PT1: [u8; 16] = [
    0x6b, 0xc1, 0xbe, 0xe2, 0x2e, 0x40, 0x9f, 0x96, 0xe9, 0x3d, 0x7e, 0x11, 0x73, 0x93, 0x17, 0x2a,
];
const PT2: [u8; 16] = [
    0xae, 0x2d, 0x8a, 0x57, 0x1e, 0x03, 0xac, 0x9c, 0x9e, 0xb7, 0x6f, 0xac, 0x45, 0xaf, 0x8e, 0x51,
];
const PT3: [u8; 16] = [
    0x30, 0xc8, 0x1c, 0x46, 0xa3, 0x5c, 0xe4, 0x11, 0xe5, 0xfb, 0xc1, 0x19, 0x1a, 0x0a, 0x52, 0xef,
];
const PT4: [u8; 16] = [
    0xf6, 0x9f, 0x24, 0x45, 0xdf, 0x4f, 0x9b, 0x17, 0xad, 0x2b, 0x41, 0x7b, 0xe6, 0x6c, 0x37, 0x10,
];

// AES-128-CTR vectors.
const CTR0: [u8; 16] = [
    0xf0, 0xf1, 0xf2, 0xf3, 0xf4, 0xf5, 0xf6, 0xf7, 0xf8, 0xf9, 0xfa, 0xfb, 0xfc, 0xfd, 0xfe, 0xff,
];
const CTR_CT1: [u8; 16] = [
    0x87, 0x4d, 0x61, 0x91, 0xb6, 0x20, 0xe3, 0x26, 0x1b, 0xef, 0x68, 0x64, 0x99, 0x0d, 0xb6, 0xce,
];
const CTR_CT2: [u8; 16] = [
    0x98, 0x06, 0xf6, 0x6b, 0x79, 0x70, 0xfd, 0xff, 0x86, 0x17, 0x18, 0x7b, 0xb9, 0xff, 0xfd, 0xff,
];
const CTR_CT3: [u8; 16] = [
    0x5a, 0xe4, 0xdf, 0x3e, 0xdb, 0xd5, 0xd3, 0x5e, 0x5b, 0x4f, 0x09, 0x02, 0x0d, 0xb0, 0x3e, 0xab,
];
const CTR_CT4: [u8; 16] = [
    0x1e, 0x03, 0x1d, 0xda, 0x2f, 0xbe, 0x03, 0xd1, 0x79, 0x21, 0x70, 0xa0, 0xf3, 0x00, 0x9c, 0xee,
];

// AES-128-CBC vectors.
const IV: [u8; 16] = [
    0x00, 0x01, 0x02, 0x03, 0x04, 0x05, 0x06, 0x07, 0x08, 0x09, 0x0a, 0x0b, 0x0c, 0x0d, 0x0e, 0x0f,
];
const CBC_CT1: [u8; 16] = [
    0x76, 0x49, 0xab, 0xac, 0x81, 0x19, 0xb2, 0x46, 0xce, 0xe9, 0x8e, 0x9b, 0x12, 0xe9, 0x19, 0x7d,
];
const CBC_CT2: [u8; 16] = [
    0x50, 0x86, 0xcb, 0x9b, 0x50, 0x72, 0x19, 0xee, 0x95, 0xdb, 0x11, 0x3a, 0x91, 0x76, 0x78, 0xb2,
];
const CBC_CT3: [u8; 16] = [
    0x73, 0xbe, 0xd6, 0xb8, 0xe3, 0xc1, 0x74, 0x3b, 0x71, 0x16, 0xe6, 0x9e, 0x22, 0x22, 0x95, 0x16,
];
const CBC_CT4: [u8; 16] = [
    0x3f, 0xf1, 0xca, 0xa1, 0x68, 0x1f, 0xac, 0x09, 0x12, 0x0e, 0xca, 0x30, 0x75, 0x86, 0xe1, 0xa7,
];

fn concat(blocks: &[[u8; 16]]) -> Vec<u8> {
    blocks.iter().flat_map(|b| b.iter().copied()).collect()
}

#[test]
fn encrypt_matches_nist_vector() {
    let mut buf = concat(&[PT1, PT2, PT3, PT4]);
    Aes128CtrCipher::new(&KEY, &CTR0).apply_keystream(&mut buf);
    assert_eq!(buf, concat(&[CTR_CT1, CTR_CT2, CTR_CT3, CTR_CT4]));
}

#[test]
fn decrypt_matches_nist_vector() {
    let mut buf = concat(&[CTR_CT1, CTR_CT2, CTR_CT3, CTR_CT4]);
    Aes128CtrCipher::new(&KEY, &CTR0).apply_keystream(&mut buf);
    assert_eq!(buf, concat(&[PT1, PT2, PT3, PT4]));
}

#[test]
fn split_keystream_calls_match_single_call() {
    let plain = concat(&[PT1, PT2, PT3, PT4]);

    let mut whole = plain.clone();
    Aes128CtrCipher::new(&KEY, &CTR0).apply_keystream(&mut whole);

    let mut piecewise = plain.clone();
    let mut cipher = Aes128CtrCipher::new(&KEY, &CTR0);
    let (a, b) = piecewise.split_at_mut(19);
    cipher.apply_keystream(a);
    cipher.apply_keystream(b);

    assert_eq!(piecewise, whole);
    assert_eq!(piecewise, concat(&[CTR_CT1, CTR_CT2, CTR_CT3, CTR_CT4]));
}

#[test]
fn full_cbc_matches_nist_vector() {
    let mut buf = concat(&[PT1, PT2, PT3, PT4]);
    Aes128CbcPatternCipher::new(&KEY).apply_pattern(&IV, 0, 0, &mut buf);
    assert_eq!(buf, concat(&[CBC_CT1, CBC_CT2, CBC_CT3, CBC_CT4]));
}

#[test]
fn pattern_1_9_encrypts_only_first_of_ten() {
    let plain = concat(&[PT1, PT2, PT3, PT4, PT1, PT2, PT3, PT4, PT1, PT2]);
    let mut buf = plain.clone();
    Aes128CbcPatternCipher::new(&KEY).apply_pattern(&IV, 1, 9, &mut buf);
    assert_eq!(&buf[0..16], &CBC_CT1);
    assert_eq!(&buf[16..], &plain[16..]);
}

#[test]
fn pattern_chaining_skips_skip_blocks() {
    let mut buf = concat(&[PT1, PT2, PT3, PT4]);
    Aes128CbcPatternCipher::new(&KEY).apply_pattern(&IV, 1, 1, &mut buf);

    // One CBC block of PT3 chained from CT1.
    let mut expected_block2 = PT3;
    Aes128CbcPatternCipher::new(&KEY).apply_pattern(&CBC_CT1, 0, 0, &mut expected_block2);
    assert_eq!(&buf[0..16], &CBC_CT1);
    assert_eq!(&buf[16..32], &PT2);
    assert_eq!(&buf[32..48], &expected_block2);
    assert_eq!(&buf[48..64], &PT4);
}

#[test]
fn remainder_left_clear() {
    let mut buf = PT1.to_vec();
    buf.push(0xAB);
    Aes128CbcPatternCipher::new(&KEY).apply_pattern(&IV, 0, 0, &mut buf);
    assert_eq!(&buf[0..16], &CBC_CT1);
    assert_eq!(buf[16], 0xAB);
}

#[test]
fn sub_block_span_fully_clear() {
    let mut buf = [0x11u8; 15];
    Aes128CbcPatternCipher::new(&KEY).apply_pattern(&IV, 0, 0, &mut buf);
    assert_eq!(buf, [0x11u8; 15]);
}

#[test]
fn cbcs_subsamples_spans_restart_from_constant_iv() {
    let mut buf = Vec::new();
    buf.extend_from_slice(&PT1);
    buf.extend_from_slice(&[0xCC; 8]);
    buf.extend_from_slice(&PT1);
    let subs = [Subsample { clear: 0, encrypted: 16 }, Subsample { clear: 8, encrypted: 16 }];
    let cipher = Aes128CbcPatternCipher::new(&KEY);
    apply_cbcs_subsamples(&cipher, &IV, 0, 0, &subs, &mut buf).unwrap();
    assert_eq!(&buf[0..16], &CBC_CT1);
    assert_eq!(&buf[16..24], &[0xCC; 8]);
    assert_eq!(&buf[24..40], &CBC_CT1);
}

#[test]
fn empty_subsamples_is_full_sample() {
    let mut via_empty = concat(&[PT1, PT2]);
    let cipher = Aes128CbcPatternCipher::new(&KEY);
    apply_cbcs_subsamples(&cipher, &IV, 0, 0, &[], &mut via_empty).unwrap();

    let mut via_direct = concat(&[PT1, PT2]);
    cipher.apply_pattern(&IV, 0, 0, &mut via_direct);
    assert_eq!(via_empty, via_direct);
    assert_eq!(via_empty, concat(&[CBC_CT1, CBC_CT2]));
}

#[test]
fn cbc_byte_mismatch_rejected_and_buf_untouched() {
    let plain = [0xAAu8; 10];
    let mut buf = plain;
    let subs = [Subsample { clear: 5, encrypted: 6 }];
    let cipher = Aes128CbcPatternCipher::new(&KEY);
    let r = apply_cbcs_subsamples(&cipher, &IV, 1, 9, &subs, &mut buf);
    assert!(matches!(r, Err(Error::SubsampleByteMismatch { expected: 10, actual: 11 })));
    assert_eq!(buf, plain);
}

#[test]
fn empty_subsamples_encrypts_whole_buffer() {
    let key = [0x42u8; 16];
    let iv = [0x13u8; 16];
    let plain: [u8; 64] = std::array::from_fn(|i| i as u8);

    let mut via_empty = plain;
    apply_cenc_subsamples(&key, &iv, &[], &mut via_empty).unwrap();

    let mut via_direct = plain;
    Aes128CtrCipher::new(&key, &iv).apply_keystream(&mut via_direct);

    assert_eq!(via_empty, via_direct);
    assert_ne!(via_empty, plain);
}

#[test]
fn clear_spans_untouched_keystream_continuous() {
    let key = [0x01u8; 16];
    let iv = [0x02u8; 16];
    let plain: [u8; 16] = std::array::from_fn(|i| (i + 1) as u8);

    let subs = [Subsample { clear: 5, encrypted: 3 }, Subsample { clear: 4, encrypted: 4 }];
    let mut buf = plain;
    apply_cenc_subsamples(&key, &iv, &subs, &mut buf).unwrap();

    assert_eq!(&buf[0..5], &plain[0..5]);
    assert_eq!(&buf[8..12], &plain[8..12]);
    assert_ne!(&buf[5..8], &plain[5..8]);
    assert_ne!(&buf[12..16], &plain[12..16]);

    let mut continuous = [0u8; 7];
    continuous[0..3].copy_from_slice(&plain[5..8]);
    continuous[3..7].copy_from_slice(&plain[12..16]);
    Aes128CtrCipher::new(&key, &iv).apply_keystream(&mut continuous);
    assert_eq!(&buf[5..8], &continuous[0..3]);
    assert_eq!(&buf[12..16], &continuous[3..7]);
}

#[test]
fn cenc_byte_mismatch_rejected_and_buf_untouched() {
    let key = [0u8; 16];
    let iv = [0u8; 16];
    let plain = [0xAAu8; 10];
    let mut buf = plain;
    let subs = [Subsample { clear: 5, encrypted: 6 }];

    let r = apply_cenc_subsamples(&key, &iv, &subs, &mut buf);
    assert!(matches!(r, Err(Error::SubsampleByteMismatch { expected: 10, actual: 11 })));
    assert_eq!(buf, plain);
}

#[test]
fn per_sample_iv_counter_8byte() {
    let base = Iv::Bytes8([0u8; 8]);
    assert_eq!(derive_per_sample_iv(&base, 0, 0), [0, 0, 0, 0, 0, 0, 0, 0, 0, 0, 0, 0, 0, 0, 0, 0]);
    assert_eq!(derive_per_sample_iv(&base, 257, 0), [0, 0, 0, 0, 0, 0, 1, 1, 0, 0, 0, 0, 0, 0, 0, 0]);
}

#[test]
fn per_sample_iv_adds_to_base_high_8() {
    let base = Iv::Bytes8([0, 0, 0, 0, 0, 0, 0, 10]);
    let iv = derive_per_sample_iv(&base, 5, 0);
    assert_eq!(&iv[0..8], &[0, 0, 0, 0, 0, 0, 0, 15]);
    assert_eq!(&iv[8..16], &[0u8; 8]);
}

#[test]
fn derive_16_adds_block_offset_128bit() {
    let base = Iv::Bytes16([0u8; 16]);
    assert_eq!(derive_per_sample_iv(&base, 0, 0), [0u8; 16]);
    assert_eq!(derive_per_sample_iv(&base, 0, 5), [0, 0, 0, 0, 0, 0, 0, 0, 0, 0, 0, 0, 0, 0, 0, 5]);
}

#[test]
fn derive_16_low_overflow_carries_to_high() {
    let mut b = [0u8; 16];
    b[8..16].copy_from_slice(&u64::MAX.to_be_bytes());
    let base = Iv::Bytes16(b);
    let iv = derive_per_sample_iv(&base, 0, 1);
    assert_eq!(&iv[0..8], &[0, 0, 0, 0, 0, 0, 0, 1]);
    assert_eq!(&iv[8..16], &[0u8; 8]);
}

#[test]
fn derive_16_nonce_preserved_without_overflow() {
    let mut b = [0u8; 16];
    b[0..8].copy_from_slice(&[0xDE, 0xAD, 0xBE, 0xEF, 0x01, 0x02, 0x03, 0x04]);
    let base = Iv::Bytes16(b);
    let iv = derive_per_sample_iv(&base, 0, 123);
    assert_eq!(&iv[0..8], &[0xDE, 0xAD, 0xBE, 0xEF, 0x01, 0x02, 0x03, 0x04]);
    assert_eq!(&iv[8..16], &123u64.to_be_bytes());
}

#[test]
fn encrypted_block_count_cases() {
    assert_eq!(encrypted_block_count(&[], 0), 0);
    assert_eq!(encrypted_block_count(&[], 1), 1);
    assert_eq!(encrypted_block_count(&[], 16), 1);
    assert_eq!(encrypted_block_count(&[], 17), 2);
    let subs = [Subsample { clear: 5, encrypted: 100 }, Subsample { clear: 5, encrypted: 200 }];
    assert_eq!(encrypted_block_count(&subs, 310), 19);
}

/// `[length BE (length_size)][nal_header][body...]`
fn lp_nal(length_size: u8, nal_type: u8, body_len: usize) -> Vec<u8> {
    let mut nal = Vec::new();
    let header = 0x60 | (nal_type & 0x1F);
    let total = 1 + body_len;
    let prefix = (total as u32).to_be_bytes();
    nal.extend_from_slice(&prefix[4 - length_size as usize..]);
    nal.push(header);
    nal.extend(std::iter::repeat(0xAAu8).take(body_len));
    nal
}

/// A length-prefixed NAL unit with the given header byte and body.
fn lp_nal_with(length_size: u8, header: u8, body: &[u8]) -> Vec<u8> {
    let mut nal = Vec::new();
    let prefix = ((1 + body.len()) as u32).to_be_bytes();
    nal.extend_from_slice(&prefix[4 - length_size as usize..]);
    nal.push(header);
    nal.extend_from_slice(body);
    nal
}

#[test]
fn invalid_length_size() {
    assert!(matches!(avc::plan(&[0u8; 4], 3, &mut ParamSets::default()), Err(Error::InvalidLengthSize(3))));
}

#[test]
fn non_vcl_only_is_fully_clear() {
    let mut sample = Vec::new();
    sample.extend(lp_nal(4, 7, 10));
    sample.extend(lp_nal(4, 8, 4));
    sample.extend(lp_nal(4, 6, 8));
    assert_eq!(
        avc::plan(&sample, 4, &mut ParamSets::default()).unwrap(),
        vec![Subsample { clear: 37, encrypted: 0 }]
    );
}

#[test]
fn truncated_and_zero_length() {
    assert!(matches!(avc::plan(&[0, 0], 4, &mut ParamSets::default()), Err(Error::TruncatedNal)));
    assert!(matches!(avc::plan(&[0, 0, 0, 0], 4, &mut ParamSets::default()), Err(Error::ZeroLengthNal)));
    let truncated = vec![0, 0, 0, 100, 0x65, 0xAA];
    assert!(matches!(avc::plan(&truncated, 4, &mut ParamSets::default()), Err(Error::TruncatedNal)));
}

#[test]
fn large_non_vcl_clear_splits_at_u16() {
    let huge = u16::MAX as usize + 10;
    let sample = lp_nal(4, 6, huge);
    let plan = avc::plan(&sample, 4, &mut ParamSets::default()).unwrap();
    assert_eq!(
        plan,
        vec![Subsample { clear: 65535, encrypted: 0 }, Subsample { clear: 65550 - 65535, encrypted: 0 }]
    );
}

fn baseline_sps() -> Sps {
    Sps {
        profile_idc: 66,
        constraint_flags: 0b110000,
        level_idc: 31,
        seq_parameter_set_id: 0,
        high_profile: None,
        log2_max_frame_num_minus4: 0,
        pic_order_cnt: PicOrderCnt::Type0 { log2_max_pic_order_cnt_lsb_minus4: 2 },
        max_num_ref_frames: 4,
        gaps_in_frame_num_value_allowed_flag: false,
        pic_width_in_mbs_minus1: 119,
        pic_height_in_map_units_minus1: 67,
        frame_mbs_only_flag: true,
        mb_adaptive_frame_field_flag: None,
        direct_8x8_inference_flag: true,
        frame_cropping: None,
        vui: None,
    }
}

fn cavlc_pps() -> Pps {
    Pps {
        pic_parameter_set_id: 0,
        seq_parameter_set_id: 0,
        entropy_coding_mode_flag: false,
        bottom_field_pic_order_in_frame_present_flag: false,
        num_slice_groups_minus1: 0,
        slice_group: None,
        num_ref_idx_l0_default_active_minus1: 0,
        num_ref_idx_l1_default_active_minus1: 0,
        weighted_pred_flag: false,
        weighted_bipred_idc: 0,
        pic_init_qp_minus26: 0,
        pic_init_qs_minus26: 0,
        chroma_qp_index_offset: 0,
        deblocking_filter_control_present_flag: false,
        constrained_intra_pred_flag: false,
        redundant_pic_cnt_present_flag: false,
        more_rbsp_data: None,
    }
}

/// An IDR I slice header (23 bits: first_mb 0, slice_type 7, pps 0,
/// frame_num, idr_pic_id 0, poc lsb, marking flags, qp delta 0) followed
/// by ten bytes of slice data.
fn idr_body() -> Vec<u8> {
    let mut body = vec![0x88, 0x84, 0x03];
    body.extend(std::iter::repeat(0xAAu8).take(10));
    body
}

fn sps_nal_body() -> Vec<u8> {
    NalUnit::attach_emulation_prevention_bytes(&baseline_sps().to_bytes())
}

fn pps_nal_body() -> Vec<u8> {
    NalUnit::attach_emulation_prevention_bytes(&cavlc_pps().to_bytes())
}

#[test]
fn vcl_slice_header_stays_clear() {
    let sps = lp_nal_with(4, 0x67, &sps_nal_body());
    let pps = lp_nal_with(4, 0x68, &pps_nal_body());
    let idr = lp_nal_with(4, 0x65, &idr_body());
    let mut sample = Vec::new();
    sample.extend_from_slice(&sps);
    sample.extend_from_slice(&pps);
    sample.extend_from_slice(&idr);
    let mut params = ParamSets::default();
    let plan = avc::plan(&sample, 4, &mut params).unwrap();
    // prefix + header byte + 3 slice header bytes stay clear after the
    // parameter sets; the ten slice data bytes are encrypted.
    let clear = (sps.len() + pps.len() + 4 + 1 + 3) as u32;
    assert_eq!(plan, vec![Subsample { clear, encrypted: 10 }]);
    // The in-band parameter sets stay for the next sample.
    assert_eq!(avc::plan(&idr, 4, &mut params).unwrap(), vec![Subsample { clear: 8, encrypted: 10 }]);
}

#[test]
fn vcl_without_parameter_sets_fails() {
    let idr = lp_nal_with(4, 0x65, &idr_body());
    assert!(matches!(avc::plan(&idr, 4, &mut ParamSets::default()), Err(Error::SliceHeaderParseFailed)));
}

#[test]
fn trailing_non_vcl_after_slice_is_its_own_subsample() {
    let mut params = ParamSets::default();
    params.ingest_sps(&sps_nal_body());
    params.ingest_pps(&pps_nal_body());
    let mut sample = lp_nal_with(2, 0x65, &idr_body());
    sample.extend(lp_nal(2, 12, 3));
    let plan = avc::plan(&sample, 2, &mut params).unwrap();
    assert_eq!(plan, vec![Subsample { clear: 6, encrypted: 10 }, Subsample { clear: 6, encrypted: 0 }]);
}

#[test]
fn avcc_record_seeds_parameter_sets() {
    let sps = sps_nal_body();
    let pps = pps_nal_body();
    let mut avcc = vec![0x01, 66, 0xC0, 31, 0xFF, 0xE1];
    avcc.extend_from_slice(&((sps.len() + 1) as u16).to_be_bytes());
    avcc.push(0x67);
    avcc.extend_from_slice(&sps);
    avcc.push(1);
    avcc.extend_from_slice(&((pps.len() + 1) as u16).to_be_bytes());
    avcc.push(0x68);
    avcc.extend_from_slice(&pps);
    let mut params = parse_avcc_params(&avcc);
    let idr = lp_nal_with(4, 0x65, &idr_body());
    assert_eq!(avc::plan(&idr, 4, &mut params).unwrap(), vec![Subsample { clear: 8, encrypted: 10 }]);
    // A record cut inside its PPS list keeps the SPS only.
    let mut params = parse_avcc_params(&avcc[..avcc.len() - 2]);
    assert!(matches!(avc::plan(&idr, 4, &mut params), Err(Error::SliceHeaderParseFailed)));
}

#[test]
fn codec_plans_and_patterns() {
    let mut params = ParamSets::default();
    assert_eq!(subsample::plan(&CodecKind::Mp4a, &[1, 2, 3], &mut params).unwrap(), vec![]);
    let sample = lp_nal(1, 6, 3);
    assert_eq!(
        subsample::plan(&CodecKind::Avc { length_size: 1 }, &sample, &mut params).unwrap(),
        vec![Subsample { clear: 5, encrypted: 0 }]
    );
    assert_eq!(CodecKind::Avc { length_size: 4 }.cbcs_pattern(), (1, 9));
    assert_eq!(CodecKind::Mp4a.cbcs_pattern(), (0, 0));
    assert_eq!(subsample::media_kind(b"avc3"), Some(MediaKind::Video));
    assert_eq!(subsample::media_kind(b"enca"), Some(MediaKind::Audio));
    assert_eq!(subsample::media_kind(b"hvc1"), None);
    assert!(subsample::is_encryptable(b"mp4a"));
    assert!(!subsample::is_encryptable(b"encv"));
}

/// A traf with a single trun whose samples start at `data_offset`
/// (moof-relative). `sizes` are per-sample sizes (None -> default).
fn traf_with(_track_id: u32, data_offset: i32, default_sample_size: Option<u32>, sizes: &[Option<u32>]) -> Traf {
    Traf {
        base_data_offset: None,
        default_sample_size,
        truns: vec![Trun { data_offset: Some(data_offset), sample_sizes: sizes.to_vec() }],
    }
}

// moof size 500 + mdat box header 8 -> mdat payload begins 508 from moof start.
const PAYLOAD_POS: u64 = 508;

#[test]
fn single_track_starts_at_payload_front() {
    let traf = traf_with(1, PAYLOAD_POS as i32, None, &[Some(100), Some(200)]);
    let ranges = sample_ranges(&traf, PAYLOAD_POS).unwrap();
    assert_eq!(ranges, vec![(0, 100), (100, 200)]);
}

#[test]
fn muxed_tracks_land_at_distinct_offsets() {
    let video = traf_with(1, PAYLOAD_POS as i32, None, &[Some(100), Some(200)]);
    let audio = traf_with(2, (PAYLOAD_POS + 300) as i32, None, &[Some(50)]);
    let v = sample_ranges(&video, PAYLOAD_POS).unwrap();
    let a = sample_ranges(&audio, PAYLOAD_POS).unwrap();
    assert_eq!(v, vec![(0, 100), (100, 200)]);
    assert_eq!(a, vec![(300, 50)]);
}

#[test]
fn falls_back_to_default_sample_size() {
    let traf = traf_with(1, PAYLOAD_POS as i32, Some(64), &[None, None]);
    let ranges = sample_ranges(&traf, PAYLOAD_POS).unwrap();
    assert_eq!(ranges, vec![(0, 64), (64, 64)]);
}

#[test]
fn rejects_offset_before_payload() {
    let traf = traf_with(1, (PAYLOAD_POS - 100) as i32, None, &[Some(10)]);
    assert!(matches!(sample_ranges(&traf, PAYLOAD_POS), Err(Error::SampleOutOfBounds { .. })));
}

#[test]
fn runs_without_offset_follow_the_previous_run() {
    let traf = Traf {
        base_data_offset: Some(8),
        default_sample_size: Some(10),
        truns: vec![
            Trun { data_offset: Some(PAYLOAD_POS as i32 - 8), sample_sizes: vec![Some(5), None] },
            Trun { data_offset: None, sample_sizes: vec![Some(7)] },
        ],
    };
    assert_eq!(sample_ranges(&traf, PAYLOAD_POS).unwrap(), vec![(0, 5), (5, 10), (15, 7)]);
}

#[test]
fn missing_sample_size_and_negative_start() {
    let traf = traf_with(1, PAYLOAD_POS as i32, None, &[Some(4), None]);
    assert_eq!(sample_ranges(&traf, PAYLOAD_POS), Err(Error::MissingSampleSize));
    let traf = traf_with(1, -1, None, &[Some(4)]);
    assert_eq!(sample_ranges(&traf, PAYLOAD_POS), Err(Error::SampleOutOfBounds { end: 0, mdat_len: 508 }));
    let traf = traf_with(1, 500, None, &[Some(4)]);
    assert_eq!(sample_ranges(&traf, PAYLOAD_POS), Err(Error::SampleOutOfBounds { end: 500, mdat_len: 508 }));
}

const PSSH_SYSTEM_ID: [u8; 16] = [
    0x00, 0x01, 0x02, 0x03, 0x04, 0x05, 0x06, 0x07, 0x08, 0x09, 0x0A, 0x0B, 0x0C, 0x0D, 0x0E, 0x0F,
];

#[test]
fn parse_pssh_input() {
    let input = PsshInput { system_id: PSSH_SYSTEM_ID, key_ids: vec![[0x00_u8; 16]], data: vec![] };
    let parsed = input.to_pssh();
    let pssh = Pssh { version: 1, flags: 0, system_id: PSSH_SYSTEM_ID, key_ids: vec![[0x00_u8; 16]], data: vec![] };
    assert_eq!(parsed, pssh);
    let none = PsshInput { system_id: PSSH_SYSTEM_ID, key_ids: vec![], data: vec![1, 2] };
    assert_eq!(none.to_pssh().version, 0);
}

#[test]
fn crypto_error_messages_carry_their_values() {
    assert_eq!(
        Error::SubsampleByteMismatch { expected: 10, actual: 12 }.message(),
        "subsample byte total (12) does not match buffer length (10)"
    );
    assert_eq!(Error::SencEntryTooLarge(300).message(), "senc entry size 300 exceeds the saiz u8 limit");
    assert_eq!(Error::InvalidLengthSize(3).message(), "invalid avcC length size 3 (expected 1, 2, or 4)");
    assert_eq!(Error::SampleOutOfBounds { end: 99, mdat_len: 50 }.message(), "sample end 99 exceeds mdat length 50");
    assert_eq!(Error::NoMoov.message(), "moov box not found");
}
