use mediumi::bitstream::{BitstreamReader, BitstreamWriter};
use mediumi::h264::annex_b::{AnnexB, StartCode};
use mediumi::h264::api::{NalData, Processor};
use mediumi::h264::aud::{Aud, PrimaryPicType};
use mediumi::h264::avcc::{AvccConfig, Extension};
use mediumi::h264::error::Error;
use mediumi::h264::filler_data::FillerData;
use mediumi::h264::nal::{NalUnit, NalUnitType};
use mediumi::h264::pps::{MoreRbspData, Pps, SliceGroup};
use mediumi::h264::sei::{Sei, SeiMessage};
use mediumi::h264::slice_c::SliceC;
use mediumi::h264::slice_header::{
    PredWeightTable,
    DecRefPicMarking, MemoryManagementControlOp, ModificationCommand, RefPicListMod, SliceHeader, SliceType,
};
use mediumi::h264::sps::{FrameCropping, HighProfileData, PicOrderCnt, Sps};

#[test]
fn test_parser_with_3b_start_code() {
    let data = [0x00, 0x00, 0x01, 0x65, 0xAA, 0xBB];
    let result = AnnexB::parse(&data).unwrap();
    assert_eq!(result.start_code, StartCode::ThreeBytes);
    assert_eq!(result.nal_unit.header.nal_unit_type, NalUnitType::IDR);
    assert_eq!(result.nal_unit.header.nal_ref_idc, 3);
    assert_eq!(result.nal_unit.rbsp, vec![0xAA, 0xBB]);
}

#[test]
fn test_parser_with_4b_start_code() {
    let data = [0x00, 0x00, 0x00, 0x01, 0x65, 0xAA, 0xBB];
    let result = AnnexB::parse(&data).unwrap();
    assert_eq!(result.start_code, StartCode::FourBytes);
    assert_eq!(result.nal_unit.header.nal_unit_type, NalUnitType::IDR);
    assert_eq!(result.nal_unit.header.nal_ref_idc, 3);
    assert_eq!(result.nal_unit.rbsp, vec![0xAA, 0xBB]);
}

#[test]
fn annex_b_test_invalid_start_code() {
    let data = [0xDE, 0xAD, 0xBE, 0xEF, 0x65, 0xAA, 0xBB];
    let result = AnnexB::parse(&data);
    assert!(result.is_err());
    assert_eq!(result.err(), Some(Error::InvalidStartCode(0xDEADBEEF)));
}

#[test]
fn annex_b_test_to_bytes() {
    let data = [0x00, 0x00, 0x01, 0x65, 0xAA, 0xBB];
    let result = AnnexB::parse(&data).unwrap();
    let raw_data = AnnexB::to_bytes(&result);
    assert_eq!(raw_data, data);
}

#[test]
fn aud_test_roundtrip() {
    let cases: &[(u8, PrimaryPicType)] = &[
        (0b000_10000, PrimaryPicType::I),
        (0b001_10000, PrimaryPicType::PI),
        (0b010_10000, PrimaryPicType::PBI),
        (0b011_10000, PrimaryPicType::SI),
        (0b100_10000, PrimaryPicType::SpSi),
        (0b101_10000, PrimaryPicType::ISi),
        (0b110_10000, PrimaryPicType::PISpSi),
        (0b111_10000, PrimaryPicType::PBISpSi),
    ];

    for (byte, expected_type) in cases {
        let input = vec![*byte];
        let aud = Aud::parse(&input).expect("failed to parse aud");
        assert_eq!(aud.primary_pic_type, *expected_type);
        assert_eq!(Aud::to_bytes(&aud), input);
    }
}

fn assert_avcc_roundtrip(cfg: &AvccConfig) {
    let bytes = cfg.to_bytes();
    let parsed = AvccConfig::parse(&bytes).expect("parse");
    let bytes2 = parsed.to_bytes();
    assert_eq!(bytes, bytes2, "byte-exact roundtrip failed");
    assert_eq!(parsed.configuration_version, cfg.configuration_version);
    assert_eq!(parsed.avc_profile_indication, cfg.avc_profile_indication);
    assert_eq!(parsed.profile_compatibility, cfg.profile_compatibility);
    assert_eq!(parsed.avc_level_indication, cfg.avc_level_indication);
    assert_eq!(parsed.length_size_minus_one, cfg.length_size_minus_one);
    assert_eq!(parsed.sps_nalus, cfg.sps_nalus);
    assert_eq!(parsed.pps_nalus, cfg.pps_nalus);
    match (&parsed.extension, &cfg.extension) {
        (Some(p), Some(c)) => {
            assert_eq!(p.chroma_format, c.chroma_format);
            assert_eq!(p.bit_depth_luma_minus8, c.bit_depth_luma_minus8);
            assert_eq!(p.bit_depth_chroma_minus8, c.bit_depth_chroma_minus8);
            assert_eq!(p.sps_ext_nalus, c.sps_ext_nalus);
        }
        (None, None) => {}
        (a, b) => panic!("extension mismatch: {:?} vs {:?}", a, b),
    }
}

#[test]
fn extension_with_sps_ext_roundtrip() {
    let cfg = AvccConfig {
        configuration_version: 1,
        avc_profile_indication: 1,
        profile_compatibility: 0x00,
        avc_level_indication: 40,
        length_size_minus_one: 3,
        sps_nalus: vec![vec![0x67, 0x6E, 0x00, 0x28]],
        pps_nalus: vec![vec![0x68, 0xEB, 0xE3]],
        extension: Some(Extension {
            chroma_format: 1,
            bit_depth_luma_minus8: 2,
            bit_depth_chroma_minus8: 2,
            sps_ext_nalus: vec![vec![0x6D, 0xAA, 0xBB]],
        }),
    };
    assert_avcc_roundtrip(&cfg);
}

#[test]
fn parse_too_short() {
    let data = [0x01, 0x42, 0xC0];
    let err = AvccConfig::parse(&data).unwrap_err();
    assert_eq!(err, Error::DataTooShort);
}

#[test]
fn filler_data_test_roundtrip() {
    let cases = [0, 1, 5, 100];
    for count in cases {
        let mut input = vec![0xFF; count];
        input.push(0x80);
        let filler = FillerData::parse(&input);
        assert_eq!(filler.ff_byte_count, count);
        assert_eq!(filler.to_bytes(), input);
    }
}

#[test]
fn nal_test_parse() {
    let data = [0x65, 0xAA, 0xBB];
    let result = NalUnit::parse(&data).unwrap();
    assert_eq!(result.header.nal_ref_idc, 3);
    assert_eq!(result.header.nal_unit_type, NalUnitType::IDR);
    assert_eq!(result.header.nal_ref_idc, 3);
    assert_eq!(result.rbsp, vec![0xAA, 0xBB]);
}

#[test]
fn nal_test_data_too_short() {
    let data = [];
    let result = NalUnit::parse(&data);
    assert_eq!(result.err(), Some(Error::DataTooShort));
}

#[test]
fn test_invalid_forbidden_zero_bit() {
    let data = [0x80, 0xAA, 0xBB];
    let result = NalUnit::parse(&data);
    assert_eq!(result.err(), Some(Error::InvalidForbiddenZeroBit));
}

#[test]
fn nal_test_to_bytes() {
    let data = [0x65, 0xAA, 0xBB];
    let result = NalUnit::parse(&data).unwrap();
    let raw_data = NalUnit::to_bytes(&result);
    assert_eq!(raw_data, data);
}

#[test]
fn test_epb_round_trip() {
    let original = vec![0x00, 0x00, 0x00, 0x00, 0x00, 0x01, 0x00, 0x00, 0x02, 0x00, 0x00, 0x03];
    let with_epb = NalUnit::attach_emulation_prevention_bytes(&original);
    let restored = NalUnit::remove_emulation_prevention_bytes(&with_epb);
    assert_eq!(original, restored);
}

#[test]
fn epb_inserted_before_low_bytes() {
    let with_epb = NalUnit::attach_emulation_prevention_bytes(&[0x00, 0x00, 0x01, 0x05]);
    assert_eq!(with_epb, vec![0x00, 0x00, 0x03, 0x01, 0x05]);
    let restored = NalUnit::remove_emulation_prevention_bytes(&[0x00, 0x00, 0x03, 0x02, 0x00, 0x00, 0x03]);
    assert_eq!(restored, vec![0x00, 0x00, 0x02, 0x00, 0x00, 0x03]);
}

fn build_sei_rbsp(messages: &[(u32, Vec<u8>)]) -> Vec<u8> {
    let sei = Sei {
        sei_message: messages
            .iter()
            .map(|(t, p)| SeiMessage { payload_type: *t, payload_size: p.len() as u32, payload: p.clone() })
            .collect(),
    };
    sei.to_bytes()
}

#[test]
fn sei_test_roundtrip() {
    let input = build_sei_rbsp(&[(0, vec![0xAA]), (1, vec![0xBB, 0xCC]), (5, vec![0xDD, 0xEE, 0xFF])]);
    let parsed = Sei::parse(&input).expect("failed to parse");
    assert_eq!(parsed.sei_message.len(), 3);
    assert_eq!(parsed.sei_message[0].payload_type, 0);
    assert_eq!(parsed.sei_message[1].payload_type, 1);
    assert_eq!(parsed.sei_message[2].payload_type, 5);
    assert_eq!(parsed.to_bytes(), input);
}

fn build_sps() -> Sps {
    Sps {
        profile_idc: 66,
        constraint_flags: 0b110000,
        level_idc: 31,
        seq_parameter_set_id: 0,
        high_profile: None,
        log2_max_frame_num_minus4: 0,
        pic_order_cnt: PicOrderCnt::Type0 { log2_max_pic_order_cnt_lsb_minus4: 2 },
        max_num_ref_frames: 4,
        gaps_in_frame_num_value_allowed_flag: false,
        pic_width_in_mbs_minus1: 119,
        pic_height_in_map_units_minus1: 67,
        frame_mbs_only_flag: true,
        mb_adaptive_frame_field_flag: None,
        direct_8x8_inference_flag: true,
        frame_cropping: None,
        vui: None,
    }
}

fn assert_sps_roundtrip(sps: &Sps) {
    let bytes1 = sps.to_bytes();
    let parsed = Sps::parse(&bytes1).expect("failed to parse");
    let bytes2 = parsed.to_bytes();
    assert_eq!(bytes1, bytes2);
}

#[test]
fn test_roundtrip_baseline() {
    assert_sps_roundtrip(&build_sps());
}

#[test]
fn test_roundtrip_with_frame_cropping() {
    let mut sps = build_sps();
    sps.frame_cropping = Some(FrameCropping { left_offset: 0, right_offset: 0, top_offset: 0, bottom_offset: 4 });
    assert_sps_roundtrip(&sps);
}

#[test]
fn test_roundtrip_interlaced() {
    let mut sps = build_sps();
    sps.frame_mbs_only_flag = false;
    sps.mb_adaptive_frame_field_flag = Some(true);
    assert_sps_roundtrip(&sps);
}

#[test]
fn test_roundtrip_pic_order_cnt_type1() {
    let mut sps = build_sps();
    sps.pic_order_cnt = PicOrderCnt::Type1 {
        delta_pic_order_always_zero_flag: false,
        offset_for_non_ref_pic: -2,
        offset_for_top_to_bottom_field: 0,
        num_ref_frames_in_pic_order_cnt_cycle: 2,
        offset_for_ref_frame: vec![1, -1],
    };
    assert_sps_roundtrip(&sps);
}

#[test]
fn test_roundtrip_pic_order_cnt_type2() {
    let mut sps = build_sps();
    sps.pic_order_cnt = PicOrderCnt::Type2;
    assert_sps_roundtrip(&sps);
}

#[test]
fn test_roundtrip_high_profile() {
    let mut sps = build_sps();
    sps.profile_idc = 100;
    sps.high_profile = Some(HighProfileData {
        chroma_format_idc: 1,
        separate_colour_plane_flag: None,
        bit_depth_luma_minus8: 0,
        bit_depth_chroma_minus8: 0,
        qpprime_y_zero_transform_bypass_flag: false,
        seq_scaling_matrix_present_flag: false,
        scaling_lists_4x4: None,
        scaling_lists_8x8: None,
    });
    assert_sps_roundtrip(&sps);
}

#[test]
fn test_roundtrip_high_profile_with_scaling_lists() {
    let mut sps = build_sps();
    sps.profile_idc = 100;
    sps.high_profile = Some(HighProfileData {
        chroma_format_idc: 1,
        separate_colour_plane_flag: None,
        bit_depth_luma_minus8: 0,
        bit_depth_chroma_minus8: 0,
        qpprime_y_zero_transform_bypass_flag: false,
        seq_scaling_matrix_present_flag: true,
        scaling_lists_4x4: Some([[16u8; 16]; 6]),
        scaling_lists_8x8: Some([[16u8; 64]; 6]),
    });
    assert_sps_roundtrip(&sps);
}

#[test]
fn test_roundtrip_high_profile_444() {
    let mut sps = build_sps();
    sps.profile_idc = 244;
    sps.high_profile = Some(HighProfileData {
        chroma_format_idc: 3,
        separate_colour_plane_flag: Some(false),
        bit_depth_luma_minus8: 2,
        bit_depth_chroma_minus8: 2,
        qpprime_y_zero_transform_bypass_flag: false,
        seq_scaling_matrix_present_flag: false,
        scaling_lists_4x4: None,
        scaling_lists_8x8: None,
    });
    assert_sps_roundtrip(&sps);
}

#[test]
fn test_width_height() {
    let sps = build_sps();
    assert_eq!(sps.width(), 1920);
    assert_eq!(sps.height(), 1088);
}

fn build_high_sps() -> Sps {
    let mut sps = build_sps();
    sps.profile_idc = 100;
    sps.high_profile = Some(HighProfileData {
        chroma_format_idc: 1,
        separate_colour_plane_flag: None,
        bit_depth_luma_minus8: 0,
        bit_depth_chroma_minus8: 0,
        qpprime_y_zero_transform_bypass_flag: false,
        seq_scaling_matrix_present_flag: false,
        scaling_lists_4x4: None,
        scaling_lists_8x8: None,
    });
    sps
}

fn build_pps() -> Pps {
    Pps {
        pic_parameter_set_id: 0,
        seq_parameter_set_id: 0,
        entropy_coding_mode_flag: true,
        bottom_field_pic_order_in_frame_present_flag: false,
        num_slice_groups_minus1: 0,
        slice_group: None,
        num_ref_idx_l0_default_active_minus1: 3,
        num_ref_idx_l1_default_active_minus1: 0,
        weighted_pred_flag: true,
        weighted_bipred_idc: 2,
        pic_init_qp_minus26: -3,
        pic_init_qs_minus26: 0,
        chroma_qp_index_offset: -2,
        deblocking_filter_control_present_flag: true,
        constrained_intra_pred_flag: false,
        redundant_pic_cnt_present_flag: false,
        more_rbsp_data: None,
    }
}

fn assert_pps_roundtrip(pps: &Pps, sps: &Sps) {
    let bytes1 = pps.to_bytes();
    let parsed = Pps::parse(&bytes1, sps).expect("failed to parse");
    let bytes2 = parsed.to_bytes();
    assert_eq!(bytes1, bytes2);
}

#[test]
fn test_roundtrip_basic() {
    let sps = build_sps();
    let pps = build_pps();
    assert_pps_roundtrip(&pps, &sps);
}

#[test]
fn test_roundtrip_cavlc() {
    let sps = build_sps();
    let mut pps = build_pps();
    pps.entropy_coding_mode_flag = false;
    pps.weighted_pred_flag = false;
    pps.weighted_bipred_idc = 0;
    pps.pic_init_qp_minus26 = 0;
    pps.chroma_qp_index_offset = 0;
    assert_pps_roundtrip(&pps, &sps);
}

#[test]
fn test_roundtrip_more_rbsp_data() {
    let sps = build_high_sps();
    let mut pps = build_pps();
    pps.more_rbsp_data = Some(MoreRbspData {
        transform_8x8_mode_flag: true,
        pic_scaling_matrix_present_flag: false,
        pic_scaling_list_present_flag: None,
        scaling_list_4x4: None,
        scaling_list_8x8: None,
        second_chroma_qp_index_offset: -2,
    });
    assert_pps_roundtrip(&pps, &sps);
}

#[test]
fn test_roundtrip_with_scaling_lists() {
    let sps = build_high_sps();
    let mut pps = build_pps();
    pps.more_rbsp_data = Some(MoreRbspData {
        transform_8x8_mode_flag: true,
        pic_scaling_matrix_present_flag: true,
        pic_scaling_list_present_flag: Some(vec![false, false, false, false, false, false, false, false]),
        scaling_list_4x4: Some([[16u8; 16]; 6]),
        scaling_list_8x8: Some([[16u8; 64]; 6]),
        second_chroma_qp_index_offset: -1,
    });
    assert_pps_roundtrip(&pps, &sps);
}

#[test]
fn test_roundtrip_slice_group_type0() {
    let sps = build_sps();
    let mut pps = build_pps();
    pps.num_slice_groups_minus1 = 1;
    pps.slice_group = Some(SliceGroup::Type0 { slice_group_map_type: 0, run_length_minus1: vec![100, 200] });
    assert_pps_roundtrip(&pps, &sps);
}

#[test]
fn test_roundtrip_slice_group_type2() {
    let sps = build_sps();
    let mut pps = build_pps();
    pps.num_slice_groups_minus1 = 2;
    pps.slice_group = Some(SliceGroup::Type2 { slice_group_map_type: 2, top_left: vec![0, 10], bottom_right: vec![5, 15] });
    assert_pps_roundtrip(&pps, &sps);
}

#[test]
fn test_roundtrip_slice_group_type3() {
    let sps = build_sps();
    let mut pps = build_pps();
    pps.num_slice_groups_minus1 = 1;
    pps.slice_group = Some(SliceGroup::Type3_5 {
        slice_group_map_type: 3,
        slice_group_change_direction_flag: true,
        slice_group_change_rate_minus1: 10,
    });
    assert_pps_roundtrip(&pps, &sps);
}

#[test]
fn test_roundtrip_slice_group_type6() {
    let sps = build_sps();
    let mut pps = build_pps();
    pps.num_slice_groups_minus1 = 3;
    pps.slice_group = Some(SliceGroup::Type6 {
        slice_group_map_type: 6,
        pic_size_in_map_units_minus1: 3,
        slice_group_id: vec![0, 1, 2, 3],
    });
    assert_pps_roundtrip(&pps, &sps);
}

#[test]
fn slice_type_wraps_at_five() {
    assert_eq!(SliceType::from_u32(0), SliceType::P);
    assert_eq!(SliceType::from_u32(6), SliceType::B);
    assert_eq!(SliceType::from_u32(7), SliceType::I);
    assert_eq!(SliceType::from_u32(9), SliceType::SI);
}

#[test]
fn slice_header_roundtrip_p_slice() {
    let sps = build_sps();
    let pps = build_pps();
    // first_mb 0, slice_type 5 (P), pps 0, frame_num 4 bits, poc lsb 6 bits,
    // override flag, list modification, weight table, marking, cabac idc, qp delta, deblocking.
    let mut w = BitstreamWriter::new();
    w.write_ue(0);
    w.write_ue(5);
    w.write_ue(0);
    w.write_bits(3, 4);
    w.write_bits(9, 6);
    w.write_bool(true);
    w.write_ue(1);
    w.write_bool(true);
    w.write_ue(0);
    w.write_ue(2);
    w.write_ue(3);
    w.write_ue(0);
    w.write_bool(false);
    w.write_bool(false);
    w.write_bool(true);
    w.write_ue(1);
    w.write_ue(4);
    w.write_ue(5);
    w.write_ue(0);
    w.write_ue(1);
    w.write_se(-3);
    w.write_ue(1);
    let bytes = w.finish();

    let mut reader = BitstreamReader::new(&bytes);
    let h = SliceHeader::parse(&mut reader, &sps, &pps, NalUnitType::NonIDR, 2).unwrap();
    assert_eq!(h.slice_type, 5);
    assert_eq!(h.frame_num, 3);
    assert_eq!(h.pic_order_cnt.unwrap().pic_order_cnt_lsb, 9);
    let nri = h.num_ref_idx.unwrap();
    assert!(nri.num_ref_idx_active_override_flag);
    assert_eq!(nri.num_ref_idx_l0_active_minus1, Some(1));
    assert_eq!(nri.num_ref_idx_l1_active_minus1, None);
    match &h.ref_pic_list_mod {
        RefPicListMod::Modification(m) => {
            let l0 = m.l0.as_ref().unwrap();
            assert!(l0.flag);
            assert_eq!(l0.commands, vec![ModificationCommand::Idc0 { abs_diff_pic_num_minus1: 2 }]);
            assert!(m.l1.is_none());
        }
        _ => panic!("expected plain list modification"),
    }
    let pwt = h.pred_weight_table.as_ref().unwrap();
    assert_eq!(pwt.luma_log2_weight_denom, 0);
    assert_eq!(pwt.l0.as_ref().unwrap().len(), 2);
    assert!(pwt.l1.is_none());
    match h.dec_ref_pic_marking.as_ref().unwrap() {
        DecRefPicMarking::NonIdr { adaptive_ref_pic_marking_mode_flag, commands } => {
            assert!(*adaptive_ref_pic_marking_mode_flag);
            assert_eq!(
                commands.as_ref().unwrap(),
                &vec![MemoryManagementControlOp::Mmco1 { difference_of_pic_nums_minus1: 4 }, MemoryManagementControlOp::Mmco5]
            );
        }
        _ => panic!("expected adaptive marking"),
    }
    assert_eq!(h.cabac_init_idc, Some(1));
    assert_eq!(h.slice_qp_delta, -3);
    let db = h.deblocking_filter.unwrap();
    assert_eq!(db.disable_deblocking_filter_idc, 1);
    assert_eq!(db.slice_alpha_c0_offset_div2, None);

    let mut w2 = BitstreamWriter::new();
    h.to_bytes(&mut w2, &sps, &pps).unwrap();
    assert_eq!(w2.finish(), bytes);
}

#[test]
fn slice_header_refuses_bad_modification_idc() {
    let sps = build_sps();
    let pps = build_pps();
    let mut w = BitstreamWriter::new();
    w.write_ue(0);
    w.write_ue(0);
    w.write_ue(0);
    w.write_bits(0, 4);
    w.write_bits(0, 6);
    w.write_bool(false);
    w.write_bool(true);
    w.write_ue(7);
    let bytes = w.finish();
    let mut reader = BitstreamReader::new(&bytes);
    let r = SliceHeader::parse(&mut reader, &sps, &pps, NalUnitType::NonIDR, 0);
    assert_eq!(r.err(), Some(Error::InvalidModificationOfPicNumsIdc(7)));
}

#[test]
fn slice_c_roundtrip() {
    let sps = build_sps();
    let pps = build_pps();
    let data = [0b0101_0110u8, 0xAB];
    let c = SliceC::parse(&data, &sps, &pps).unwrap();
    assert_eq!(c.slice_id, 1);
    assert_eq!(c.colour_plane_id, None);
    assert_eq!(c.redundant_pic_cnt, None);
    assert_eq!(c.slice_data_bit_offset, 3);
    assert_eq!(c.to_bytes(&sps, &pps).unwrap(), data.to_vec());
}

#[test]
fn processor_parses_parameter_sets_and_keeps_the_rest() {
    let sps = build_sps();
    let pps = build_pps();
    let mut stream = vec![0x00, 0x00, 0x00, 0x01, 0x67];
    stream.extend_from_slice(&NalUnit::attach_emulation_prevention_bytes(&sps.to_bytes()));
    stream.extend_from_slice(&[0x00, 0x00, 0x01, 0x68]);
    stream.extend_from_slice(&NalUnit::attach_emulation_prevention_bytes(&pps.to_bytes()));
    stream.extend_from_slice(&[0x00, 0x00, 0x01, 0x09, 0xF0]);
    let p = Processor::parse(&stream).unwrap();
    assert_eq!(p.nal_units.len(), 3);
    assert!(matches!(p.nal_units[0], NalData::Sps(StartCode::FourBytes, 3, _)));
    assert!(matches!(p.nal_units[1], NalData::Pps(StartCode::ThreeBytes, 3, _)));
    assert!(matches!(p.nal_units[2], NalData::Raw(StartCode::ThreeBytes, 0, NalUnitType::AUD, _)));
    assert_eq!(p.to_bytes(), stream);
}

#[test]
fn processor_keeps_pps_raw_without_sps() {
    let stream = [0x00, 0x00, 0x01, 0x68, 0xEB, 0xE3];
    let p = Processor::parse(&stream).unwrap();
    assert!(matches!(p.nal_units[0], NalData::Raw(StartCode::ThreeBytes, 3, NalUnitType::PPS, _)));
    assert_eq!(p.to_bytes(), stream.to_vec());
}

fn annex_b_stream() -> Vec<u8> {
    let sps = build_sps();
    let pps = build_pps();
    let mut stream = vec![0x00, 0x00, 0x00, 0x01, 0x67];
    stream.extend_from_slice(&NalUnit::attach_emulation_prevention_bytes(&sps.to_bytes()));
    stream.extend_from_slice(&[0x00, 0x00, 0x01, 0x68]);
    stream.extend_from_slice(&NalUnit::attach_emulation_prevention_bytes(&pps.to_bytes()));
    stream.extend_from_slice(&[0x00, 0x00, 0x01, 0x09, 0xF0]);
    stream.extend_from_slice(&[0x00, 0x00, 0x01, 0x06]);
    stream.extend_from_slice(&NalUnit::attach_emulation_prevention_bytes(&build_sei_rbsp(&[(5, vec![0xDD, 0xEE])])));
    stream.extend_from_slice(&[0x00, 0x00, 0x01, 0x0C, 0xFF, 0xFF, 0x80]);
    stream.extend_from_slice(&[0x00, 0x00, 0x01, 0x24, 0b0101_0110, 0xAB]);
    stream.extend_from_slice(&[0x00, 0x00, 0x01, 0x65, 0x88, 0x84, 0x03]);
    stream.extend_from_slice(&[0x00, 0x00, 0x01, 0x0A]);
    stream
}

#[test]
fn root_processor_annex_b_roundtrip() {
    let stream = annex_b_stream();
    let p = mediumi::h264::Processor::from_annex_b(&stream).unwrap();
    assert_eq!(p.nal_units.len(), 8);
    assert!(matches!(p.nal_units[0], mediumi::h264::NalData::Sps(StartCode::FourBytes, 3, _)));
    assert!(matches!(p.nal_units[1], mediumi::h264::NalData::Pps(StartCode::ThreeBytes, 3, _)));
    assert!(matches!(p.nal_units[2], mediumi::h264::NalData::Aud(StartCode::ThreeBytes, 0, _)));
    match &p.nal_units[3] {
        mediumi::h264::NalData::Sei(_, 0, sei) => {
            assert_eq!(sei.sei_message.len(), 1);
            assert_eq!(sei.sei_message[0].payload_type, 5);
            assert_eq!(sei.sei_message[0].payload, vec![0xDD, 0xEE]);
        }
        _ => panic!("expected an SEI"),
    }
    match &p.nal_units[4] {
        mediumi::h264::NalData::FillerData(_, 0, f) => assert_eq!(f.ff_byte_count, 2),
        _ => panic!("expected filler data"),
    }
    match &p.nal_units[5] {
        mediumi::h264::NalData::SliceC(_, 1, c) => {
            assert_eq!(c.slice_id, 1);
            assert_eq!(c.slice_data_bit_offset, 3);
        }
        _ => panic!("expected slice data partition C"),
    }
    assert!(matches!(p.nal_units[6], mediumi::h264::NalData::Raw(_, 3, NalUnitType::IDR, _)));
    assert!(matches!(p.nal_units[7], mediumi::h264::NalData::EOSeq(_, 0)));
    assert_eq!(p.to_annex_b().unwrap(), stream);
}

#[test]
fn root_processor_keeps_slices_raw_without_parameter_sets() {
    let stream = [0x00, 0x00, 0x01, 0x24, 0b0101_0110, 0xAB, 0x00, 0x00, 0x01, 0x68, 0xEB, 0xE3];
    let p = mediumi::h264::Processor::from_annex_b(&stream).unwrap();
    assert!(matches!(p.nal_units[0], mediumi::h264::NalData::Raw(_, 1, NalUnitType::SliceC, _)));
    assert!(matches!(p.nal_units[1], mediumi::h264::NalData::Raw(_, 3, NalUnitType::PPS, _)));
    assert_eq!(p.to_annex_b().unwrap(), stream.to_vec());
}

#[test]
fn root_processor_refuses_bad_stream() {
    // Bytes before the first start code are skipped.
    assert_eq!(mediumi::h264::Processor::from_annex_b(&[0xDE, 0xAD, 0xBE, 0xEF]).unwrap().nal_units.len(), 0);
    // An AUD without its RBSP byte.
    let r = mediumi::h264::Processor::from_annex_b(&[0x00, 0x00, 0x01, 0x09]);
    assert_eq!(r.err(), Some(Error::DataTooShort));
}

fn base_config() -> AvccConfig {
    AvccConfig {
        configuration_version: 1,
        avc_profile_indication: 0,
        profile_compatibility: 0,
        avc_level_indication: 0,
        length_size_minus_one: 3,
        sps_nalus: vec![],
        pps_nalus: vec![],
        extension: None,
    }
}

#[test]
fn root_processor_avcc_roundtrip() {
    let stream = annex_b_stream();
    let p = mediumi::h264::Processor::from_annex_b(&stream).unwrap();
    let (samples, cfg) = p.to_avcc(&base_config()).unwrap();
    assert_eq!(cfg.avc_profile_indication, 66);
    assert_eq!(cfg.profile_compatibility, 0b110000);
    assert_eq!(cfg.avc_level_indication, 31);
    assert_eq!(cfg.sps_nalus.len(), 1);
    assert_eq!(cfg.pps_nalus.len(), 1);
    assert_eq!(cfg.sps_nalus[0][0], 0x67);
    // AUD: length 2, then its two bytes.
    assert_eq!(&samples[..6], &[0x00, 0x00, 0x00, 0x02, 0x09, 0xF0]);
    let q = mediumi::h264::Processor::from_avcc(&[&samples], &cfg).unwrap();
    assert_eq!(q.nal_units.len(), 8);
    let (samples2, cfg2) = q.to_avcc(&base_config()).unwrap();
    assert_eq!(samples2, samples);
    assert_eq!(cfg2.sps_nalus, cfg.sps_nalus);
    assert_eq!(cfg2.pps_nalus, cfg.pps_nalus);
}

#[test]
fn root_processor_avcc_two_byte_lengths_and_errors() {
    let mut cfg = base_config();
    cfg.length_size_minus_one = 1;
    let sample = [0x00, 0x02, 0x09, 0xF0, 0x00, 0x01, 0x0A];
    let p = mediumi::h264::Processor::from_avcc(&[&sample], &cfg).unwrap();
    assert_eq!(p.nal_units.len(), 2);
    let (out, _) = p.to_avcc(&cfg).unwrap();
    assert_eq!(out, sample.to_vec());
    // A length that runs past the sample.
    let bad = [0x00, 0x05, 0x09];
    assert_eq!(mediumi::h264::Processor::from_avcc(&[&bad], &cfg).err(), Some(Error::DataTooShort));
    // A zero length.
    let zero = [0x00, 0x00];
    assert_eq!(mediumi::h264::Processor::from_avcc(&[&zero], &cfg).err(), Some(Error::DataTooShort));
    // Trailing bytes shorter than a length are ignored.
    let tail = [0x00, 0x01, 0x0A, 0x00];
    assert_eq!(mediumi::h264::Processor::from_avcc(&[&tail], &cfg).unwrap().nal_units.len(), 1);
}

#[test]
fn epb_never_leaves_a_start_code_pattern() {
    let out = NalUnit::attach_emulation_prevention_bytes(&[0, 0, 0, 0, 0]);
    assert_eq!(out, vec![0, 0, 3, 0, 0, 3, 0]);
    let data = [0u8, 0, 0, 0, 0, 1, 0, 0, 2, 0, 0, 3];
    let out = NalUnit::attach_emulation_prevention_bytes(&data);
    for w in out.windows(3) {
        assert!(!(w[0] == 0 && w[1] == 0 && w[2] <= 2));
    }
    assert_eq!(NalUnit::remove_emulation_prevention_bytes(&out), data.to_vec());
}

#[test]
fn pps_accepts_dispersed_slice_groups() {
    let sps = build_sps();
    let mut pps = build_pps();
    pps.num_slice_groups_minus1 = 1;
    pps.slice_group = Some(SliceGroup::Type1 { slice_group_map_type: 1 });
    let bytes = pps.to_bytes();
    let parsed = Pps::parse(&bytes, &sps).unwrap();
    assert!(matches!(parsed.slice_group, Some(SliceGroup::Type1 { slice_group_map_type: 1 })));
    assert_eq!(parsed.to_bytes(), bytes);
}

#[test]
fn pred_weight_table_reads_list_one_in_b_slices_only() {
    // luma denom ue(0), l0: one entry without weights, then l1: one entry.
    let mut w = BitstreamWriter::new();
    w.write_ue(0);
    w.write_bool(false);
    w.write_bool(false);
    w.write_bool(true);
    let bytes = w.finish();
    let mut r = BitstreamReader::new(&bytes);
    let p = PredWeightTable::parse(&mut r, 0, 0, 0, false).unwrap();
    assert!(p.l1.is_none());
    let mut r = BitstreamReader::new(&bytes);
    let b = PredWeightTable::parse(&mut r, 0, 0, 0, true).unwrap();
    assert_eq!(b.l1.as_ref().unwrap().len(), 1);
    // A P slice whose PPS has more list 1 references still reads no list 1.
    let mut r = BitstreamReader::new(&bytes);
    let p = PredWeightTable::parse(&mut r, 0, 0, 3, false).unwrap();
    assert!(p.l1.is_none());
}

#[test]
fn scaling_list_written_reads_back() {
    let list: [u8; 16] = [1, 255, 8, 9, 200, 3, 128, 129, 16, 16, 7, 250, 2, 254, 100, 60];
    let mut w = BitstreamWriter::new();
    Sps::write_scaling_list(&mut w, &list);
    let bytes = w.finish();
    let mut r = BitstreamReader::new(&bytes);
    assert_eq!(Sps::parse_scaling_list::<16>(&mut r).unwrap(), list);
}

#[test]
fn h264_error_messages_carry_their_values() {
    assert_eq!(
        Error::InvalidStartCode(0x0000_0002).message(),
        "Invalid Start Code: expected 0x00_00_01 or 0x00_00_00_01, got 0x00000002"
    );
    assert_eq!(Error::InvalidPicOrderCntType(7).message(), "Invalid pic_order_cnt_type: expected 0-2, got 7");
    assert_eq!(Error::InvalidSliceGroupMapType(123).message(), "Invalid Slice Group Map Type: expected 0-6, got 123");
    assert_eq!(Error::InvalidReservedData(3).message(), "Invalid Reserved Zero 2 Bits: expected 0b00, got 00000003");
    assert_eq!(Error::InvalidSliceType(SliceType::SP).message(), "Invalid Slice Type: SP");
    assert_eq!(Error::InvalidNalUnitType(0).message(), "Invalid NAL unit type: 0");
    assert_eq!(Error::InvalidAuxFormatIdc(4294967295).message(), "Invalid Aux Format Idc: 4294967295");
}
