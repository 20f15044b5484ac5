//! Codec string builders and AAC object type extraction.

use splica::codec_strings::{
    build_av1_codec_string, build_avc_codec_string, build_avc_codec_string_from_optional, build_hevc_codec_string,
    build_vp9_codec_string, extract_aac_audio_object_type,
};

// --- AVC ---

#[test]
fn test_that_avc_codec_string_parses_baseline_profile() {
    // version=1, profile=66 (Baseline), compat=0xC0, level=30
    let avcc = [0x01, 0x42, 0xC0, 0x1E];

    assert_eq!(build_avc_codec_string(&avcc), "avc1.42c01e");
}

#[test]
fn test_that_avc_codec_string_parses_high_profile() {
    // version=1, profile=100 (High), compat=0x00, level=31
    let avcc = [0x01, 0x64, 0x00, 0x1F];

    assert_eq!(build_avc_codec_string(&avcc), "avc1.64001f");
}

#[test]
fn test_that_avc_codec_string_falls_back_on_truncated_data() {
    assert_eq!(build_avc_codec_string(&[0x01, 0x42]), "avc1");
}

#[test]
fn test_that_avc_codec_string_falls_back_on_empty_data() {
    assert_eq!(build_avc_codec_string(&[]), "avc1");
}

#[test]
fn test_that_avc_optional_falls_back_on_none() {
    assert_eq!(build_avc_codec_string_from_optional(None), "avc1");
}

#[test]
fn test_that_avc_optional_parses_valid_data() {
    let avcc = [0x01, 0x42, 0xC0, 0x1E];

    assert_eq!(
        build_avc_codec_string_from_optional(Some(&avcc)),
        "avc1.42c01e"
    );
}

// --- HEVC ---

#[test]
fn test_that_hevc_codec_string_parses_main_profile_level_93() {
    let hvcc = [
        0x01, // [0] configurationVersion
        0x01, // [1] profile_space=0, tier=0, profile_idc=1
        0x60, 0x00, 0x00, 0x00, // [2..6] profile_compatibility
        0x90, 0x00, 0x00, 0x00, 0x00, 0x00, // [6..12] constraint_indicator
        93,   // [12] level_idc
    ];

    assert_eq!(build_hevc_codec_string(&hvcc), "hev1.1.6.L93.90");
}

#[test]
fn test_that_hevc_codec_string_handles_high_tier() {
    let mut hvcc = [0u8; 13];
    hvcc[1] = 0b0010_0001; // tier=1, profile_idc=1
    hvcc[2..6].copy_from_slice(&[0x60, 0x00, 0x00, 0x00]);
    hvcc[12] = 150; // level 5.0

    let result = build_hevc_codec_string(&hvcc);
    assert!(result.starts_with("hev1.1.6.H150"));
}

#[test]
fn test_that_hevc_codec_string_falls_back_on_truncated_data() {
    assert_eq!(build_hevc_codec_string(&[0x01; 5]), "hev1");
}

#[test]
fn test_that_hevc_codec_string_omits_trailing_zero_constraints() {
    let mut hvcc = [0u8; 13];
    hvcc[1] = 0x01; // profile_idc=1
    hvcc[2..6].copy_from_slice(&[0x60, 0x00, 0x00, 0x00]);
    hvcc[12] = 93;

    assert_eq!(build_hevc_codec_string(&hvcc), "hev1.1.6.L93");
}

// --- AV1 ---

#[test]
fn test_that_av1_codec_string_parses_main_profile_8bit() {
    let av1c = [0x81, 0x08, 0x00, 0x00];

    assert_eq!(build_av1_codec_string(&av1c), "av01.0.08M.08");
}

#[test]
fn test_that_av1_codec_string_parses_high_profile_10bit() {
    let av1c = [0x81, 0x2D, 0x40, 0x00];

    assert_eq!(build_av1_codec_string(&av1c), "av01.1.13M.10");
}

#[test]
fn test_that_av1_codec_string_parses_professional_12bit_high_tier() {
    let av1c = [0x81, 0x53, 0xE0, 0x00];

    assert_eq!(build_av1_codec_string(&av1c), "av01.2.19H.12");
}

#[test]
fn test_that_av1_codec_string_falls_back_on_truncated_data() {
    assert_eq!(build_av1_codec_string(&[0x81]), "av01");
}

// --- VP9 ---

#[test]
fn test_that_vp9_codec_string_defaults_without_codec_private() {
    assert_eq!(build_vp9_codec_string(None), "vp09.00.10.08");
}

#[test]
fn test_that_vp9_codec_string_parses_profile_level_bitdepth() {
    // id=1 (profile), len=1, value=2
    // id=2 (level), len=1, value=31
    // id=3 (bit_depth), len=1, value=10
    let data = [1, 1, 2, 2, 1, 31, 3, 1, 10];

    assert_eq!(build_vp9_codec_string(Some(&data)), "vp09.02.31.10");
}

// --- AAC ---

#[test]
fn test_that_aac_lc_object_type_is_extracted_from_esds() {
    let esds: &[u8] = &[
        0x00, 0x00, 0x00, 0x00, // version + flags
        0x03, 0x19, // ES_Descriptor, size=25
        0x00, 0x01, // ES_ID
        0x00, // flags
        0x04, 0x11, // DecoderConfigDescriptor, size=17
        0x40, 0x15, 0x00, 0x00, 0x00, // objectType, streamType, bufferSize
        0x00, 0x01, 0xF4, 0x00, // maxBitrate
        0x00, 0x01, 0xF4, 0x00, // avgBitrate
        0x05, 0x02, // DecoderSpecificInfo, size=2
        0x11, 0x90, // AudioSpecificConfig: AOT=2(AAC-LC)
    ];

    assert_eq!(extract_aac_audio_object_type(esds), 2);
}

#[test]
fn test_that_he_aac_object_type_is_extracted_from_esds() {
    let esds: &[u8] = &[
        0x00, 0x00, 0x00, 0x00, // version + flags
        0x03, 0x19, // ES_Descriptor, size=25
        0x00, 0x01, // ES_ID
        0x00, // flags
        0x04, 0x11, // DecoderConfigDescriptor, size=17
        0x40, 0x15, 0x00, 0x00, 0x00, // objectType, streamType, bufferSize
        0x00, 0x01, 0xF4, 0x00, // maxBitrate
        0x00, 0x01, 0xF4, 0x00, // avgBitrate
        0x05, 0x02, // DecoderSpecificInfo, size=2
        0x2B, 0x90, // AudioSpecificConfig: AOT=5 (HE-AAC)
    ];

    assert_eq!(extract_aac_audio_object_type(esds), 5);
}

#[test]
fn test_that_empty_esds_defaults_to_aac_lc() {
    assert_eq!(extract_aac_audio_object_type(&[]), 2);
}

#[test]
fn test_that_truncated_esds_defaults_to_aac_lc() {
    assert_eq!(extract_aac_audio_object_type(&[0x00, 0x00, 0x00, 0x00]), 2);
}

#[test]
fn hevc_codec_string_lists_every_constraint_byte_up_to_the_last_nonzero() {
    let mut hvcc = [0u8; 13];
    hvcc[1] = 0x02; // profile_idc=2
    hvcc[2..6].copy_from_slice(&[0x20, 0x00, 0x00, 0x00]);
    hvcc[6] = 0xB0;
    hvcc[8] = 0x01;
    hvcc[12] = 120;

    assert_eq!(build_hevc_codec_string(&hvcc), "hev1.2.4.L120.B0.00.01");
}

#[test]
fn vp9_codec_string_keeps_defaults_for_missing_fields() {
    // only the level is given
    let data = [2, 1, 41];

    assert_eq!(build_vp9_codec_string(Some(&data)), "vp09.00.41.08");
}

#[test]
fn aac_object_type_is_the_top_five_bits_of_the_config() {
    let esds: &[u8] = &[
        0x00, 0x00, 0x00, 0x00, 0x03, 0x19, 0x00, 0x01, 0x00, 0x04, 0x11, 0x40, 0x15, 0x00, 0x00, 0x00, 0x00, 0x01,
        0xF4, 0x00, 0x00, 0x01, 0xF4, 0x00, 0x05, 0x02,
        // top five bits of 0xF8 are 31
        0xF8, 0xC0,
    ];

    assert_eq!(extract_aac_audio_object_type(esds), 31);
}

#[test]
fn aac_object_type_is_always_between_1_and_31() {
    let mut seed: u32 = 12345;
    for len in 0..64usize {
        let mut esds = Vec::with_capacity(len);
        for _ in 0..len {
            seed = seed.wrapping_mul(1_103_515_245).wrapping_add(12345);
            // favour descriptor tags 3, 4 and 5 so the scan goes deep
            let b = (seed >> 16) as u8;
            esds.push(if b % 4 == 0 { 3 + (b / 4) % 3 } else { b });
        }
        let aot = extract_aac_audio_object_type(&esds);
        assert!((1..=31).contains(&aot), "object type {aot} out of range");
    }
    assert_eq!(extract_aac_audio_object_type(&[]), 2);
    assert_eq!(extract_aac_audio_object_type(&[0, 0, 0, 0]), 2);
}
