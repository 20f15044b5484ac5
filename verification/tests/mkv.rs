//! EBML element encoding for the MKV muxer.

use splica::error::MuxError;
use splica::mkv::{
    build_element, encode_data_size, encode_element_id, string_element, uint_element, MkvError,
};

#[test]
fn element_ids_keep_their_marker_bits() {
    assert_eq!(encode_element_id(0xA3), vec![0xA3]);
    assert_eq!(encode_element_id(0x4286), vec![0x42, 0x86]);
    assert_eq!(encode_element_id(0x2AD7B1), vec![0x2A, 0xD7, 0xB1]);
    assert_eq!(encode_element_id(0x1A45DFA3), vec![0x1A, 0x45, 0xDF, 0xA3]);
}

#[test]
fn data_sizes_use_the_shortest_vint() {
    assert_eq!(encode_data_size(0), vec![0x80]);
    assert_eq!(encode_data_size(0x7E), vec![0xFE]);
    // 0x7F is the reserved all-ones one-byte value, so it takes two bytes
    assert_eq!(encode_data_size(0x7F), vec![0x40, 0x7F]);
    assert_eq!(encode_data_size(0x3FFE), vec![0x7F, 0xFE]);
    assert_eq!(encode_data_size(0x3FFF), vec![0x20, 0x3F, 0xFF]);
    assert_eq!(encode_data_size(0x1F_FFFF), vec![0x10, 0x1F, 0xFF, 0xFF]);
}

#[test]
fn elements_are_id_size_body() {
    assert_eq!(build_element(0x4282, b"webm"), vec![0x42, 0x82, 0x84, b'w', b'e', b'b', b'm']);
    assert_eq!(string_element(0x4282, "mkv"), vec![0x42, 0x82, 0x83, b'm', b'k', b'v']);
}

#[test]
fn unsigned_elements_use_the_fewest_bytes() {
    assert_eq!(uint_element(0xD7, 0), vec![0xD7, 0x81, 0x00]);
    assert_eq!(uint_element(0xD7, 1), vec![0xD7, 0x81, 0x01]);
    assert_eq!(uint_element(0xD7, 0x1234), vec![0xD7, 0x82, 0x12, 0x34]);
    assert_eq!(uint_element(0xD7, 0x1_0000_0000), vec![0xD7, 0x85, 1, 0, 0, 0, 0]);
    assert_eq!(uint_element(0xD7, 0x12_3456_789A_BCDE), vec![0xD7, 0x87, 0x12, 0x34, 0x56, 0x78, 0x9A, 0xBC, 0xDE]);
    assert_eq!(uint_element(0xD7, u64::MAX), vec![0xD7, 0x88, 0xFF, 0xFF, 0xFF, 0xFF, 0xFF, 0xFF, 0xFF, 0xFF]);
    assert_eq!(uint_element(0x4287, 2), vec![0x42, 0x87, 0x81, 0x02]);
}

#[test]
fn mkv_errors_become_io_mux_errors() {
    let e = MkvError::UnsupportedCodec { codec_id: "V_FOO".to_string() };
    assert_eq!(e.to_string(), "unsupported codec: V_FOO");

    match e.into_mux_error() {
        MuxError::Io(m) => assert_eq!(m, "unsupported codec: V_FOO"),
        other => panic!("expected Io, got {other:?}"),
    }
}

#[test]
fn string_elements_hold_utf8_bytes() {
    assert_eq!(string_element(0x4282, "é"), vec![0x42, 0x82, 0x82, 0xC3, 0xA9]);
    assert_eq!(string_element(0x4282, "€"), vec![0x42, 0x82, 0x83, 0xE2, 0x82, 0xAC]);
}
