//! Container format detection from leading bytes.

use splica::container_detect::detect_container;
use splica::media::ContainerFormat;

/// The EBML magic number that starts every Matroska/WebM file.
const EBML_MAGIC: [u8; 4] = [0x1A, 0x45, 0xDF, 0xA3];

/// The element ID of the EBML DocType element.
const DOC_TYPE_ID: [u8; 2] = [0x42, 0x82];

/// Builds a minimal EBML header with the given DocType string.
fn make_ebml_header(doc_type: &str) -> Vec<u8> {
    let dt_bytes = doc_type.as_bytes();
    let dt_len = dt_bytes.len() as u8;
    let doc_type_element_len = 2 + 1 + dt_len;

    let mut buf = Vec::new();
    buf.extend_from_slice(&EBML_MAGIC);
    buf.push(0x80 | doc_type_element_len); // header body size (1-byte vint)
    buf.extend_from_slice(&DOC_TYPE_ID);
    buf.push(0x80 | dt_len); // DocType string size (1-byte vint)
    buf.extend_from_slice(dt_bytes);
    buf
}

fn make_mp4_header() -> Vec<u8> {
    let mut buf = vec![0x00, 0x00, 0x00, 0x20]; // box size
    buf.extend_from_slice(b"ftyp");
    buf.extend_from_slice(b"isom"); // brand
    buf
}

#[test]
fn test_that_mp4_is_detected_from_ftyp() {
    let data = make_mp4_header();

    let result = detect_container(&data);

    assert_eq!(result, Some(ContainerFormat::Mp4));
}

#[test]
fn test_that_webm_doctype_is_detected() {
    let data = make_ebml_header("webm");

    let result = detect_container(&data);

    assert_eq!(result, Some(ContainerFormat::WebM));
}

#[test]
fn test_that_matroska_doctype_is_detected_as_mkv() {
    let data = make_ebml_header("matroska");

    let result = detect_container(&data);

    assert_eq!(result, Some(ContainerFormat::Mkv));
}

#[test]
fn test_that_unknown_doctype_defaults_to_mkv() {
    let data = make_ebml_header("unknown");

    let result = detect_container(&data);

    assert_eq!(result, Some(ContainerFormat::Mkv));
}

#[test]
fn test_that_truncated_ebml_defaults_to_mkv() {
    let data = vec![0x1A, 0x45, 0xDF, 0xA3];

    let result = detect_container(&data);

    assert_eq!(result, Some(ContainerFormat::Mkv));
}

#[test]
fn test_that_too_few_bytes_returns_none() {
    let result = detect_container(&[0x00, 0x01, 0x02]);

    assert_eq!(result, None);
}

#[test]
fn test_that_unrecognized_magic_returns_none() {
    let data = vec![0xFF; 16];

    let result = detect_container(&data);

    assert_eq!(result, None);
}

#[test]
fn test_that_empty_input_returns_none() {
    let result = detect_container(&[]);

    assert_eq!(result, None);
}

#[test]
fn ftyp_must_sit_at_byte_four() {
    let data = b"ftypisom0000".to_vec();

    assert_eq!(detect_container(&data), None);
}
