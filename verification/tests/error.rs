//! Error kinds, retryability and messages.

use splica::error::{DecodeError, DemuxError, ErrorKind, MuxError, PipelineError};

#[test]
fn test_that_io_errors_are_retryable() {
    // GIVEN
    let error = DemuxError::Io("connection reset".to_string());

    // WHEN
    let kind = error.kind();

    // THEN
    assert!(kind.is_retryable());
}

#[test]
fn test_that_invalid_input_is_not_retryable() {
    // GIVEN
    let error = DemuxError::InvalidContainer {
        offset: 42,
        message: "bad magic bytes".to_string(),
    };

    // WHEN
    let kind = error.kind();

    // THEN
    assert!(!kind.is_retryable());
}

#[test]
fn test_that_unsupported_codec_error_includes_suggestion() {
    // GIVEN
    let error = DemuxError::UnsupportedCodec {
        codec: "vp8".to_string(),
    };

    // WHEN
    let message = error.to_string();

    // THEN
    assert!(message.contains("vp8"));
    assert!(message.contains("H.264"));
}

#[test]
fn test_that_pipeline_error_delegates_kind_to_inner() {
    // GIVEN
    let inner = DecodeError::ResourceExhausted {
        message: "out of memory".to_string(),
    };
    let error = PipelineError::Decode(inner);

    // WHEN
    let kind = error.kind();

    // THEN
    assert_eq!(kind, ErrorKind::ResourceExhausted);
    assert!(kind.is_retryable());
}

#[test]
fn test_that_other_variant_accepts_custom_errors() {
    // GIVEN a custom error, carried by its message
    let error = DemuxError::Other("custom error".to_string());

    // THEN
    assert_eq!(error.kind(), ErrorKind::Internal);
    assert_eq!(error.to_string(), "custom error");
}

#[test]
fn invalid_container_message_names_the_offset() {
    let error = DemuxError::InvalidContainer {
        offset: 42,
        message: "bad magic bytes".to_string(),
    };

    assert_eq!(error.to_string(), "invalid container at offset 42: bad magic bytes");
}

#[test]
fn mux_resource_exhaustion_is_retryable() {
    let error = MuxError::ResourceExhausted {
        message: "byte budget exceeded".to_string(),
    };

    assert_eq!(error.kind(), ErrorKind::ResourceExhausted);
    assert!(error.kind().is_retryable());
    assert_eq!(error.to_string(), "muxer resource exhausted: byte budget exceeded");
}

#[test]
fn incompatible_codec_is_an_unsupported_format() {
    let error = MuxError::IncompatibleCodec {
        codec: "vp9".to_string(),
        container: "mp4".to_string(),
    };

    assert_eq!(error.kind(), ErrorKind::UnsupportedFormat);
    assert!(!error.kind().is_retryable());
    assert_eq!(error.to_string(), "unsupported codec 'vp9' for container format 'mp4'");
}
