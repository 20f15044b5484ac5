//! Error types of each pipeline stage and the broad `ErrorKind` used for
//! retry/abort decisions.

use vstd::prelude::*;
use crate::text::{dec, push_dec, push_text};
use crate::media::TrackIndex;

verus! {

/// Broad categorization of errors for automated retry/abort decisions.
#[derive(Debug, Clone, Copy, PartialEq, Eq, Hash, Structural)]
pub enum ErrorKind {
    /// Input is malformed or invalid — retrying won't help.
    InvalidInput,
    /// Format or codec is recognized but not supported — retrying won't help.
    UnsupportedFormat,
    /// I/O error — may be transient, retry may succeed.
    Io,
    /// Resource limit exceeded — retry after backoff may help.
    ResourceExhausted,
    /// Bug in the library — should be reported.
    Internal,
}

impl ErrorKind {
    /// Whether an error of this kind may be transient.
    pub open spec fn spec_retryable(self) -> bool {
        self is Io || self is ResourceExhausted
    }

    /// Returns `true` if the error may be transient and retrying could succeed.
    pub fn is_retryable(self) -> (r: bool)
        ensures
            r == self.spec_retryable(),
    {
        match self {
            ErrorKind::Io | ErrorKind::ResourceExhausted => true,
            _ => false,
        }
    }

    /// The human-readable description of this kind.
    pub open spec fn spec_text(self) -> Seq<char> {
        match self {
            ErrorKind::InvalidInput => "invalid input"@,
            ErrorKind::UnsupportedFormat => "unsupported format"@,
            ErrorKind::Io => "I/O error"@,
            ErrorKind::ResourceExhausted => "resource exhausted"@,
            ErrorKind::Internal => "internal error"@,
        }
    }

    /// Returns the human-readable description of this kind.
    pub fn to_string(&self) -> (r: String)
        ensures
            r@ == self.spec_text(),
    {
        let mut s = String::new();
        match self {
            ErrorKind::InvalidInput => push_text(&mut s, "invalid input"),
            ErrorKind::UnsupportedFormat => push_text(&mut s, "unsupported format"),
            ErrorKind::Io => push_text(&mut s, "I/O error"),
            ErrorKind::ResourceExhausted => push_text(&mut s, "resource exhausted"),
            ErrorKind::Internal => push_text(&mut s, "internal error"),
        }
        s
    }
}

/// Errors produced by demuxer operations (reading container formats).
///
/// `Io` carries the message of the underlying I/O failure; `Other` the
/// message of a caller-defined error.
#[derive(Debug, Clone)]
pub enum DemuxError {
    InvalidContainer { offset: u64, message: String },
    UnsupportedCodec { codec: String },
    UnexpectedEof { offset: u64 },
    Io(String),
    Other(String),
}

impl DemuxError {
    pub open spec fn spec_kind(&self) -> ErrorKind {
        match self {
            DemuxError::InvalidContainer { .. } | DemuxError::UnexpectedEof { .. } => ErrorKind::InvalidInput,
            DemuxError::UnsupportedCodec { .. } => ErrorKind::UnsupportedFormat,
            DemuxError::Io(_) => ErrorKind::Io,
            DemuxError::Other(_) => ErrorKind::Internal,
        }
    }

    pub fn kind(&self) -> (r: ErrorKind)
        ensures
            r == self.spec_kind(),
    {
        match self {
            DemuxError::InvalidContainer { .. } | DemuxError::UnexpectedEof { .. } => ErrorKind::InvalidInput,
            DemuxError::UnsupportedCodec { .. } => ErrorKind::UnsupportedFormat,
            DemuxError::Io(_) => ErrorKind::Io,
            DemuxError::Other(_) => ErrorKind::Internal,
        }
    }

    pub open spec fn spec_text(&self) -> Seq<char> {
        match self {
            DemuxError::InvalidContainer { offset, message } =>
                "invalid container at offset "@ + dec(*offset as nat) + ": "@ + message@,
            DemuxError::UnsupportedCodec { codec } =>
                "unsupported codec '"@ + codec@ + "' — splica v0.1 supports H.264, H.265, and AV1"@,
            DemuxError::UnexpectedEof { offset } =>
                "unexpected end of file at offset "@ + dec(*offset as nat),
            DemuxError::Io(m) => m@,
            DemuxError::Other(m) => m@,
        }
    }

    /// The error message.
    pub fn to_string(&self) -> (r: String)
        ensures
            r@ == self.spec_text(),
    {
        let mut s = String::new();
        match self {
            DemuxError::InvalidContainer { offset, message } => {
                push_text(&mut s, "invalid container at offset ");
                push_dec(&mut s, *offset);
                push_text(&mut s, ": ");
                push_text(&mut s, message.as_str());
            },
            DemuxError::UnsupportedCodec { codec } => {
                push_text(&mut s, "unsupported codec '");
                push_text(&mut s, codec.as_str());
                push_text(&mut s, "' — splica v0.1 supports H.264, H.265, and AV1");
            },
            DemuxError::UnexpectedEof { offset } => {
                push_text(&mut s, "unexpected end of file at offset ");
                push_dec(&mut s, *offset);
            },
            DemuxError::Io(m) => push_text(&mut s, m.as_str()),
            DemuxError::Other(m) => push_text(&mut s, m.as_str()),
        }
        s
    }
}

/// Errors produced by decoder operations.
#[derive(Debug, Clone)]
pub enum DecodeError {
    InvalidBitstream { message: String },
    UnsupportedProfile { codec: String, profile: String },
    ResourceExhausted { message: String },
    Io(String),
    Other(String),
}

impl DecodeError {
    pub open spec fn spec_kind(&self) -> ErrorKind {
        match self {
            DecodeError::InvalidBitstream { .. } => ErrorKind::InvalidInput,
            DecodeError::UnsupportedProfile { .. } => ErrorKind::UnsupportedFormat,
            DecodeError::ResourceExhausted { .. } => ErrorKind::ResourceExhausted,
            DecodeError::Io(_) => ErrorKind::Io,
            DecodeError::Other(_) => ErrorKind::Internal,
        }
    }

    pub fn kind(&self) -> (r: ErrorKind)
        ensures
            r == self.spec_kind(),
    {
        match self {
            DecodeError::InvalidBitstream { .. } => ErrorKind::InvalidInput,
            DecodeError::UnsupportedProfile { .. } => ErrorKind::UnsupportedFormat,
            DecodeError::ResourceExhausted { .. } => ErrorKind::ResourceExhausted,
            DecodeError::Io(_) => ErrorKind::Io,
            DecodeError::Other(_) => ErrorKind::Internal,
        }
    }

    pub open spec fn spec_text(&self) -> Seq<char> {
        match self {
            DecodeError::InvalidBitstream { message } => "invalid bitstream: "@ + message@,
            DecodeError::UnsupportedProfile { codec, profile } =>
                "unsupported codec profile '"@ + profile@ + "' for codec '"@ + codec@ + "'"@,
            DecodeError::ResourceExhausted { message } =>
                "decoder resource exhausted: "@ + message@,
            DecodeError::Io(m) => m@,
            DecodeError::Other(m) => m@,
        }
    }

    /// The error message.
    pub fn to_string(&self) -> (r: String)
        ensures
            r@ == self.spec_text(),
    {
        let mut s = String::new();
        match self {
            DecodeError::InvalidBitstream { message } => {
                push_text(&mut s, "invalid bitstream: ");
                push_text(&mut s, message.as_str());
            },
            DecodeError::UnsupportedProfile { codec, profile } => {
                push_text(&mut s, "unsupported codec profile '");
                push_text(&mut s, profile.as_str());
                push_text(&mut s, "' for codec '");
                push_text(&mut s, codec.as_str());
                push_text(&mut s, "'");
            },
            DecodeError::ResourceExhausted { message } => {
                push_text(&mut s, "decoder resource exhausted: ");
                push_text(&mut s, message.as_str());
            },
            DecodeError::Io(m) => push_text(&mut s, m.as_str()),
            DecodeError::Other(m) => push_text(&mut s, m.as_str()),
        }
        s
    }
}

/// Errors produced by encoder operations.
#[derive(Debug, Clone)]
pub enum EncodeError {
    InvalidFrame { message: String },
    UnsupportedConfig { message: String },
    ResourceExhausted { message: String },
    Io(String),
    Other(String),
}

impl EncodeError {
    pub open spec fn spec_kind(&self) -> ErrorKind {
        match self {
            EncodeError::InvalidFrame { .. } => ErrorKind::InvalidInput,
            EncodeError::UnsupportedConfig { .. } => ErrorKind::UnsupportedFormat,
            EncodeError::ResourceExhausted { .. } => ErrorKind::ResourceExhausted,
            EncodeError::Io(_) => ErrorKind::Io,
            EncodeError::Other(_) => ErrorKind::Internal,
        }
    }

    pub fn kind(&self) -> (r: ErrorKind)
        ensures
            r == self.spec_kind(),
    {
        match self {
            EncodeError::InvalidFrame { .. } => ErrorKind::InvalidInput,
            EncodeError::UnsupportedConfig { .. } => ErrorKind::UnsupportedFormat,
            EncodeError::ResourceExhausted { .. } => ErrorKind::ResourceExhausted,
            EncodeError::Io(_) => ErrorKind::Io,
            EncodeError::Other(_) => ErrorKind::Internal,
        }
    }

    pub open spec fn spec_text(&self) -> Seq<char> {
        match self {
            EncodeError::InvalidFrame { message } => "invalid frame: "@ + message@,
            EncodeError::UnsupportedConfig { message } =>
                "unsupported encoding configuration: "@ + message@,
            EncodeError::ResourceExhausted { message } =>
                "encoder resource exhausted: "@ + message@,
            EncodeError::Io(m) => m@,
            EncodeError::Other(m) => m@,
        }
    }

    /// The error message.
    pub fn to_string(&self) -> (r: String)
        ensures
            r@ == self.spec_text(),
    {
        let mut s = String::new();
        match self {
            EncodeError::InvalidFrame { message } => {
                push_text(&mut s, "invalid frame: ");
                push_text(&mut s, message.as_str());
            },
            EncodeError::UnsupportedConfig { message } => {
                push_text(&mut s, "unsupported encoding configuration: ");
                push_text(&mut s, message.as_str());
            },
            EncodeError::ResourceExhausted { message } => {
                push_text(&mut s, "encoder resource exhausted: ");
                push_text(&mut s, message.as_str());
            },
            EncodeError::Io(m) => push_text(&mut s, m.as_str()),
            EncodeError::Other(m) => push_text(&mut s, m.as_str()),
        }
        s
    }
}

/// Errors produced by muxer operations.
#[derive(Debug, Clone)]
pub enum MuxError {
    InvalidTrackConfig { message: String },
    IncompatibleCodec { codec: String, container: String },
    ResourceExhausted { message: String },
    Io(String),
    Other(String),
}

impl MuxError {
    pub open spec fn spec_kind(&self) -> ErrorKind {
        match self {
            MuxError::InvalidTrackConfig { .. } => ErrorKind::InvalidInput,
            MuxError::IncompatibleCodec { .. } => ErrorKind::UnsupportedFormat,
            MuxError::ResourceExhausted { .. } => ErrorKind::ResourceExhausted,
            MuxError::Io(_) => ErrorKind::Io,
            MuxError::Other(_) => ErrorKind::Internal,
        }
    }

    pub fn kind(&self) -> (r: ErrorKind)
        ensures
            r == self.spec_kind(),
    {
        match self {
            MuxError::InvalidTrackConfig { .. } => ErrorKind::InvalidInput,
            MuxError::IncompatibleCodec { .. } => ErrorKind::UnsupportedFormat,
            MuxError::ResourceExhausted { .. } => ErrorKind::ResourceExhausted,
            MuxError::Io(_) => ErrorKind::Io,
            MuxError::Other(_) => ErrorKind::Internal,
        }
    }

    pub open spec fn spec_text(&self) -> Seq<char> {
        match self {
            MuxError::InvalidTrackConfig { message } =>
                "invalid track configuration: "@ + message@,
            MuxError::IncompatibleCodec { codec, container } =>
                "unsupported codec '"@ + codec@ + "' for container format '"@ + container@ + "'"@,
            MuxError::ResourceExhausted { message } => "muxer resource exhausted: "@ + message@,
            MuxError::Io(m) => m@,
            MuxError::Other(m) => m@,
        }
    }

    /// The error message.
    pub fn to_string(&self) -> (r: String)
        ensures
            r@ == self.spec_text(),
    {
        let mut s = String::new();
        match self {
            MuxError::InvalidTrackConfig { message } => {
                push_text(&mut s, "invalid track configuration: ");
                push_text(&mut s, message.as_str());
            },
            MuxError::IncompatibleCodec { codec, container } => {
                push_text(&mut s, "unsupported codec '");
                push_text(&mut s, codec.as_str());
                push_text(&mut s, "' for container format '");
                push_text(&mut s, container.as_str());
                push_text(&mut s, "'");
            },
            MuxError::ResourceExhausted { message } => {
                push_text(&mut s, "muxer resource exhausted: ");
                push_text(&mut s, message.as_str());
            },
            MuxError::Io(m) => push_text(&mut s, m.as_str()),
            MuxError::Other(m) => push_text(&mut s, m.as_str()),
        }
        s
    }
}

/// Errors produced by filter operations.
#[derive(Debug, Clone)]
pub enum FilterError {
    InvalidInput { message: String },
    ResourceExhausted { message: String },
    Other(String),
}

impl FilterError {
    pub open spec fn spec_kind(&self) -> ErrorKind {
        match self {
            FilterError::InvalidInput { .. } => ErrorKind::InvalidInput,
            FilterError::ResourceExhausted { .. } => ErrorKind::ResourceExhausted,
            FilterError::Other(_) => ErrorKind::Internal,
        }
    }

    pub fn kind(&self) -> (r: ErrorKind)
        ensures
            r == self.spec_kind(),
    {
        match self {
            FilterError::InvalidInput { .. } => ErrorKind::InvalidInput,
            FilterError::ResourceExhausted { .. } => ErrorKind::ResourceExhausted,
            FilterError::Other(_) => ErrorKind::Internal,
        }
    }

    pub open spec fn spec_text(&self) -> Seq<char> {
        match self {
            FilterError::InvalidInput { message } => "invalid filter input: "@ + message@,
            FilterError::ResourceExhausted { message } => "filter resource exhausted: "@ + message@,
            FilterError::Other(m) => m@,
        }
    }

    /// The error message.
    pub fn to_string(&self) -> (r: String)
        ensures
            r@ == self.spec_text(),
    {
        let mut s = String::new();
        match self {
            FilterError::InvalidInput { message } => {
                push_text(&mut s, "invalid filter input: ");
                push_text(&mut s, message.as_str());
            },
            FilterError::ResourceExhausted { message } => {
                push_text(&mut s, "filter resource exhausted: ");
                push_text(&mut s, message.as_str());
            },
            FilterError::Other(m) => push_text(&mut s, m.as_str()),
        }
        s
    }
}

/// A pre-flight configuration problem found by pipeline validation.
#[derive(Debug, Clone, Copy, PartialEq, Eq, Structural)]
pub enum ValidationError {
    MissingDemuxer,
    MissingMuxer,
    EncoderWithoutDecoder(TrackIndex),
    DecoderWithoutEncoder(TrackIndex),
    AudioEncoderWithoutDecoder(TrackIndex),
    AudioDecoderWithoutEncoder(TrackIndex),
    OrphanVideoFilter(TrackIndex),
    OrphanAudioFilter(TrackIndex),
}

/// Errors produced by pipeline orchestration; wraps stage-specific errors.
#[derive(Debug, Clone)]
pub enum PipelineError {
    Demux(DemuxError),
    Decode(DecodeError),
    Filter(FilterError),
    Encode(EncodeError),
    Mux(MuxError),
    Config { message: String },
    Validation(ValidationError),
    Other(String),
}

impl PipelineError {
    pub open spec fn spec_kind(&self) -> ErrorKind {
        match self {
            PipelineError::Demux(e) => e.spec_kind(),
            PipelineError::Decode(e) => e.spec_kind(),
            PipelineError::Filter(e) => e.spec_kind(),
            PipelineError::Encode(e) => e.spec_kind(),
            PipelineError::Mux(e) => e.spec_kind(),
            PipelineError::Config { .. } => ErrorKind::InvalidInput,
            PipelineError::Validation(_) => ErrorKind::InvalidInput,
            PipelineError::Other(_) => ErrorKind::Internal,
        }
    }

    /// The kind of the error, delegated to the wrapped stage error.
    pub fn kind(&self) -> (r: ErrorKind)
        ensures
            r == self.spec_kind(),
    {
        match self {
            PipelineError::Demux(e) => e.kind(),
            PipelineError::Decode(e) => e.kind(),
            PipelineError::Filter(e) => e.kind(),
            PipelineError::Encode(e) => e.kind(),
            PipelineError::Mux(e) => e.kind(),
            PipelineError::Config { .. } => ErrorKind::InvalidInput,
            PipelineError::Validation(_) => ErrorKind::InvalidInput,
            PipelineError::Other(_) => ErrorKind::Internal,
        }
    }
}

} // verus!
