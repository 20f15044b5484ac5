//! MP4-specific error type.

use vstd::prelude::*;
use crate::error::DemuxError;
use crate::text::{dec, push_dec, push_text};

verus! {

/// Errors produced by MP4 parsing and demuxing operations.
///
/// `Io` carries the message of the underlying I/O failure.
#[derive(Debug, Clone)]
pub enum Mp4Error {
    NotMp4,
    InvalidBox { offset: u64, message: String },
    UnexpectedEof { offset: u64 },
    UnsupportedCodec { fourcc: String },
    MissingBox { name: &'static str },
    ResourceExhausted { message: String },
    Io(String),
}

impl Mp4Error {
    pub open spec fn spec_text(&self) -> Seq<char> {
        match self {
            Mp4Error::NotMp4 => "not an MP4 file: missing or invalid ftyp box"@,
            Mp4Error::InvalidBox { offset, message } =>
                "invalid box at offset "@ + dec(*offset as nat) + ": "@ + message@,
            Mp4Error::UnexpectedEof { offset } =>
                "unexpected end of file at offset "@ + dec(*offset as nat),
            Mp4Error::UnsupportedCodec { fourcc } => "unsupported codec: "@ + fourcc@,
            Mp4Error::MissingBox { name } => "missing required box: "@ + name@,
            Mp4Error::ResourceExhausted { message } => "resource exhausted: "@ + message@,
            Mp4Error::Io(m) => m@,
        }
    }

    /// The error message.
    pub fn to_string(&self) -> (r: String)
        ensures
            r@ == self.spec_text(),
    {
        let mut s = String::new();
        match self {
            Mp4Error::NotMp4 => push_text(&mut s, "not an MP4 file: missing or invalid ftyp box"),
            Mp4Error::InvalidBox { offset, message } => {
                push_text(&mut s, "invalid box at offset ");
                push_dec(&mut s, *offset);
                push_text(&mut s, ": ");
                push_text(&mut s, message.as_str());
            },
            Mp4Error::UnexpectedEof { offset } => {
                push_text(&mut s, "unexpected end of file at offset ");
                push_dec(&mut s, *offset);
            },
            Mp4Error::UnsupportedCodec { fourcc } => {
                push_text(&mut s, "unsupported codec: ");
                push_text(&mut s, fourcc.as_str());
            },
            Mp4Error::MissingBox { name } => {
                push_text(&mut s, "missing required box: ");
                push_text(&mut s, *name);
            },
            Mp4Error::ResourceExhausted { message } => {
                push_text(&mut s, "resource exhausted: ");
                push_text(&mut s, message.as_str());
            },
            Mp4Error::Io(m) => push_text(&mut s, m.as_str()),
        }
        s
    }

    /// Converts into the generic demuxer error.
    pub fn into_demux_error(self) -> (r: DemuxError)
        ensures
            match self {
                Mp4Error::NotMp4 => r matches DemuxError::InvalidContainer { offset, message }
                    && offset == 0 && message@ == "not an MP4 file"@,
                Mp4Error::InvalidBox { offset, message } => r matches DemuxError::InvalidContainer { offset: o, message: m }
                    && o == offset && m@ == message@,
                Mp4Error::UnexpectedEof { offset } => r matches DemuxError::UnexpectedEof { offset: o }
                    && o == offset,
                Mp4Error::UnsupportedCodec { fourcc } => r matches DemuxError::UnsupportedCodec { codec }
                    && codec@ == fourcc@,
                Mp4Error::MissingBox { name } => r matches DemuxError::InvalidContainer { offset, message }
                    && offset == 0 && message@ == "missing required box: "@ + name@,
                Mp4Error::ResourceExhausted { message } => r matches DemuxError::Other(m)
                    && m@ == message@,
                Mp4Error::Io(m) => r matches DemuxError::Io(m2) && m2@ == m@,
            },
    {
        match self {
            Mp4Error::NotMp4 => {
                let mut m = String::new();
                push_text(&mut m, "not an MP4 file");
                DemuxError::InvalidContainer { offset: 0, message: m }
            },
            Mp4Error::InvalidBox { offset, message } => DemuxError::InvalidContainer { offset, message },
            Mp4Error::UnexpectedEof { offset } => DemuxError::UnexpectedEof { offset },
            Mp4Error::UnsupportedCodec { fourcc } => DemuxError::UnsupportedCodec { codec: fourcc },
            Mp4Error::MissingBox { name } => {
                let mut m = String::new();
                push_text(&mut m, "missing required box: ");
                push_text(&mut m, name);
                DemuxError::InvalidContainer { offset: 0, message: m }
            },
            Mp4Error::ResourceExhausted { message } => DemuxError::Other(message),
            Mp4Error::Io(m) => DemuxError::Io(m),
        }
    }
}

} // verus!
