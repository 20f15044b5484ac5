//! Handler Reference Box (hdlr) parser.

use vstd::prelude::*;
use crate::mp4::error::Mp4Error;

verus! {

/// Handler type from an hdlr box.
#[derive(Debug, Clone, Copy)]
pub enum HandlerType {
    /// Video track (`vide`).
    Video,
    /// Audio track (`soun`).
    Audio,
    /// Subtitle track (`sbtl`, `text` or `subt`).
    Subtitle,
    /// Any other handler type.
    Other([u8; 4]),
}

/// The four bytes `vide`.
pub open spec fn vide() -> Seq<u8> { seq![0x76u8, 0x69u8, 0x64u8, 0x65u8] }
/// The four bytes `soun`.
pub open spec fn soun() -> Seq<u8> { seq![0x73u8, 0x6fu8, 0x75u8, 0x6eu8] }
/// The four bytes `sbtl`.
pub open spec fn sbtl() -> Seq<u8> { seq![0x73u8, 0x62u8, 0x74u8, 0x6cu8] }
/// The four bytes `text`.
pub open spec fn text4() -> Seq<u8> { seq![0x74u8, 0x65u8, 0x78u8, 0x74u8] }
/// The four bytes `subt`.
pub open spec fn subt() -> Seq<u8> { seq![0x73u8, 0x75u8, 0x62u8, 0x74u8] }

impl HandlerType {
    /// The four-byte code written for this handler.
    pub open spec fn spec_bytes(&self) -> Seq<u8> {
        match self {
            HandlerType::Video => vide(),
            HandlerType::Audio => soun(),
            HandlerType::Subtitle => sbtl(),
            HandlerType::Other(b) => b@,
        }
    }

    /// The handler that a four-byte code read from an hdlr box denotes.
    pub open spec fn spec_from_bytes(b: Seq<u8>) -> HandlerType {
        if b == vide() {
            HandlerType::Video
        } else if b == soun() {
            HandlerType::Audio
        } else if b == sbtl() || b == text4() || b == subt() {
            HandlerType::Subtitle
        } else {
            HandlerType::Other([b[0], b[1], b[2], b[3]])
        }
    }

    /// Returns the four-byte representation for box building.
    pub fn as_bytes(&self) -> (r: [u8; 4])
        ensures
            r@ == self.spec_bytes(),
    {
        let r = match self {
            HandlerType::Video => [0x76u8, 0x69, 0x64, 0x65],
            HandlerType::Audio => [0x73u8, 0x6f, 0x75, 0x6e],
            HandlerType::Subtitle => [0x73u8, 0x62, 0x74, 0x6c],
            HandlerType::Other(fourcc) => *fourcc,
        };
        assert(r@ =~= self.spec_bytes());
        r
    }

    fn from_bytes(bytes: [u8; 4]) -> (r: HandlerType)
        ensures
            r == HandlerType::spec_from_bytes(bytes@),
    {
        let b = bytes;
        if b[0] == 0x76 && b[1] == 0x69 && b[2] == 0x64 && b[3] == 0x65 {
            assert(b@ =~= vide());
            HandlerType::Video
        } else if b[0] == 0x73 && b[1] == 0x6f && b[2] == 0x75 && b[3] == 0x6e {
            assert(b@ =~= soun());
            assert(b@ != vide());
            HandlerType::Audio
        } else if (b[0] == 0x73 && b[1] == 0x62 && b[2] == 0x74 && b[3] == 0x6c)
            || (b[0] == 0x74 && b[1] == 0x65 && b[2] == 0x78 && b[3] == 0x74)
            || (b[0] == 0x73 && b[1] == 0x75 && b[2] == 0x62 && b[3] == 0x74) {
            assert(b@ != vide() && b@ != soun()) by {
                assert(b@[0] != vide()[0] || b@[1] != vide()[1]);
                assert(b@[1] != soun()[1] || b@[0] != soun()[0]);
            }
            assert(b@ =~= sbtl() || b@ =~= text4() || b@ =~= subt());
            HandlerType::Subtitle
        } else {
            assert(b@ != vide()) by { if b@ == vide() { assert(b@[0] == 0x76 && b@[1] == 0x69 && b@[2] == 0x64 && b@[3] == 0x65); } }
            assert(b@ != soun()) by { if b@ == soun() { assert(b@[0] == 0x73 && b@[1] == 0x6f && b@[2] == 0x75 && b@[3] == 0x6e); } }
            assert(b@ != sbtl()) by { if b@ == sbtl() { assert(b@[0] == 0x73 && b@[1] == 0x62 && b@[2] == 0x74 && b@[3] == 0x6c); } }
            assert(b@ != text4()) by { if b@ == text4() { assert(b@[0] == 0x74 && b@[1] == 0x65 && b@[2] == 0x78 && b@[3] == 0x74); } }
            assert(b@ != subt()) by { if b@ == subt() { assert(b@[0] == 0x73 && b@[1] == 0x75 && b@[2] == 0x62 && b@[3] == 0x74); } }
            let r = HandlerType::Other(b);
            assert([b@[0], b@[1], b@[2], b@[3]] =~= b);
            r
        }
    }

    /// Whether this is the video handler.
    pub fn is_video(&self) -> (r: bool)
        ensures
            r == (self is Video),
    {
        matches!(self, HandlerType::Video)
    }

    /// Whether this is the audio handler.
    pub fn is_audio(&self) -> (r: bool)
        ensures
            r == (self is Audio),
    {
        matches!(self, HandlerType::Audio)
    }

    /// Whether this is the subtitle handler.
    pub fn is_subtitle(&self) -> (r: bool)
        ensures
            r == (self is Subtitle),
    {
        matches!(self, HandlerType::Subtitle)
    }
}

/// Parsed handler box.
#[derive(Debug)]
pub struct HandlerBox {
    /// Handler type: video, audio, or other.
    pub handler_type: HandlerType,
}

/// Parse an hdlr box body.
pub fn parse_hdlr(data: &[u8], offset: u64) -> (r: Result<HandlerBox, Mp4Error>)
    ensures
        r is Ok <==> data@.len() >= 12,
        r matches Ok(b) ==> b.handler_type == HandlerType::spec_from_bytes(data@.subrange(8, 12)),
        r matches Err(e) ==> e matches Mp4Error::UnexpectedEof { offset: o } && o == offset,
{
    if data.len() < 12 {
        return Err(Mp4Error::UnexpectedEof { offset });
    }
    let fourcc = [data[8], data[9], data[10], data[11]];
    assert(fourcc@ =~= data@.subrange(8, 12));
    Ok(HandlerBox { handler_type: HandlerType::from_bytes(fourcc) })
}

} // verus!
