//! Track Header Box (tkhd) parser.

use vstd::prelude::*;
use crate::mp4::error::Mp4Error;
use crate::text::{dec, push_dec, push_text};
use crate::wire::{read_be32_at, read_be64_at, seq_be32, seq_be64};

verus! {

/// Parsed track header box.
#[derive(Debug)]
pub struct TrackHeaderBox {
    pub track_id: u32,
    pub duration: u64,
    /// Width in pixels (integer part of the 16.16 fixed-point field).
    pub width: u32,
    /// Height in pixels (integer part of the 16.16 fixed-point field).
    pub height: u32,
}

/// Parse a tkhd box body.
pub fn parse_tkhd(data: &[u8], offset: u64) -> (r: Result<TrackHeaderBox, Mp4Error>)
    ensures
        r is Ok <==> data@.len() >= 4 && ((data@[0] == 0 && data@.len() >= 84)
            || (data@[0] == 1 && data@.len() >= 96)),
        r matches Ok(b) ==> if data@[0] == 0 {
            &&& b.track_id == seq_be32(data@, 12)
            &&& b.duration == seq_be32(data@, 20) as u64
            &&& b.width == seq_be32(data@, 76) >> 16u32
            &&& b.height == seq_be32(data@, 80) >> 16u32
        } else {
            &&& b.track_id == seq_be32(data@, 20)
            &&& b.duration == seq_be64(data@, 28)
            &&& b.width == seq_be32(data@, 88) >> 16u32
            &&& b.height == seq_be32(data@, 92) >> 16u32
        },
        r matches Err(e) ==> {
            ||| data@.len() >= 4 && data@[0] > 1 && (e matches Mp4Error::InvalidBox { offset: o, message }
                && o == offset && message@ == "unsupported tkhd version "@ + dec(data@[0] as nat))
            ||| (data@.len() < 4 || data@[0] <= 1) && (e matches Mp4Error::UnexpectedEof { offset: o } && o == offset)
        },
{
    if data.len() < 4 {
        return Err(Mp4Error::UnexpectedEof { offset });
    }
    let version = data[0];
    if version == 0 {
        if data.len() < 84 {
            return Err(Mp4Error::UnexpectedEof { offset });
        }
        let track_id = read_be32_at(data, 12);
        let duration = read_be32_at(data, 20) as u64;
        let width_fp = read_be32_at(data, 76);
        let height_fp = read_be32_at(data, 80);
        Ok(TrackHeaderBox { track_id, duration, width: width_fp >> 16u32, height: height_fp >> 16u32 })
    } else if version == 1 {
        if data.len() < 96 {
            return Err(Mp4Error::UnexpectedEof { offset });
        }
        let track_id = read_be32_at(data, 20);
        let duration = read_be64_at(data, 28);
        let width_fp = read_be32_at(data, 88);
        let height_fp = read_be32_at(data, 92);
        Ok(TrackHeaderBox { track_id, duration, width: width_fp >> 16u32, height: height_fp >> 16u32 })
    } else {
        let mut message = String::new();
        push_text(&mut message, "unsupported tkhd version ");
        push_dec(&mut message, version as u64);
        Err(Mp4Error::InvalidBox { offset, message })
    }
}

} // verus!
