//! Media Header Box (mdhd) parser.

use vstd::prelude::*;
use crate::mp4::error::Mp4Error;
use crate::text::{dec, push_dec, push_text};
use crate::wire::{read_be32_at, read_be64_at, seq_be32, seq_be64};

verus! {

/// Parsed mdhd box.
#[derive(Debug)]
pub struct MediaHeaderBox {
    pub timescale: u32,
    pub duration: u64,
}

/// Parse an mdhd box body (version 0: 32-bit times; version 1: 64-bit times).
pub fn parse_mdhd(data: &[u8], offset: u64) -> (r: Result<MediaHeaderBox, Mp4Error>)
    ensures
        r is Ok <==> data@.len() >= 4 && ((data@[0] == 0 && data@.len() >= 20)
            || (data@[0] == 1 && data@.len() >= 32)),
        r matches Ok(b) ==> if data@[0] == 0 {
            b.timescale == seq_be32(data@, 12) && b.duration == seq_be32(data@, 16) as u64
        } else {
            b.timescale == seq_be32(data@, 20) && b.duration == seq_be64(data@, 24)
        },
        r matches Err(e) ==> {
            ||| data@.len() >= 4 && data@[0] > 1 && (e matches Mp4Error::InvalidBox { offset: o, message }
                && o == offset && message@ == "unsupported mdhd version "@ + dec(data@[0] as nat))
            ||| (data@.len() < 4 || data@[0] <= 1) && (e matches Mp4Error::UnexpectedEof { offset: o } && o == offset)
        },
{
    if data.len() < 4 {
        return Err(Mp4Error::UnexpectedEof { offset });
    }
    let version = data[0];
    if version == 0 {
        if data.len() < 20 {
            return Err(Mp4Error::UnexpectedEof { offset });
        }
        let timescale = read_be32_at(data, 12);
        let duration = read_be32_at(data, 16) as u64;
        Ok(MediaHeaderBox { timescale, duration })
    } else if version == 1 {
        if data.len() < 32 {
            return Err(Mp4Error::UnexpectedEof { offset });
        }
        let timescale = read_be32_at(data, 20);
        let duration = read_be64_at(data, 24);
        Ok(MediaHeaderBox { timescale, duration })
    } else {
        let mut message = String::new();
        push_text(&mut message, "unsupported mdhd version ");
        push_dec(&mut message, version as u64);
        Err(Mp4Error::InvalidBox { offset, message })
    }
}

} // verus!
