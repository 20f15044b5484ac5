//! Chunk Offset Box (stco / co64) parser.

use vstd::prelude::*;
use crate::mp4::error::Mp4Error;
use crate::mp4::boxes::stts::table_fits;
use crate::wire::{read_be32_at, read_be64_at, seq_be32, seq_be64};

verus! {

/// Parsed chunk offsets (handles both stco and co64).
#[derive(Debug)]
pub struct ChunkOffsetBox {
    pub offsets: Vec<u64>,
}

/// Parse an stco box body (32-bit chunk offsets).
pub fn parse_stco(data: &[u8], offset: u64) -> (r: Result<ChunkOffsetBox, Mp4Error>)
    ensures
        r is Ok <==> table_fits(data@, 4),
        r matches Ok(b) ==> {
            &&& b.offsets@.len() == seq_be32(data@, 4)
            &&& forall|i: int| 0 <= i < b.offsets@.len()
                ==> #[trigger] b.offsets@[i] == seq_be32(data@, 8 + 4 * i) as u64
        },
        r matches Err(e) ==> e matches Mp4Error::UnexpectedEof { offset: o } && o == offset,
{
    if data.len() < 8 {
        return Err(Mp4Error::UnexpectedEof { offset });
    }
    let entry_count = read_be32_at(data, 4);
    if ((data.len() - 8) as u64) < (entry_count as u64) * 4 {
        return Err(Mp4Error::UnexpectedEof { offset });
    }
    let mut offsets: Vec<u64> = Vec::new();
    let mut i: u32 = 0;
    let mut pos: usize = 8;
    while i < entry_count
        invariant
            data@.len() <= usize::MAX,
            i <= entry_count,
            entry_count == seq_be32(data@, 4),
            data@.len() - 8 >= entry_count * 4,
            pos == 8 + 4 * i,
            offsets@.len() == i,
            forall|k: int| 0 <= k < i ==> #[trigger] offsets@[k] == seq_be32(data@, 8 + 4 * k) as u64,
        decreases entry_count - i,
    {
        offsets.push(read_be32_at(data, pos) as u64);
        i = i + 1;
        pos = pos + 4;
    }
    Ok(ChunkOffsetBox { offsets })
}

/// Parse a co64 box body (64-bit chunk offsets).
pub fn parse_co64(data: &[u8], offset: u64) -> (r: Result<ChunkOffsetBox, Mp4Error>)
    ensures
        r is Ok <==> table_fits(data@, 8),
        r matches Ok(b) ==> {
            &&& b.offsets@.len() == seq_be32(data@, 4)
            &&& forall|i: int| 0 <= i < b.offsets@.len()
                ==> #[trigger] b.offsets@[i] == seq_be64(data@, 8 + 8 * i)
        },
        r matches Err(e) ==> e matches Mp4Error::UnexpectedEof { offset: o } && o == offset,
{
    if data.len() < 8 {
        return Err(Mp4Error::UnexpectedEof { offset });
    }
    let entry_count = read_be32_at(data, 4);
    if ((data.len() - 8) as u64) < (entry_count as u64) * 8 {
        return Err(Mp4Error::UnexpectedEof { offset });
    }
    let mut offsets: Vec<u64> = Vec::new();
    let mut i: u32 = 0;
    let mut pos: usize = 8;
    while i < entry_count
        invariant
            data@.len() <= usize::MAX,
            i <= entry_count,
            entry_count == seq_be32(data@, 4),
            data@.len() - 8 >= entry_count * 8,
            pos == 8 + 8 * i,
            offsets@.len() == i,
            forall|k: int| 0 <= k < i ==> #[trigger] offsets@[k] == seq_be64(data@, 8 + 8 * k),
        decreases entry_count - i,
    {
        offsets.push(read_be64_at(data, pos));
        i = i + 1;
        pos = pos + 8;
    }
    Ok(ChunkOffsetBox { offsets })
}

} // verus!
