//! Sync Sample Box (stss) parser.

use vstd::prelude::*;
use crate::mp4::error::Mp4Error;
use crate::mp4::boxes::stts::table_fits;
use crate::wire::{read_be32_at, seq_be32};

verus! {

/// Parsed sync sample box. Contains 1-indexed sample numbers of keyframes.
#[derive(Debug)]
pub struct SyncSampleBox {
    /// 1-indexed sample numbers that are sync (key) frames.
    pub sync_samples: Vec<u32>,
}

pub fn parse_stss(data: &[u8], offset: u64) -> (r: Result<SyncSampleBox, Mp4Error>)
    ensures
        r is Ok <==> table_fits(data@, 4),
        r matches Ok(b) ==> {
            &&& b.sync_samples@.len() == seq_be32(data@, 4)
            &&& forall|i: int| 0 <= i < b.sync_samples@.len()
                ==> #[trigger] b.sync_samples@[i] == seq_be32(data@, 8 + 4 * i)
        },
        r matches Err(e) ==> e matches Mp4Error::UnexpectedEof { offset: o } && o == offset,
{
    if data.len() < 8 {
        return Err(Mp4Error::UnexpectedEof { offset });
    }
    let entry_count = read_be32_at(data, 4);
    if ((data.len() - 8) as u64) < (entry_count as u64) * 4 {
        return Err(Mp4Error::UnexpectedEof { offset });
    }
    let mut sync_samples: Vec<u32> = Vec::new();
    let mut i: u32 = 0;
    let mut pos: usize = 8;
    while i < entry_count
        invariant
            data@.len() <= usize::MAX,
            i <= entry_count,
            entry_count == seq_be32(data@, 4),
            data@.len() - 8 >= entry_count * 4,
            pos == 8 + 4 * i,
            sync_samples@.len() == i,
            forall|k: int| 0 <= k < i ==> #[trigger] sync_samples@[k] == seq_be32(data@, 8 + 4 * k),
        decreases entry_count - i,
    {
        sync_samples.push(read_be32_at(data, pos));
        i = i + 1;
        pos = pos + 4;
    }
    Ok(SyncSampleBox { sync_samples })
}

} // verus!
