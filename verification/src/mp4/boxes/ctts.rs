//! Composition Time Offset Box (ctts) parser.

use vstd::prelude::*;
use crate::mp4::error::Mp4Error;
use crate::mp4::boxes::stts::table_fits;
use crate::wire::{read_be32_at, seq_be32};

verus! {

#[derive(Debug, Clone, Copy, PartialEq, Eq, Structural)]
pub struct CttsEntry {
    pub sample_count: u32,
    /// Composition offset. Version 0 stores it as u32, version 1 as i32;
    /// both are read as the same 32 bits reinterpreted as i32.
    pub sample_offset: i32,
}

#[derive(Debug)]
pub struct CompositionOffsetBox {
    pub entries: Vec<CttsEntry>,
}

/// The runs a ctts payload lists.
pub open spec fn ctts_table(b: Seq<u8>) -> Seq<CttsEntry> {
    Seq::new(seq_be32(b, 4) as nat, |i: int| CttsEntry {
        sample_count: seq_be32(b, 8 + 8 * i),
        sample_offset: seq_be32(b, 12 + 8 * i) as i32,
    })
}

pub fn parse_ctts(data: &[u8], offset: u64) -> (r: Result<CompositionOffsetBox, Mp4Error>)
    ensures
        r is Ok <==> table_fits(data@, 8),
        r matches Ok(b) ==> b.entries@ == ctts_table(data@),
        r matches Ok(b) ==> {
            &&& b.entries@.len() == seq_be32(data@, 4)
            &&& forall|i: int| 0 <= i < b.entries@.len() ==> {
                &&& #[trigger] b.entries@[i].sample_count == seq_be32(data@, 8 + 8 * i)
                &&& b.entries@[i].sample_offset == seq_be32(data@, 12 + 8 * i) as i32
            }
        },
        r matches Err(e) ==> e matches Mp4Error::UnexpectedEof { offset: o } && o == offset,
{
    if data.len() < 8 {
        return Err(Mp4Error::UnexpectedEof { offset });
    }
    let entry_count = read_be32_at(data, 4);
    if ((data.len() - 8) as u64) < (entry_count as u64) * 8 {
        return Err(Mp4Error::UnexpectedEof { offset });
    }
    let mut entries: Vec<CttsEntry> = Vec::new();
    let mut i: u32 = 0;
    let mut pos: usize = 8;
    while i < entry_count
        invariant
            data@.len() <= usize::MAX,
            i <= entry_count,
            entry_count == seq_be32(data@, 4),
            data@.len() - 8 >= entry_count * 8,
            pos == 8 + 8 * i,
            entries@.len() == i,
            forall|k: int| 0 <= k < i ==> {
                &&& #[trigger] entries@[k].sample_count == seq_be32(data@, 8 + 8 * k)
                &&& entries@[k].sample_offset == seq_be32(data@, 12 + 8 * k) as i32
            },
        decreases entry_count - i,
    {
        let sample_count = read_be32_at(data, pos);
        let raw_offset = read_be32_at(data, pos + 4);
        entries.push(CttsEntry { sample_count, sample_offset: raw_offset as i32 });
        i = i + 1;
        pos = pos + 8;
    }
    proof {
        assert forall|k: int| 0 <= k < entries@.len() implies entries@[k] == ctts_table(data@)[k] by {
            assert(entries@[k].sample_count == seq_be32(data@, 8 + 8 * k));
        }
        assert(entries@ =~= ctts_table(data@));
    }
    Ok(CompositionOffsetBox { entries })
}

} // verus!
