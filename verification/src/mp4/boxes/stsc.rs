//! Sample-to-Chunk Box (stsc) parser.

use vstd::prelude::*;
use crate::mp4::error::Mp4Error;
use crate::mp4::boxes::stts::table_fits;
use crate::wire::{read_be32_at, seq_be32};

verus! {

#[derive(Debug, Clone, Copy, PartialEq, Eq, Structural)]
pub struct StscEntry {
    /// First chunk number (1-indexed).
    pub first_chunk: u32,
    pub samples_per_chunk: u32,
    pub sample_description_index: u32,
}

#[derive(Debug)]
pub struct SampleToChunkBox {
    pub entries: Vec<StscEntry>,
}

/// The entries an stsc payload lists.
pub open spec fn stsc_table(b: Seq<u8>) -> Seq<StscEntry> {
    Seq::new(seq_be32(b, 4) as nat, |i: int| StscEntry {
        first_chunk: seq_be32(b, 8 + 12 * i),
        samples_per_chunk: seq_be32(b, 12 + 12 * i),
        sample_description_index: seq_be32(b, 16 + 12 * i),
    })
}

pub fn parse_stsc(data: &[u8], offset: u64) -> (r: Result<SampleToChunkBox, Mp4Error>)
    ensures
        r is Ok <==> table_fits(data@, 12),
        r matches Ok(b) ==> b.entries@ == stsc_table(data@),
        r matches Ok(b) ==> {
            &&& b.entries@.len() == seq_be32(data@, 4)
            &&& forall|i: int| 0 <= i < b.entries@.len() ==> {
                &&& #[trigger] b.entries@[i].first_chunk == seq_be32(data@, 8 + 12 * i)
                &&& b.entries@[i].samples_per_chunk == seq_be32(data@, 12 + 12 * i)
                &&& b.entries@[i].sample_description_index == seq_be32(data@, 16 + 12 * i)
            }
        },
        r matches Err(e) ==> e matches Mp4Error::UnexpectedEof { offset: o } && o == offset,
{
    if data.len() < 8 {
        return Err(Mp4Error::UnexpectedEof { offset });
    }
    let entry_count = read_be32_at(data, 4);
    if ((data.len() - 8) as u64) < (entry_count as u64) * 12 {
        return Err(Mp4Error::UnexpectedEof { offset });
    }
    let mut entries: Vec<StscEntry> = Vec::new();
    let mut i: u32 = 0;
    let mut pos: usize = 8;
    while i < entry_count
        invariant
            data@.len() <= usize::MAX,
            i <= entry_count,
            entry_count == seq_be32(data@, 4),
            data@.len() - 8 >= entry_count * 12,
            pos == 8 + 12 * i,
            entries@.len() == i,
            forall|k: int| 0 <= k < i ==> {
                &&& #[trigger] entries@[k].first_chunk == seq_be32(data@, 8 + 12 * k)
                &&& entries@[k].samples_per_chunk == seq_be32(data@, 12 + 12 * k)
                &&& entries@[k].sample_description_index == seq_be32(data@, 16 + 12 * k)
            },
        decreases entry_count - i,
    {
        let first_chunk = read_be32_at(data, pos);
        let samples_per_chunk = read_be32_at(data, pos + 4);
        let sample_description_index = read_be32_at(data, pos + 8);
        let ghost before = entries@;
        entries.push(StscEntry { first_chunk, samples_per_chunk, sample_description_index });
        assert forall|k: int| 0 <= k < i + 1 implies {
            &&& #[trigger] entries@[k].first_chunk == seq_be32(data@, 8 + 12 * k)
            &&& entries@[k].samples_per_chunk == seq_be32(data@, 12 + 12 * k)
            &&& entries@[k].sample_description_index == seq_be32(data@, 16 + 12 * k)
        } by {
            if k < i {
                assert(entries@[k] == before[k]);
            } else {
                assert(k == i);
                assert(8 + 12 * k == pos);
            }
        }
        i = i + 1;
        pos = pos + 12;
    }
    proof {
        assert forall|k: int| 0 <= k < entries@.len() implies entries@[k] == stsc_table(data@)[k] by {
            assert(entries@[k].first_chunk == seq_be32(data@, 8 + 12 * k));
        }
        assert(entries@ =~= stsc_table(data@));
    }
    Ok(SampleToChunkBox { entries })
}

} // verus!
