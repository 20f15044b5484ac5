//! Time-to-Sample Box (stts) parser.

use vstd::prelude::*;
use crate::mp4::error::Mp4Error;
use crate::wire::{read_be32_at, seq_be32};

verus! {

#[derive(Debug, Clone, Copy, PartialEq, Eq, Structural)]
pub struct SttsEntry {
    pub sample_count: u32,
    pub sample_delta: u32,
}

#[derive(Debug)]
pub struct TimeToSampleBox {
    pub entries: Vec<SttsEntry>,
}

/// The table of `entry_count` records of `width` bytes that follows a full-box
/// header and a 32-bit entry count fits in `s`.
pub open spec fn table_fits(s: Seq<u8>, width: int) -> bool {
    s.len() >= 8 && s.len() - 8 >= seq_be32(s, 4) * width
}

/// The runs an stts payload lists.
pub open spec fn stts_table(b: Seq<u8>) -> Seq<SttsEntry> {
    Seq::new(seq_be32(b, 4) as nat, |i: int| SttsEntry { sample_count: seq_be32(b, 8 + 8 * i), sample_delta: seq_be32(b, 12 + 8 * i) })
}

pub fn parse_stts(data: &[u8], offset: u64) -> (r: Result<TimeToSampleBox, Mp4Error>)
    ensures
        r is Ok <==> table_fits(data@, 8),
        r matches Ok(b) ==> b.entries@ == stts_table(data@),
        r matches Ok(b) ==> {
            &&& b.entries@.len() == seq_be32(data@, 4)
            &&& forall|i: int| 0 <= i < b.entries@.len() ==> {
                &&& #[trigger] b.entries@[i].sample_count == seq_be32(data@, 8 + 8 * i)
                &&& b.entries@[i].sample_delta == seq_be32(data@, 12 + 8 * i)
            }
        },
        r matches Err(e) ==> e matches Mp4Error::UnexpectedEof { offset: o } && o == offset,
{
    if data.len() < 8 {
        return Err(Mp4Error::UnexpectedEof { offset });
    }
    let entry_count = read_be32_at(data, 4);
    if ((data.len() - 8) as u64) < (entry_count as u64) * 8 {
        return Err(Mp4Error::UnexpectedEof { offset });
    }
    let mut entries: Vec<SttsEntry> = Vec::new();
    let mut i: u32 = 0;
    let mut pos: usize = 8;
    while i < entry_count
        invariant
            data@.len() <= usize::MAX,
            i <= entry_count,
            entry_count == seq_be32(data@, 4),
            data@.len() - 8 >= entry_count * 8,
            pos == 8 + 8 * i,
            entries@.len() == i,
            forall|k: int| 0 <= k < i ==> {
                &&& #[trigger] entries@[k].sample_count == seq_be32(data@, 8 + 8 * k)
                &&& entries@[k].sample_delta == seq_be32(data@, 12 + 8 * k)
            },
        decreases entry_count - i,
    {
        let sample_count = read_be32_at(data, pos);
        let sample_delta = read_be32_at(data, pos + 4);
        entries.push(SttsEntry { sample_count, sample_delta });
        i = i + 1;
        pos = pos + 8;
    }
    proof {
        assert forall|k: int| 0 <= k < entries@.len() implies entries@[k] == stts_table(data@)[k] by {
            assert(entries@[k].sample_count == seq_be32(data@, 8 + 8 * k));
        }
        assert(entries@ =~= stts_table(data@));
    }
    Ok(TimeToSampleBox { entries })
}

} // verus!
