//! Sample Size Box (stsz) parser.

use vstd::prelude::*;
use crate::mp4::error::Mp4Error;
use crate::wire::{read_be32_at, seq_be32};

verus! {

#[derive(Debug)]
pub struct SampleSizeBox {
    /// If non-zero, all samples have this size and `sample_sizes` is empty.
    pub default_sample_size: u32,
    /// Per-sample sizes (empty if `default_sample_size > 0`).
    pub sample_sizes: Vec<u32>,
    /// Total number of samples.
    pub sample_count: u32,
}

pub fn parse_stsz(data: &[u8], offset: u64) -> (r: Result<SampleSizeBox, Mp4Error>)
    ensures
        r is Ok <==> data@.len() >= 12 && (seq_be32(data@, 4) == 0
            ==> data@.len() - 12 >= seq_be32(data@, 8) * 4),
        r matches Ok(b) ==> {
            &&& b.default_sample_size == seq_be32(data@, 4)
            &&& b.sample_count == seq_be32(data@, 8)
            &&& if b.default_sample_size == 0 {
                &&& b.sample_sizes@.len() == b.sample_count
                &&& forall|i: int| 0 <= i < b.sample_sizes@.len()
                    ==> #[trigger] b.sample_sizes@[i] == seq_be32(data@, 12 + 4 * i)
            } else {
                b.sample_sizes@.len() == 0
            }
        },
        r matches Err(e) ==> e matches Mp4Error::UnexpectedEof { offset: o } && o == offset,
{
    if data.len() < 12 {
        return Err(Mp4Error::UnexpectedEof { offset });
    }
    let default_sample_size = read_be32_at(data, 4);
    let sample_count = read_be32_at(data, 8);
    let mut sample_sizes: Vec<u32> = Vec::new();
    if default_sample_size == 0 {
        if ((data.len() - 12) as u64) < (sample_count as u64) * 4 {
            return Err(Mp4Error::UnexpectedEof { offset });
        }
        let mut i: u32 = 0;
        let mut pos: usize = 12;
        while i < sample_count
            invariant
                data@.len() <= usize::MAX,
            data@.len() <= usize::MAX,
                i <= sample_count,
                sample_count == seq_be32(data@, 8),
                data@.len() - 12 >= sample_count * 4,
                pos == 12 + 4 * i,
                sample_sizes@.len() == i,
                forall|k: int| 0 <= k < i ==> #[trigger] sample_sizes@[k] == seq_be32(data@, 12 + 4 * k),
            decreases sample_count - i,
        {
            sample_sizes.push(read_be32_at(data, pos));
            i = i + 1;
            pos = pos + 4;
        }
    }
    Ok(SampleSizeBox { default_sample_size, sample_sizes, sample_count })
}

} // verus!
