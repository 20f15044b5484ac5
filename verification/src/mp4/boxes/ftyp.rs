//! File Type Box (ftyp) parser.

use vstd::prelude::*;
use crate::mp4::error::Mp4Error;
use crate::wire::{read_be32_at, seq_be32};

verus! {

/// Parsed file type box.
#[derive(Debug)]
pub struct FileTypeBox {
    pub major_brand: [u8; 4],
    pub minor_version: u32,
    pub compatible_brands: Vec<[u8; 4]>,
}

/// Parse an ftyp box body.
pub fn parse_ftyp(data: &[u8], offset: u64) -> (r: Result<FileTypeBox, Mp4Error>)
    ensures
        r is Ok <==> data@.len() >= 8,
        r matches Ok(b) ==> {
            &&& b.major_brand@ == data@.subrange(0, 4)
            &&& b.minor_version == seq_be32(data@, 4)
            &&& b.compatible_brands@.len() == (data@.len() - 8) / 4
            &&& forall|i: int| 0 <= i < b.compatible_brands@.len()
                ==> (#[trigger] b.compatible_brands@[i])@ == data@.subrange(8 + 4 * i, 12 + 4 * i)
        },
        r matches Err(e) ==> e matches Mp4Error::UnexpectedEof { offset: o } && o == offset,
{
    if data.len() < 8 {
        return Err(Mp4Error::UnexpectedEof { offset });
    }
    let major_brand = [data[0], data[1], data[2], data[3]];
    assert(major_brand@ =~= data@.subrange(0, 4));
    let minor_version = read_be32_at(data, 4);
    let brand_count = (data.len() - 8) / 4;
    let mut compatible_brands: Vec<[u8; 4]> = Vec::new();
    let mut i: usize = 0;
    while i < brand_count
        invariant
            data@.len() <= usize::MAX,
            i <= brand_count,
            brand_count == (data@.len() - 8) / 4,
            data@.len() >= 8,
            compatible_brands@.len() == i,
            forall|k: int| 0 <= k < i
                ==> (#[trigger] compatible_brands@[k])@ == data@.subrange(8 + 4 * k, 12 + 4 * k),
        decreases brand_count - i,
    {
        let start = 8 + i * 4;
        let brand = [data[start], data[start + 1], data[start + 2], data[start + 3]];
        assert(brand@ =~= data@.subrange(8 + 4 * i, 12 + 4 * i));
        compatible_brands.push(brand);
        i = i + 1;
    }
    Ok(FileTypeBox { major_brand, minor_version, compatible_brands })
}

} // verus!
