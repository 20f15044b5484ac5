//! Opaque metadata boxes kept from an MP4 container.
//!
//! Stores raw box bytes (including the box header) so they can be carried
//! from demuxing to muxing without interpretation.

use vstd::prelude::*;
use crate::mp4::boxes::FourCC;

verus! {

/// An opaque metadata box (such as `udta` or `meta`) from the moov box:
/// its type and its complete bytes, header included.
#[derive(Debug, Clone)]
pub struct MetadataBox {
    /// The four-character code identifying this box.
    pub box_type: FourCC,
    /// The complete box data including header (size + fourcc + body).
    pub data: Vec<u8>,
}

} // verus!
