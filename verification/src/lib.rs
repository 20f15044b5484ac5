//! Media container processing: MP4 box parsing and building, EBML encoding,
//! rational timestamps, SMPTE timecodes, codec strings and frame filters.

pub mod wire;
pub mod codec_strings;
pub mod container_detect;
pub mod text;
pub mod error;
pub mod filter;
pub mod media;
pub mod mkv;
pub mod timestamp;
pub mod traits;
pub mod smpte;
pub mod mp4;
pub mod pipeline;
