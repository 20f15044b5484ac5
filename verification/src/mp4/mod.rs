//! MP4 (ISO BMFF) parsing, sample tables, box building and muxing state.

pub mod box_builders;
pub mod boxes;
pub mod demuxer;
pub mod error;
pub mod metadata;
pub mod fmp4_box_builders;
pub mod fmp4_muxer;
pub mod mux_sample_table;
pub mod moov_round_trip;
pub mod muxer;
pub mod round_trip;
pub mod seeking;
pub mod sample_table;
pub mod track;
pub mod track_parsing;
