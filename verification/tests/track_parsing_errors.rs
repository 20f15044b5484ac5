//! Which error `parse_track` and `Mp4Demuxer::from_moov` report for a trak or
//! moov body that does not parse.

use splica::mp4::box_builders::{build_dinf, build_hdlr, build_mdhd, build_mvhd, build_stsd, build_tkhd, build_vmhd, make_box};
use splica::mp4::boxes::hdlr::HandlerType;
use splica::mp4::boxes::mvhd::MovieHeaderBox;
use splica::mp4::boxes::stsd::CodecConfig;
use splica::mp4::demuxer::Mp4Demuxer;
use splica::mp4::error::Mp4Error;
use splica::mp4::mux_sample_table::{build_stco, build_stsc, build_stsz, build_stts, MuxSample};
use splica::mp4::track_parsing::parse_track;

fn movie() -> MovieHeaderBox {
    MovieHeaderBox { timescale: 1000, duration: 0 }
}

fn samples() -> Vec<MuxSample> {
    vec![MuxSample { offset: 40, size: 4, dts: 0, cts_offset: 0, is_sync: true }]
}

/// A version 1 tkhd box with 64-bit times.
fn tkhd_v1(track_id: u32, duration: u64) -> Vec<u8> {
    let mut b = vec![0u8; 96];
    b[0] = 1;
    b[20..24].copy_from_slice(&track_id.to_be_bytes());
    b[28..36].copy_from_slice(&duration.to_be_bytes());
    b[88..92].copy_from_slice(&(16u32 << 16).to_be_bytes());
    b[92..96].copy_from_slice(&(16u32 << 16).to_be_bytes());
    make_box(b"tkhd", &b)
}

/// A trak body with a video track whose sample table holds `tables`.
fn trak_body(tkhd_duration: u32, mdhd_timescale: u32, mdhd_duration: u32, tables: &[Vec<u8>]) -> Vec<u8> {
    trak_body_with(build_tkhd(1, tkhd_duration, 16, 16), mdhd_timescale, mdhd_duration, tables)
}

fn trak_body_with(tkhd: Vec<u8>, mdhd_timescale: u32, mdhd_duration: u32, tables: &[Vec<u8>]) -> Vec<u8> {
    let config = CodecConfig::Avc1 { width: 16, height: 16, avcc: vec![1, 0x42, 0xC0, 0x1E], color_space: None };
    let mut stbl = build_stsd(&config).unwrap();
    for t in tables {
        stbl.extend_from_slice(t);
    }
    let mut minf = build_vmhd();
    minf.extend_from_slice(&build_dinf());
    minf.extend_from_slice(&make_box(b"stbl", &stbl));
    let mut mdia = build_mdhd(mdhd_timescale, mdhd_duration);
    mdia.extend_from_slice(&build_hdlr(&HandlerType::Video));
    mdia.extend_from_slice(&make_box(b"minf", &minf));
    let mut trak = tkhd;
    trak.extend_from_slice(&make_box(b"mdia", &mdia));
    trak
}

fn full_tables() -> Vec<Vec<u8>> {
    let s = samples();
    vec![build_stts(&s), build_stsc(1), build_stsz(&s), build_stco(&s)]
}

#[test]
fn a_complete_trak_parses() {
    let t = parse_track(&trak_body(10, 90000, 900, &full_tables()), 0, &movie()).unwrap();
    assert_eq!((t.track_id, t.width, t.height, t.timescale, t.duration), (1, 16, 16, 90000, 900));
    assert_eq!(t.sample_table.entries.len(), 1);
    assert_eq!(t.sample_table.entries[0].offset, 40);
}

#[test]
fn an_empty_trak_misses_its_track_header() {
    match parse_track(&[], 0, &movie()) {
        Err(Mp4Error::MissingBox { name }) => assert_eq!(name, "tkhd"),
        other => panic!("unexpected {:?}", other.map(|t| t.track_id)),
    }
}

#[test]
fn a_sample_table_without_chunk_offsets_is_refused() {
    let s = samples();
    let tables = vec![build_stts(&s), build_stsc(1), build_stsz(&s)];
    match parse_track(&trak_body(10, 90000, 900, &tables), 0, &movie()) {
        Err(Mp4Error::MissingBox { name }) => assert_eq!(name, "stco/co64"),
        other => panic!("unexpected {:?}", other.map(|t| t.track_id)),
    }
}

#[test]
fn a_sample_table_without_stsz_is_refused() {
    let s = samples();
    let tables = vec![build_stts(&s), build_stsc(1), build_stco(&s)];
    match parse_track(&trak_body(10, 90000, 900, &tables), 0, &movie()) {
        Err(Mp4Error::MissingBox { name }) => assert_eq!(name, "stsz"),
        other => panic!("unexpected {:?}", other.map(|t| t.track_id)),
    }
}

#[test]
fn a_duration_converted_from_the_track_header_may_overflow() {
    let body = trak_body_with(tkhd_v1(1, u64::MAX), 2, 0, &full_tables());
    match parse_track(&body, 7, &MovieHeaderBox { timescale: 1, duration: 0 }) {
        Err(Mp4Error::InvalidBox { offset, message }) => {
            assert_eq!(offset, 7);
            assert_eq!(message, "track duration overflows");
        },
        other => panic!("unexpected {:?}", other.map(|t| t.track_id)),
    }
    // without the overflow the track header's duration is converted
    let t = parse_track(&trak_body(2000, 90000, 0, &full_tables()), 0, &movie()).unwrap();
    assert_eq!(t.duration, 180000);
}

#[test]
fn a_moov_without_movie_header_is_refused() {
    match Mp4Demuxer::from_moov(&[], None) {
        Err(Mp4Error::MissingBox { name }) => assert_eq!(name, "mvhd"),
        Err(e) => panic!("unexpected error {}", e.to_string()),
        Ok(_) => panic!("an empty moov parsed"),
    }
}

#[test]
fn a_moov_with_a_broken_trak_reports_the_trak_error() {
    let mut moov = build_mvhd(1000, 0);
    moov.extend_from_slice(&make_box(b"trak", &[]));
    match Mp4Demuxer::from_moov(&moov, None) {
        Err(Mp4Error::MissingBox { name }) => assert_eq!(name, "tkhd"),
        Err(e) => panic!("unexpected error {}", e.to_string()),
        Ok(_) => panic!("a broken trak parsed"),
    }
}

#[test]
fn a_moov_keeps_its_video_track_and_metadata() {
    let mut moov = build_mvhd(1000, 0);
    moov.extend_from_slice(&make_box(b"trak", &trak_body(10, 90000, 900, &full_tables())));
    moov.extend_from_slice(&make_box(b"udta", &[1, 2, 3]));
    moov.extend_from_slice(&make_box(b"free", &[0]));
    let d = Mp4Demuxer::from_moov(&moov, None).unwrap();
    assert_eq!(d.tracks().len(), 1);
    assert_eq!(d.metadata().len(), 1);
    assert_eq!(d.metadata()[0].data, vec![0, 0, 0, 11, b'u', b'd', b't', b'a', 1, 2, 3]);
}
