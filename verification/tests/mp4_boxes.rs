//! MP4 box headers, box iteration, sample tables and box builders.

use splica::media::{ColorPrimaries, ColorRange, ColorSpace, MatrixCoefficients, TransferCharacteristics};
use splica::mp4::box_builders::{build_mdhd, build_mvhd, build_stsd, build_tkhd};
use splica::mp4::boxes::mdhd::parse_mdhd;
use splica::mp4::boxes::mvhd::parse_mvhd;
use splica::mp4::boxes::stco::ChunkOffsetBox;
use splica::mp4::boxes::stsc::{SampleToChunkBox, StscEntry};
use splica::mp4::boxes::stsd::{parse_stsd, CodecConfig};
use splica::mp4::boxes::stss::SyncSampleBox;
use splica::mp4::boxes::stsz::SampleSizeBox;
use splica::mp4::boxes::stts::{SttsEntry, TimeToSampleBox};
use splica::mp4::boxes::tkhd::parse_tkhd;
use splica::mp4::boxes::{find_box, iter_boxes, parse_box_header, FourCC};
use splica::mp4::error::Mp4Error;
use splica::mp4::sample_table::build_sample_table;

#[test]
fn test_that_box_header_parses_standard_size() {
    // GIVEN — ftyp box, 20 bytes total
    let mut data = vec![0u8; 20];
    data[0..4].copy_from_slice(&20u32.to_be_bytes());
    data[4..8].copy_from_slice(b"ftyp");

    // WHEN
    let header = parse_box_header(&data, 0).unwrap();

    // THEN
    assert_eq!(header.box_type, FourCC::ftyp());
    assert_eq!(header.size, 20);
    assert_eq!(header.header_size, 8);
    assert_eq!(header.body_size(), 12);
}

#[test]
fn test_that_box_header_parses_extended_size() {
    // GIVEN — box with extended size
    let mut data = vec![0u8; 24];
    data[0..4].copy_from_slice(&1u32.to_be_bytes()); // size=1 means extended
    data[4..8].copy_from_slice(b"mdat");
    data[8..16].copy_from_slice(&24u64.to_be_bytes());

    // WHEN
    let header = parse_box_header(&data, 0).unwrap();

    // THEN
    assert_eq!(header.box_type, FourCC::mdat());
    assert_eq!(header.size, 24);
    assert_eq!(header.header_size, 16);
}

#[test]
fn test_that_iter_boxes_walks_siblings() {
    // GIVEN — two sibling boxes
    let mut data = vec![0u8; 28];
    // Box 1: 12 bytes total, type "abcd"
    data[0..4].copy_from_slice(&12u32.to_be_bytes());
    data[4..8].copy_from_slice(b"abcd");
    // Box 2: 16 bytes total, type "efgh"
    data[12..16].copy_from_slice(&16u32.to_be_bytes());
    data[16..20].copy_from_slice(b"efgh");

    // WHEN
    let mut it = iter_boxes(&data, 0);
    let mut boxes = Vec::new();
    while let Some(b) = it.next_box() {
        boxes.push(b.unwrap());
    }

    // THEN
    assert_eq!(boxes.len(), 2);
    assert_eq!(boxes[0].header.box_type, FourCC(*b"abcd"));
    assert_eq!(boxes[0].body.len(), 4);
    assert_eq!(boxes[1].header.box_type, FourCC(*b"efgh"));
    assert_eq!(boxes[1].body.len(), 8);
}

#[test]
fn test_that_truncated_header_returns_eof() {
    // GIVEN — only 4 bytes
    let data = [0u8; 4];

    // WHEN
    let result = parse_box_header(&data, 42);

    // THEN
    assert!(matches!(result, Err(Mp4Error::UnexpectedEof { offset: 42 })));
}

#[test]
fn test_that_fourcc_displays_ascii() {
    assert_eq!(FourCC::ftyp().to_string(), "ftyp");
    assert_eq!(FourCC::moov().to_string(), "moov");
}

#[test]
fn fourcc_shows_non_printable_bytes_escaped() {
    let s = FourCC([b'a', 0x01, b' ', b'c']).to_string();

    assert_eq!(s, "a\\x01 c");
}

#[test]
fn size_zero_box_extends_to_the_end() {
    let mut data = vec![0u8; 30];
    data[4..8].copy_from_slice(b"mdat");

    let mut it = iter_boxes(&data, 100);
    let b = it.next_box().unwrap().unwrap();

    assert_eq!(b.header.size, 0);
    assert_eq!(b.body.len(), 22);
    assert_eq!(b.offset, 100);
    assert!(it.next_box().is_none());
}

#[test]
fn box_larger_than_its_data_is_truncated() {
    let mut data = vec![0u8; 12];
    data[0..4].copy_from_slice(&40u32.to_be_bytes());
    data[4..8].copy_from_slice(b"free");

    let mut it = iter_boxes(&data, 0);

    assert!(matches!(it.next_box(), Some(Err(Mp4Error::UnexpectedEof { offset: 0 }))));
}

#[test]
fn find_box_skips_other_siblings() {
    let mut data = vec![0u8; 20];
    data[0..4].copy_from_slice(&8u32.to_be_bytes());
    data[4..8].copy_from_slice(b"free");
    data[8..12].copy_from_slice(&12u32.to_be_bytes());
    data[12..16].copy_from_slice(b"moov");

    let found = find_box(&data, FourCC::moov(), 0).unwrap().unwrap();

    assert_eq!(found.offset, 8);
    assert_eq!(found.body.len(), 4);
    assert!(find_box(&data, FourCC::trak(), 0).unwrap().is_none());
}

// --- sample tables ---

#[test]
fn test_that_sample_table_resolves_simple_case() {
    // GIVEN — 4 samples, 1 sample per chunk, all keyframes (no stss)
    let stts = TimeToSampleBox { entries: vec![SttsEntry { sample_count: 4, sample_delta: 1000 }] };
    let stsc = SampleToChunkBox {
        entries: vec![StscEntry { first_chunk: 1, samples_per_chunk: 1, sample_description_index: 1 }],
    };
    let stsz = SampleSizeBox { default_sample_size: 100, sample_sizes: vec![], sample_count: 4 };
    let stco = ChunkOffsetBox { offsets: vec![1000, 1100, 1200, 1300] };

    // WHEN
    let table = build_sample_table(&stts, None, &stsc, &stsz, &stco, None, 44100).unwrap();

    // THEN
    assert_eq!(table.entries.len(), 4);
    assert_eq!(table.entries[0].offset, 1000);
    assert_eq!(table.entries[0].dts, 0);
    assert!(table.entries[0].is_keyframe); // all sync when stss absent
    assert_eq!(table.entries[1].dts, 1000);
    assert_eq!(table.entries[2].dts, 2000);
    assert_eq!(table.entries[3].dts, 3000);
}

#[test]
fn test_that_stsc_with_multiple_samples_per_chunk_resolves() {
    // GIVEN — 2 chunks, 2 samples per chunk
    let stts = TimeToSampleBox { entries: vec![SttsEntry { sample_count: 4, sample_delta: 512 }] };
    let stsc = SampleToChunkBox {
        entries: vec![StscEntry { first_chunk: 1, samples_per_chunk: 2, sample_description_index: 1 }],
    };
    let stsz = SampleSizeBox { default_sample_size: 0, sample_sizes: vec![50, 60, 70, 80], sample_count: 4 };
    let stco = ChunkOffsetBox { offsets: vec![500, 700] };

    // WHEN
    let table = build_sample_table(&stts, None, &stsc, &stsz, &stco, None, 48000).unwrap();

    // THEN — samples within a chunk are contiguous
    assert_eq!(table.entries.len(), 4);
    assert_eq!(table.entries[0].offset, 500);
    assert_eq!(table.entries[1].offset, 550); // 500 + 50
    assert_eq!(table.entries[2].offset, 700);
    assert_eq!(table.entries[3].offset, 770); // 700 + 70
}

#[test]
fn test_that_stss_marks_keyframes_correctly() {
    // GIVEN — 4 samples, only sample 1 and 3 are keyframes
    let stts = TimeToSampleBox { entries: vec![SttsEntry { sample_count: 4, sample_delta: 1000 }] };
    let stsc = SampleToChunkBox {
        entries: vec![StscEntry { first_chunk: 1, samples_per_chunk: 1, sample_description_index: 1 }],
    };
    let stsz = SampleSizeBox { default_sample_size: 100, sample_sizes: vec![], sample_count: 4 };
    let stco = ChunkOffsetBox { offsets: vec![0, 100, 200, 300] };
    let stss = SyncSampleBox { sync_samples: vec![1, 3] };

    // WHEN
    let table = build_sample_table(&stts, None, &stsc, &stsz, &stco, Some(&stss), 30).unwrap();

    // THEN
    assert!(table.entries[0].is_keyframe);
    assert!(!table.entries[1].is_keyframe);
    assert!(table.entries[2].is_keyframe);
    assert!(!table.entries[3].is_keyframe);
}

// --- box builders ---

#[test]
fn test_that_colr_box_roundtrips_through_build_and_parse() {
    // GIVEN — an Avc1 config with BT.709 color space
    let color_space = ColorSpace {
        primaries: ColorPrimaries::Bt709,
        transfer: TransferCharacteristics::Bt709,
        matrix: MatrixCoefficients::Bt709,
        range: ColorRange::Limited,
    };
    let config = CodecConfig::Avc1 {
        width: 1920,
        height: 1080,
        avcc: vec![1, 0x42, 0xC0, 0x1E, 0xFF],
        color_space: Some(color_space),
    };

    // WHEN — build stsd and parse it back
    let stsd_bytes = build_stsd(&config).unwrap();
    let parsed = parse_stsd(&stsd_bytes[8..], 0).unwrap();

    // THEN — color space should survive the roundtrip
    match parsed {
        CodecConfig::Avc1 { width, height, color_space: cs, .. } => {
            assert_eq!(width, 1920);
            assert_eq!(height, 1080);
            let cs = cs.expect("color_space should be present after roundtrip");
            assert_eq!(cs.primaries, ColorPrimaries::Bt709);
            assert_eq!(cs.transfer, TransferCharacteristics::Bt709);
            assert_eq!(cs.matrix, MatrixCoefficients::Bt709);
            assert_eq!(cs.range, ColorRange::Limited);
        },
        other => panic!("expected Avc1, got {other:?}"),
    }
}

#[test]
fn test_that_bt2020_pq_color_space_roundtrips() {
    // GIVEN — BT.2020 PQ (HDR10) color space
    let color_space = ColorSpace {
        primaries: ColorPrimaries::Bt2020,
        transfer: TransferCharacteristics::Smpte2084,
        matrix: MatrixCoefficients::Bt2020NonConstant,
        range: ColorRange::Full,
    };
    let config = CodecConfig::Hev1 { width: 3840, height: 2160, hvcc: vec![1, 0], color_space: Some(color_space) };

    // WHEN
    let stsd_bytes = build_stsd(&config).unwrap();
    let parsed = parse_stsd(&stsd_bytes[8..], 0).unwrap();

    // THEN
    match parsed {
        CodecConfig::Hev1 { color_space: cs, .. } => {
            let cs = cs.expect("color_space should be present");
            assert_eq!(cs.primaries, ColorPrimaries::Bt2020);
            assert_eq!(cs.transfer, TransferCharacteristics::Smpte2084);
            assert_eq!(cs.matrix, MatrixCoefficients::Bt2020NonConstant);
            assert_eq!(cs.range, ColorRange::Full);
        },
        other => panic!("expected Hev1, got {other:?}"),
    }
}

#[test]
fn test_that_stsd_without_color_space_roundtrips_as_none() {
    // GIVEN — Avc1 config with no color space
    let config =
        CodecConfig::Avc1 { width: 640, height: 480, avcc: vec![1, 0x42, 0xC0, 0x1E, 0xFF], color_space: None };

    // WHEN
    let stsd_bytes = build_stsd(&config).unwrap();
    let parsed = parse_stsd(&stsd_bytes[8..], 0).unwrap();

    // THEN
    match parsed {
        CodecConfig::Avc1 { color_space, .. } => {
            assert!(color_space.is_none(), "color_space should be None when not set");
        },
        other => panic!("expected Avc1, got {other:?}"),
    }
}

#[test]
fn audio_sample_entry_round_trips() {
    let config = CodecConfig::Mp4a { sample_rate: 48000, channel_count: 2, esds: vec![0, 0, 0, 0, 3, 1, 0] };

    let stsd_bytes = build_stsd(&config).unwrap();
    let parsed = parse_stsd(&stsd_bytes[8..], 0).unwrap();

    match parsed {
        CodecConfig::Mp4a { sample_rate, channel_count, esds } => {
            assert_eq!(sample_rate, 48000);
            assert_eq!(channel_count, 2);
            assert_eq!(esds, vec![0, 0, 0, 0, 3, 1, 0]);
        },
        other => panic!("expected Mp4a, got {other:?}"),
    }
}

#[test]
fn unknown_codec_cannot_be_written() {
    let err = build_stsd(&CodecConfig::Unknown("vp8".to_string())).unwrap_err();

    assert_eq!(err.to_string(), "unsupported codec 'vp8' for container format 'mp4'");
}

#[test]
fn movie_and_media_headers_read_back() {
    let mvhd = build_mvhd(1000, 5000);
    let m = parse_mvhd(&mvhd[8..], 0).unwrap();
    assert_eq!((m.timescale, m.duration), (1000, 5000));

    let mdhd = build_mdhd(48000, 96000);
    let d = parse_mdhd(&mdhd[8..], 0).unwrap();
    assert_eq!((d.timescale, d.duration), (48000, 96000));

    let tkhd = build_tkhd(3, 777, 1920, 1080);
    let t = parse_tkhd(&tkhd[8..], 0).unwrap();
    assert_eq!((t.track_id, t.duration, t.width, t.height), (3, 777, 1920, 1080));
}

#[test]
fn box_smaller_than_its_header_is_invalid() {
    let mut data = vec![0u8; 12];
    data[0..4].copy_from_slice(&4u32.to_be_bytes());
    data[4..8].copy_from_slice(b"free");

    let mut it = iter_boxes(&data, 0);

    match it.next_box() {
        Some(Err(Mp4Error::InvalidBox { offset, message })) => {
            assert_eq!(offset, 0);
            assert_eq!(message, "box 'free' size 4 is smaller than header");
        },
        other => panic!("expected InvalidBox, got {other:?}"),
    }
}

#[test]
fn an_unknown_sample_entry_is_named_by_its_type() {
    // version/flags, one entry of 8 bytes: size 8, type "vp08"
    let body = vec![0, 0, 0, 0, 0, 0, 0, 1, 0, 0, 0, 8, b'v', b'p', b'0', b'8'];
    match parse_stsd(&body, 0).unwrap() {
        CodecConfig::Unknown(name) => assert_eq!(name, "vp08"),
        _ => panic!("a vp08 entry was taken for a known codec"),
    }
    let opus = vec![0, 0, 0, 0, 0, 0, 0, 1, 0, 0, 0, 8, b'O', b'p', b'u', b's'];
    match parse_stsd(&opus, 0).unwrap() {
        CodecConfig::Unknown(name) => assert_eq!(name, "Opus"),
        _ => panic!("an Opus entry was taken for a known codec"),
    }
}
