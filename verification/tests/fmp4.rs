//! Fragmented MP4: box builders and the fragment muxer state.

use splica::media::{AudioTrackInfo, Codec, Packet, TrackIndex, TrackInfo, TrackKind, VideoCodec, VideoTrackInfo};
use splica::mp4::boxes::stsd::CodecConfig;
use splica::mp4::fmp4_box_builders::{
    build_fmp4_ftyp, build_mfhd, build_tfdt, build_tfhd, build_trex, build_trun, FragmentSample,
};
use splica::mp4::fmp4_muxer::{FragmentConfig, FragmentedMp4Muxer};
use splica::timestamp::Timestamp;

fn be32(b: &[u8], i: usize) -> u32 {
    u32::from_be_bytes([b[i], b[i + 1], b[i + 2], b[i + 3]])
}

#[test]
fn test_that_fmp4_ftyp_starts_with_correct_major_brand() {
    let ftyp = build_fmp4_ftyp();

    // Skip 8-byte box header (size + "ftyp"), major brand is next 4 bytes
    assert_eq!(&ftyp[8..12], b"iso5");
}

#[test]
fn test_that_trex_embeds_track_id() {
    let trex = build_trex(42);

    // Box header (8) + version/flags (4) = offset 12 for track_id
    let track_id = u32::from_be_bytes([trex[12], trex[13], trex[14], trex[15]]);
    assert_eq!(track_id, 42);
}

#[test]
fn test_that_mfhd_embeds_sequence_number() {
    let mfhd = build_mfhd(7);

    let seq = u32::from_be_bytes([mfhd[12], mfhd[13], mfhd[14], mfhd[15]]);
    assert_eq!(seq, 7);
}

#[test]
fn test_that_tfdt_embeds_base_decode_time_as_64bit() {
    let tfdt = build_tfdt(123456789);

    let time = u64::from_be_bytes([
        tfdt[12], tfdt[13], tfdt[14], tfdt[15], tfdt[16], tfdt[17], tfdt[18], tfdt[19],
    ]);
    assert_eq!(time, 123456789);
}

#[test]
fn test_that_tfhd_uses_default_base_is_moof_flag() {
    let tfhd = build_tfhd(1);

    // Byte 8 = version (0), bytes 9..12 = flags
    assert_eq!(tfhd[8], 0); // version
    assert_eq!(tfhd[9], 0x02); // flags byte 0
    assert_eq!(tfhd[10], 0x00); // flags byte 1
    assert_eq!(tfhd[11], 0x00); // flags byte 2
}

#[test]
fn test_that_trun_single_keyframe_has_correct_sample_count() {
    let samples = vec![FragmentSample { data: vec![0xAA; 100], dts_ticks: 0, cts_offset: 0, is_keyframe: true }];

    let trun = build_trun(&samples, 88);

    let count = u32::from_be_bytes([trun[12], trun[13], trun[14], trun[15]]);
    assert_eq!(count, 1);
}

#[test]
fn trun_writes_durations_sizes_and_flags() {
    let samples = vec![
        FragmentSample { data: vec![1; 10], dts_ticks: 0, cts_offset: 0, is_keyframe: true },
        FragmentSample { data: vec![2; 20], dts_ticks: 3000, cts_offset: 0, is_keyframe: false },
    ];

    let trun = build_trun(&samples, 88);

    assert_eq!(be32(&trun, 8), 0x0000_0701); // version 0, duration+size+flags+data offset
    assert_eq!(be32(&trun, 16), 88);
    // sample 0: duration 3000, size 10, sync flags
    assert_eq!((be32(&trun, 20), be32(&trun, 24), be32(&trun, 28)), (3000, 10, 0x0200_0000));
    // sample 1: the last sample repeats the previous step
    assert_eq!((be32(&trun, 32), be32(&trun, 36), be32(&trun, 40)), (3000, 20, 0x0101_0000));
    assert_eq!(trun.len(), 44);
}

fn video_info() -> TrackInfo {
    TrackInfo {
        index: TrackIndex(0),
        kind: TrackKind::Video,
        codec: Codec::Video(VideoCodec::H264),
        duration: None,
        video: Some(VideoTrackInfo { width: 320, height: 240, pixel_format: None, color_space: None, frame_rate: None }),
        audio: None,
    }
}

fn packet(track: u32, dts: i64, pts: i64, key: bool, data: Vec<u8>) -> Packet {
    Packet {
        track_index: TrackIndex(track),
        pts: Timestamp::new(pts, 90000).unwrap(),
        dts: Timestamp::new(dts, 90000).unwrap(),
        is_keyframe: key,
        data,
    }
}

#[test]
fn fragment_muxer_registers_tracks_with_inferred_configs() {
    let mut m = FragmentedMp4Muxer::new();

    assert_eq!(m.add_track(&video_info()).unwrap(), TrackIndex(0));
    let audio = TrackInfo {
        index: TrackIndex(1),
        kind: TrackKind::Audio,
        codec: Codec::Audio(splica::media::AudioCodec::Aac),
        duration: None,
        video: None,
        audio: Some(AudioTrackInfo { sample_rate: 48000, channel_layout: None, sample_format: None }),
    };
    assert_eq!(m.add_track(&audio).unwrap(), TrackIndex(1));

    let subtitle = TrackInfo {
        index: TrackIndex(2),
        kind: TrackKind::Subtitle,
        codec: Codec::Subtitle(splica::media::SubtitleCodec::Srt),
        duration: None,
        video: None,
        audio: None,
    };
    let err = m.add_track(&subtitle).unwrap_err();
    assert_eq!(err.to_string(), "invalid track configuration: track must have video or audio metadata");
}

#[test]
fn fragment_muxer_flushes_when_the_fragment_is_full() {
    let mut m = FragmentedMp4Muxer::with_config(FragmentConfig { max_samples_per_fragment: 2 });
    m.add_track(&video_info()).unwrap();

    assert_eq!(m.queue_packet(&packet(0, 0, 0, true, vec![1, 2, 3])).unwrap(), false);
    assert_eq!(m.queue_packet(&packet(0, 3000, 3000, false, vec![4, 5])).unwrap(), true);
    assert!(m.queue_packet(&packet(5, 0, 0, true, vec![])).is_err());

    assert!(m.fragment_allowed());
    let (moof, mdat) = m.build_fragment().unwrap().unwrap();
    assert_eq!(&moof[4..8], b"moof");
    assert_eq!(be32(&moof, 0) as usize, moof.len());
    // mfhd sequence number 1
    assert_eq!(&moof[12..16], b"mfhd");
    assert_eq!(be32(&moof, 20), 1);
    // mdat holds the data in order
    assert_eq!(mdat, vec![0, 0, 0, 13, b'm', b'd', b'a', b't', 1, 2, 3, 4, 5]);

    assert!(m.finish_allowed());
    m.finish_fragment();
    assert!(m.build_fragment().unwrap().is_none());
}

#[test]
fn fragment_data_offset_points_past_the_mdat_header() {
    let mut m = FragmentedMp4Muxer::new();
    m.add_track(&video_info()).unwrap();
    m.queue_packet(&packet(0, 0, 0, true, vec![9; 5])).unwrap();

    let (moof, _mdat) = m.build_fragment().unwrap().unwrap();

    // the trun data offset is the moof size plus the 8-byte mdat header
    let trun_at = moof.windows(4).position(|w| w == b"trun").unwrap() - 4;
    assert_eq!(be32(&moof, trun_at + 16) as usize, moof.len() + 8);
}

#[test]
fn init_moov_has_one_trex_per_track() {
    let mut m = FragmentedMp4Muxer::new();
    m.add_track(&video_info()).unwrap();
    m.add_track_with_config(&video_info(), CodecConfig::Avc1 { width: 1, height: 1, avcc: vec![], color_space: None }, 1000)
        .unwrap();

    let moov = m.build_init_moov().unwrap();

    assert_eq!(&moov[4..8], b"moov");
    assert_eq!(moov.windows(4).filter(|w| *w == b"trex").count(), 2);
    assert_eq!(moov.windows(4).filter(|w| *w == b"trak").count(), 2);
    assert_eq!(moov.windows(4).filter(|w| *w == b"mvex").count(), 1);
}

#[test]
fn init_moov_refuses_an_unknown_codec() {
    let mut m = FragmentedMp4Muxer::new();
    m.add_track_with_config(&video_info(), CodecConfig::Unknown("vp8".to_string()), 1000).unwrap();

    let err = m.build_init_moov().unwrap_err();

    assert_eq!(err.to_string(), "unsupported codec 'vp8' for container format 'mp4'");
}
