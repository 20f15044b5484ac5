//! The MP4 muxer state, and reading what it writes back with the demuxer.

use splica::error::{DemuxError, MuxError};
use splica::media::{Codec, Packet, ResourceBudget, TrackIndex, TrackInfo, TrackKind, VideoCodec, VideoTrackInfo};
use splica::mp4::boxes::stsd::CodecConfig;
use splica::mp4::boxes::{parse_box_header, FourCC};
use splica::mp4::demuxer::{finish_open, top_level_step, Mp4Demuxer, TopLevelAction};
use splica::mp4::error::Mp4Error;
use splica::mp4::metadata::MetadataBox;
use splica::mp4::muxer::{mdat_placeholder_header, Mp4Muxer};
use splica::mp4::mux_sample_table::build_ftyp;
use splica::timestamp::Timestamp;
use splica::traits::{SeekMode, Seekable};

fn video_info() -> TrackInfo {
    TrackInfo {
        index: TrackIndex(0),
        kind: TrackKind::Video,
        codec: Codec::Video(VideoCodec::H264),
        duration: None,
        video: Some(VideoTrackInfo { width: 320, height: 240, pixel_format: None, color_space: None, frame_rate: None }),
        audio: None,
    }
}

fn packet(track: u32, dts: i64, pts: i64, key: bool, data: Vec<u8>) -> Packet {
    Packet {
        track_index: TrackIndex(track),
        pts: Timestamp::new(pts, 90000).unwrap(),
        dts: Timestamp::new(dts, 90000).unwrap(),
        is_keyframe: key,
        data,
    }
}

fn write(m: &mut Mp4Muxer, p: &Packet) -> Result<(), MuxError> {
    m.check_packet(p)?;
    assert!(m.commit_allowed(p));
    m.commit_packet(p);
    Ok(())
}

/// A muxer with one H.264 track at 90 kHz and its mdat header at byte 32.
fn muxer_with_video() -> Mp4Muxer {
    let mut m = Mp4Muxer::new();
    let config = CodecConfig::Avc1 { width: 320, height: 240, avcc: vec![1, 0x42, 0xC0, 0x1E], color_space: None };
    assert_eq!(m.add_track_with_config(&video_info(), config, 90000).unwrap(), TrackIndex(0));
    m.start_mdat(32);
    m
}

#[test]
fn mdat_header_is_an_extended_size_placeholder() {
    assert_eq!(mdat_placeholder_header(), vec![0, 0, 0, 1, b'm', b'd', b'a', b't', 0, 0, 0, 0, 0, 0, 0, 0]);
    assert_eq!(&build_ftyp()[4..12], b"ftypisom");
}

#[test]
fn muxer_records_samples_where_their_data_went() {
    let mut m = muxer_with_video();
    write(&mut m, &packet(0, 0, 0, true, vec![1; 10])).unwrap();
    write(&mut m, &packet(0, 3000, 6000, false, vec![2; 20])).unwrap();

    assert_eq!(m.mdat_body_start(), 48);
    assert_eq!(m.mdat_end(), 78);
    assert_eq!(m.mdat_size(), 46);
}

#[test]
fn muxer_refuses_unknown_tracks() {
    let m = muxer_with_video();

    match m.check_packet(&packet(3, 0, 0, true, vec![1])) {
        Err(MuxError::InvalidTrackConfig { message }) => assert_eq!(message, "track index 3 out of range"),
        other => panic!("expected InvalidTrackConfig, got {other:?}"),
    }
}

#[test]
fn muxer_enforces_the_byte_budget() {
    let mut m = Mp4Muxer::new_with_budget(ResourceBudget::new(15));
    m.add_track(&video_info()).unwrap();
    m.start_mdat(0);
    write(&mut m, &packet(0, 0, 0, true, vec![1; 10])).unwrap();

    match write(&mut m, &packet(0, 3000, 3000, true, vec![1; 10])) {
        Err(MuxError::ResourceExhausted { message }) => {
            assert_eq!(message, "writing 10 bytes would exceed byte budget (10 + 10 > 15)")
        },
        other => panic!("expected ResourceExhausted, got {other:?}"),
    }
}

#[test]
fn muxer_enforces_the_frame_budget() {
    let mut m = Mp4Muxer::new_with_budget(ResourceBudget::new(1000).with_max_frames(1));
    m.add_track(&video_info()).unwrap();
    m.start_mdat(0);
    write(&mut m, &packet(0, 0, 0, true, vec![1; 10])).unwrap();

    match write(&mut m, &packet(0, 3000, 3000, true, vec![1; 10])) {
        Err(MuxError::ResourceExhausted { message }) => {
            assert_eq!(message, "writing packet would exceed frame budget (1 >= 1)")
        },
        other => panic!("expected ResourceExhausted, got {other:?}"),
    }
}

#[test]
fn muxer_infers_configs_and_refuses_tracks_without_metadata() {
    let mut m = Mp4Muxer::new();
    let mut bare = video_info();
    bare.video = None;

    let err = m.add_track(&bare).unwrap_err();

    assert_eq!(err.to_string(), "invalid track configuration: track must have video, audio, or subtitle metadata");
}

#[test]
fn moov_refuses_an_unknown_codec() {
    let mut m = Mp4Muxer::new();
    m.add_track_with_config(&video_info(), CodecConfig::Unknown("vp8".to_string()), 90000).unwrap();

    assert!(m.moov_allowed());
    let err = m.build_moov().unwrap_err();

    assert_eq!(err.to_string(), "unsupported codec 'vp8' for container format 'mp4'");
}

#[test]
fn muxed_moov_reads_back_through_the_demuxer() {
    let mut m = muxer_with_video();
    write(&mut m, &packet(0, 0, 0, true, vec![1; 10])).unwrap();
    write(&mut m, &packet(0, 3000, 6000, false, vec![2; 20])).unwrap();
    m.set_metadata(vec![MetadataBox { box_type: FourCC::udta(), data: vec![0, 0, 0, 8, b'u', b'd', b't', b'a'] }]);
    assert!(m.moov_allowed());

    let moov = m.build_moov().unwrap();
    assert_eq!(&moov[4..8], b"moov");
    let mut d = Mp4Demuxer::from_moov(&moov[8..], None).unwrap();

    // track description
    let tracks = d.tracks();
    assert_eq!(tracks.len(), 1);
    assert_eq!(tracks[0].kind, TrackKind::Video);
    assert_eq!(tracks[0].codec, Codec::Video(VideoCodec::H264));
    let v = tracks[0].video.unwrap();
    assert_eq!((v.width, v.height), (320, 240));
    assert_eq!(tracks[0].duration, Some(Timestamp::new(6000, 90000).unwrap()));
    assert_eq!(d.track_timescale(TrackIndex(0)), Some(90000));
    assert_eq!(d.metadata().len(), 1);
    assert_eq!(d.metadata()[0].data, vec![0, 0, 0, 8, b'u', b'd', b't', b'a']);

    // samples, in decode order, where the muxer put them
    assert_eq!(d.seek_position(), Some(Timestamp::new(0, 90000).unwrap()));
    let s0 = d.next_sample().unwrap().unwrap();
    assert_eq!((s0.offset, s0.size, s0.dts, s0.is_keyframe), (48, 10, 0, true));
    let p0 = d.finish_packet(&s0, vec![1; 10]).unwrap();
    assert_eq!(p0.pts, Timestamp::new(0, 90000).unwrap());

    let s1 = d.next_sample().unwrap().unwrap();
    assert_eq!((s1.offset, s1.size, s1.dts, s1.cts_offset, s1.is_keyframe), (58, 20, 3000, 3000, false));
    let p1 = d.finish_packet(&s1, vec![2; 20]).unwrap();
    assert_eq!(p1.pts, Timestamp::new(6000, 90000).unwrap());
    assert_eq!(p1.dts, Timestamp::new(3000, 90000).unwrap());
    assert!(d.next_sample().unwrap().is_none());

    // seeking back to the start
    d.seek(Timestamp::new(4000, 90000).unwrap(), SeekMode::Keyframe).unwrap();
    assert_eq!(d.next_sample().unwrap().unwrap().offset, 48);
    d.seek(Timestamp::new(4000, 90000).unwrap(), SeekMode::Precise).unwrap();
    assert_eq!(d.next_sample().unwrap().unwrap().offset, 58);
}

#[test]
fn demuxer_enforces_its_frame_budget() {
    let mut m = muxer_with_video();
    write(&mut m, &packet(0, 0, 0, true, vec![1; 10])).unwrap();
    write(&mut m, &packet(0, 3000, 3000, true, vec![2; 20])).unwrap();
    let moov = m.build_moov().unwrap();
    let mut d = Mp4Demuxer::from_moov(&moov[8..], Some(ResourceBudget::new(1000).with_max_frames(1))).unwrap();

    let s0 = d.next_sample().unwrap().unwrap();
    d.finish_packet(&s0, vec![1; 10]).unwrap();

    match d.next_sample() {
        Err(DemuxError::Other(message)) => assert!(message.contains("packet count (1) exceeds budget (1 frames)")),
        other => panic!("expected a budget error, got {other:?}"),
    }
}

#[test]
fn top_level_boxes_are_read_skipped_or_refused() {
    let ftyp = build_ftyp();
    let h = parse_box_header(&ftyp, 0).unwrap();
    let (action, next) = top_level_step(&h, 0, 1000, None).unwrap();
    assert_eq!(action, TopLevelAction::ReadFtyp { body_size: ftyp.len() as u64 - 8 });
    assert_eq!(next, ftyp.len() as u64);

    let mut moov_header = vec![0, 0, 0, 100];
    moov_header.extend_from_slice(b"moov");
    let h = parse_box_header(&moov_header, 0).unwrap();
    assert_eq!(top_level_step(&h, 50, 1000, None).unwrap(), (TopLevelAction::ReadMoov { body_size: 92 }, 150));
    match top_level_step(&h, 50, 1000, Some(ResourceBudget::new(10))) {
        Err(Mp4Error::ResourceExhausted { message }) => {
            assert_eq!(message, "moov box size (92 bytes) exceeds budget (10 bytes)")
        },
        other => panic!("expected ResourceExhausted, got {other:?}"),
    }

    // size 0: to the end of the file
    let mut mdat_header = vec![0, 0, 0, 0];
    mdat_header.extend_from_slice(b"mdat");
    let h = parse_box_header(&mdat_header, 0).unwrap();
    assert_eq!(top_level_step(&h, 200, 1000, None).unwrap(), (TopLevelAction::Skip, 1000));

    // smaller than its header
    let mut tiny = vec![0, 0, 0, 4];
    tiny.extend_from_slice(b"free");
    let h = parse_box_header(&tiny, 0).unwrap();
    match top_level_step(&h, 8, 1000, None) {
        Err(Mp4Error::InvalidBox { offset, message }) => {
            assert_eq!(offset, 8);
            assert_eq!(message, "box 'free' size too small");
        },
        other => panic!("expected InvalidBox, got {other:?}"),
    }
}

#[test]
fn opening_needs_ftyp_and_moov() {
    assert!(matches!(finish_open(false, None, None), Err(Mp4Error::NotMp4)));
    match finish_open(true, None, None) {
        Err(e) => assert_eq!(e.to_string(), "missing required box: moov"),
        Ok(_) => panic!("expected an error"),
    }
}

#[test]
fn seeking_an_empty_movie_fails() {
    // a moov holding only a movie header
    let mvhd = splica::mp4::box_builders::build_mvhd(1000, 0);
    let mut d = Mp4Demuxer::from_moov(&mvhd, None).unwrap();

    match d.seek(Timestamp::new(0, 1000).unwrap(), SeekMode::Keyframe) {
        Err(DemuxError::InvalidContainer { offset, message }) => {
            assert_eq!(offset, 0);
            assert_eq!(message, "no tracks available for seeking");
        },
        other => panic!("expected InvalidContainer, got {other:?}"),
    }
}

#[test]
fn keyframe_seek_resumes_at_the_last_keyframe_before_the_target() {
    let mut m = muxer_with_video();
    let keys = [true, false, false, true, false];
    for (i, key) in keys.iter().enumerate() {
        let t = 3000 * i as i64;
        write(&mut m, &packet(0, t, t, *key, vec![i as u8; 4])).unwrap();
    }
    let moov = m.build_moov().unwrap();
    let mut d = Mp4Demuxer::from_moov(&moov[8..], None).unwrap();

    d.seek(Timestamp::new(12500, 90000).unwrap(), SeekMode::Keyframe).unwrap();
    let s = d.next_sample().unwrap().unwrap();
    assert_eq!((s.dts, s.is_keyframe), (9000, true));

    d.seek(Timestamp::new(8999, 90000).unwrap(), SeekMode::Keyframe).unwrap();
    let s = d.next_sample().unwrap().unwrap();
    assert_eq!((s.dts, s.is_keyframe), (0, true));

    d.seek(Timestamp::new(12500, 90000).unwrap(), SeekMode::Precise).unwrap();
    let s = d.next_sample().unwrap().unwrap();
    assert_eq!((s.dts, s.is_keyframe), (12000, false));
}
