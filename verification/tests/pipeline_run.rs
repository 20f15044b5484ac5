//! The order of a pipeline run, step by step.

use splica::error::PipelineError;
use splica::timestamp::Timestamp;
use splica::media::{AudioCodec, Codec, Packet, TrackIndex, TrackInfo, TrackKind, VideoCodec, VideoTrackInfo};
use splica::pipeline::execution::unrouted_error;
use splica::pipeline::run::{run_step, RunAction, RunEvent, RunState};

fn video(index: u32) -> TrackInfo {
    TrackInfo {
        index: TrackIndex(index),
        kind: TrackKind::Video,
        codec: Codec::Video(VideoCodec::H264),
        duration: None,
        video: Some(VideoTrackInfo { width: 1920, height: 1080, pixel_format: None, color_space: None, frame_rate: None }),
        audio: None,
    }
}

fn audio(index: u32) -> TrackInfo {
    TrackInfo {
        index: TrackIndex(index),
        kind: TrackKind::Audio,
        codec: Codec::Audio(AudioCodec::Aac),
        duration: None,
        video: None,
        audio: None,
    }
}

fn packet(track: u32, pts: i64) -> Packet {
    let ts = Timestamp::new(pts, 90000).unwrap();
    Packet { track_index: TrackIndex(track), pts: ts, dts: ts, is_keyframe: true, data: vec![pts as u8] }
}

#[test]
fn copy_run_declares_writes_then_finalizes() {
    let mut s = RunState::new(vec![], vec![], vec![]);

    match run_step(&mut s, RunEvent::Tracks(vec![video(0), audio(1)])) {
        RunAction::AddTrack(info) => assert_eq!(info.index, TrackIndex(0)),
        other => panic!("expected AddTrack, got {other:?}"),
    }
    match run_step(&mut s, RunEvent::TrackAdded(TrackIndex(10))) {
        RunAction::AddTrack(info) => assert_eq!(info.index, TrackIndex(1)),
        other => panic!("expected AddTrack, got {other:?}"),
    }
    assert!(matches!(run_step(&mut s, RunEvent::TrackAdded(TrackIndex(11))), RunAction::Read));

    match run_step(&mut s, RunEvent::Packet(packet(1, 7))) {
        RunAction::Write(p) => {
            assert_eq!(p.track_index, TrackIndex(11));
            assert_eq!(p.data, vec![7]);
        },
        other => panic!("expected Write, got {other:?}"),
    }
    match run_step(&mut s, RunEvent::Packet(packet(0, 8))) {
        RunAction::Write(p) => assert_eq!(p.track_index, TrackIndex(10)),
        other => panic!("expected Write, got {other:?}"),
    }
    assert!(matches!(run_step(&mut s, RunEvent::EndOfStream), RunAction::Finalize));
    // the muxer is finalized once: the run is over
    assert!(matches!(run_step(&mut s, RunEvent::EndOfStream), RunAction::Done));
}

#[test]
fn declared_tracks_carry_the_output_codec_and_dimensions() {
    let mut s = RunState::new(
        vec![TrackIndex(0)],
        vec![(TrackIndex(0), Codec::Video(VideoCodec::H265))],
        vec![(TrackIndex(0), (1280, 720))],
    );
    match run_step(&mut s, RunEvent::Tracks(vec![video(0)])) {
        RunAction::AddTrack(info) => {
            assert_eq!(info.codec, Codec::Video(VideoCodec::H265));
            let v = info.video.unwrap();
            assert_eq!((v.width, v.height), (1280, 720));
        },
        other => panic!("expected AddTrack, got {other:?}"),
    }
}

#[test]
fn transcoded_tracks_are_decoded_then_flushed_in_order() {
    let mut s = RunState::new(vec![TrackIndex(1), TrackIndex(0)], vec![], vec![]);
    assert!(matches!(run_step(&mut s, RunEvent::Tracks(vec![video(0), audio(1), video(2)])), RunAction::AddTrack(_)));
    assert!(matches!(run_step(&mut s, RunEvent::TrackAdded(TrackIndex(0))), RunAction::AddTrack(_)));
    assert!(matches!(run_step(&mut s, RunEvent::TrackAdded(TrackIndex(1))), RunAction::AddTrack(_)));
    assert!(matches!(run_step(&mut s, RunEvent::TrackAdded(TrackIndex(2))), RunAction::Read));

    match run_step(&mut s, RunEvent::Packet(packet(0, 1))) {
        RunAction::Decode { input, output, packet } => {
            assert_eq!(input, TrackIndex(0));
            assert_eq!(output, TrackIndex(0));
            assert_eq!(packet.track_index, TrackIndex(0));
        },
        other => panic!("expected Decode, got {other:?}"),
    }
    assert!(matches!(run_step(&mut s, RunEvent::Packet(packet(2, 2))), RunAction::Write(_)));

    match run_step(&mut s, RunEvent::EndOfStream) {
        RunAction::Flush { input, output } => assert_eq!((input, output), (TrackIndex(1), TrackIndex(1))),
        other => panic!("expected Flush, got {other:?}"),
    }
    match run_step(&mut s, RunEvent::Drained(TrackIndex(1))) {
        RunAction::Flush { input, output } => assert_eq!((input, output), (TrackIndex(0), TrackIndex(0))),
        other => panic!("expected Flush, got {other:?}"),
    }
    assert!(matches!(run_step(&mut s, RunEvent::Drained(TrackIndex(0))), RunAction::Finalize));
}

#[test]
fn a_packet_of_an_undeclared_track_stops_the_run() {
    let mut s = RunState::new(vec![], vec![], vec![]);
    assert!(matches!(run_step(&mut s, RunEvent::Tracks(vec![video(0)])), RunAction::AddTrack(_)));
    assert!(matches!(run_step(&mut s, RunEvent::TrackAdded(TrackIndex(0))), RunAction::Read));
    match run_step(&mut s, RunEvent::Packet(packet(3, 1))) {
        RunAction::Unrouted(t) => assert_eq!(t, TrackIndex(3)),
        other => panic!("expected Unrouted, got {other:?}"),
    }
    assert!(matches!(run_step(&mut s, RunEvent::EndOfStream), RunAction::Done));

    match unrouted_error(TrackIndex(3)) {
        PipelineError::Config { message } => {
            assert_eq!(message, "packet references track 3 which was not in demuxer tracks")
        },
        other => panic!("expected a config error, got {other:?}"),
    }
}

#[test]
fn a_transcoded_track_the_demuxer_lacks_is_reported_at_flush() {
    let mut s = RunState::new(vec![TrackIndex(4)], vec![], vec![]);
    assert!(matches!(run_step(&mut s, RunEvent::Tracks(vec![])), RunAction::Read));
    match run_step(&mut s, RunEvent::EndOfStream) {
        RunAction::Undeclared(t) => assert_eq!(t, TrackIndex(4)),
        other => panic!("expected Undeclared, got {other:?}"),
    }
}

#[test]
fn an_empty_copy_run_reads_then_finalizes() {
    let mut s = RunState::new(vec![], vec![], vec![]);
    assert!(matches!(run_step(&mut s, RunEvent::Tracks(vec![])), RunAction::Read));
    assert!(matches!(run_step(&mut s, RunEvent::EndOfStream), RunAction::Finalize));
}
