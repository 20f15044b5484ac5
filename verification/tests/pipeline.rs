//! Pipeline events, configuration checks and loop bookkeeping.

use splica::error::{PipelineError, ValidationError};
use splica::media::{Codec, TrackIndex, TrackInfo, TrackKind, VideoCodec, VideoTrackInfo};
use splica::pipeline::builder::PipelineConfig;
use splica::pipeline::event::{PipelineEvent, PipelineEventKind};
use splica::pipeline::execution::{output_track_info, route, PipelineCounters, PipelineStage};

#[test]
fn test_that_pipeline_event_carries_timestamp() {
    // GIVEN
    let before = std::time::Instant::now();
    let event = PipelineEvent::new(PipelineEventKind::FramesEncoded { count: 5 });
    let after = std::time::Instant::now();

    // THEN
    assert!(event.timestamp >= before);
    assert!(event.timestamp <= after);
}

fn config() -> PipelineConfig {
    PipelineConfig {
        has_demuxer: true,
        has_muxer: true,
        encoders: vec![],
        decoders: vec![],
        audio_encoders: vec![],
        audio_decoders: vec![],
        filters: vec![],
        audio_filters: vec![],
    }
}

#[test]
fn validate_returns_empty_for_a_copy_pipeline() {
    assert!(config().validate().is_empty());
}

#[test]
fn validate_returns_all_errors_at_once() {
    let mut c = config();
    c.has_demuxer = false;
    c.has_muxer = false;
    c.encoders = vec![TrackIndex(0)];

    assert_eq!(
        c.validate(),
        vec![
            ValidationError::MissingDemuxer,
            ValidationError::MissingMuxer,
            ValidationError::EncoderWithoutDecoder(TrackIndex(0)),
        ]
    );
}

#[test]
fn validate_detects_orphan_filters_and_unpaired_codecs() {
    let mut c = config();
    c.decoders = vec![TrackIndex(0), TrackIndex(1)];
    c.encoders = vec![TrackIndex(0)];
    c.filters = vec![TrackIndex(0), TrackIndex(1), TrackIndex(2)];
    c.audio_decoders = vec![TrackIndex(3)];
    c.audio_filters = vec![TrackIndex(4)];

    assert_eq!(
        c.validate(),
        vec![
            ValidationError::DecoderWithoutEncoder(TrackIndex(1)),
            ValidationError::AudioDecoderWithoutEncoder(TrackIndex(3)),
            ValidationError::OrphanVideoFilter(TrackIndex(1)),
            ValidationError::OrphanVideoFilter(TrackIndex(2)),
            ValidationError::OrphanAudioFilter(TrackIndex(4)),
        ]
    );
}

#[test]
fn packets_route_to_their_output_track() {
    let table = vec![(TrackIndex(0), TrackIndex(5)), (TrackIndex(1), TrackIndex(6)), (TrackIndex(0), TrackIndex(7))];

    assert_eq!(route(&table, TrackIndex(1)).unwrap(), TrackIndex(6));
    // a later entry for the same input replaces an earlier one
    assert_eq!(route(&table, TrackIndex(0)).unwrap(), TrackIndex(7));
    match route(&table, TrackIndex(9)) {
        Err(PipelineError::Config { message }) => {
            assert_eq!(message, "packet references track 9 which was not in demuxer tracks")
        },
        other => panic!("expected a config error, got {other:?}"),
    }
}

#[test]
fn output_track_info_applies_codec_and_dimension_overrides() {
    let info = TrackInfo {
        index: TrackIndex(0),
        kind: TrackKind::Video,
        codec: Codec::Video(VideoCodec::H264),
        duration: None,
        video: Some(VideoTrackInfo { width: 1920, height: 1080, pixel_format: None, color_space: None, frame_rate: None }),
        audio: None,
    };

    let out = output_track_info(&info, Some(Codec::Video(VideoCodec::H265)), Some((1280, 720)));
    assert_eq!(out.codec, Codec::Video(VideoCodec::H265));
    let v = out.video.unwrap();
    assert_eq!((v.width, v.height), (1280, 720));
    assert_eq!(out.index, TrackIndex(0));

    let same = output_track_info(&info, None, None);
    assert_eq!(same.codec, Codec::Video(VideoCodec::H264));
    assert_eq!(same.video.unwrap().width, 1920);

    let mut audio = info.clone();
    audio.video = None;
    assert!(output_track_info(&audio, None, Some((10, 10))).video.is_none());
}

#[test]
fn counters_are_cumulative_per_stage() {
    let mut c = PipelineCounters::new();

    assert!(matches!(c.bump(PipelineStage::PacketsRead), PipelineEventKind::PacketsRead { count: 1 }));
    assert!(matches!(c.bump(PipelineStage::PacketsRead), PipelineEventKind::PacketsRead { count: 2 }));
    assert!(matches!(c.bump(PipelineStage::PacketsWritten), PipelineEventKind::PacketsWritten { count: 1 }));
    assert_eq!(c.packets_read, 2);
    assert_eq!(c.frames_decoded, 0);
    assert_eq!(c.packets_written, 1);
}

#[test]
fn each_kind_of_count_runs_one_two_three() {
    let mut c = PipelineCounters::new();
    let stages = [
        PipelineStage::PacketsRead,
        PipelineStage::FramesDecoded,
        PipelineStage::PacketsRead,
        PipelineStage::FramesEncoded,
        PipelineStage::PacketsWritten,
        PipelineStage::PacketsRead,
        PipelineStage::FramesDecoded,
    ];
    let counts: Vec<u64> = stages
        .iter()
        .map(|s| match c.bump(*s) {
            PipelineEventKind::PacketsRead { count }
            | PipelineEventKind::FramesDecoded { count }
            | PipelineEventKind::FramesEncoded { count }
            | PipelineEventKind::PacketsWritten { count } => count,
            _ => panic!("a count event was expected"),
        })
        .collect();
    assert_eq!(counts, vec![1, 1, 2, 1, 1, 3, 2]);
    assert_eq!((c.packets_read, c.frames_decoded, c.frames_encoded, c.packets_written), (3, 2, 1, 1));
}
