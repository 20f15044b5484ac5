//! Media types: container formats, codecs, colour, frames and packets.

use splica::media::{
    AudioCodec, ChannelLayout, ColorPrimaries, ColorRange, ColorSpace, ContainerFormat, Frame, FrameRate,
    MatrixCoefficients, Packet, PixelFormat, PlaneLayout, QualityTarget, TrackIndex, TransferCharacteristics,
    VideoCodec, VideoFrame, VideoFrameError,
};
use splica::timestamp::Timestamp;

#[test]
fn media_test_that_packet_is_owned_and_cloneable() {
    // GIVEN
    let packet = Packet {
        track_index: TrackIndex(0),
        pts: Timestamp::new(0, 30).unwrap(),
        dts: Timestamp::new(0, 30).unwrap(),
        is_keyframe: true,
        data: b"compressed data".to_vec(),
    };

    // WHEN — clone (simulating undo stack push)
    let cloned = packet.clone();

    // THEN — both are independent values
    assert_eq!(cloned.track_index, TrackIndex(0));
    assert!(cloned.is_keyframe);
}

#[test]
fn media_test_that_video_frame_has_color_space_metadata() {
    // GIVEN — 1080p YUV420 in a single contiguous buffer
    let y_size = 1920 * 1080;
    let uv_size = 960 * 540;
    let total = y_size + 2 * uv_size;
    let mut buf = vec![0u8; total];
    buf[y_size..y_size + uv_size].fill(128);
    buf[y_size + uv_size..].fill(128);

    let frame = VideoFrame::new(
        1920,
        1080,
        PixelFormat::Yuv420p,
        Some(ColorSpace::bt709()),
        Timestamp::new(0, 30).unwrap(),
        buf,
        vec![
            PlaneLayout { offset: 0, stride: 1920, width: 1920, height: 1080 },
            PlaneLayout { offset: y_size, stride: 960, width: 960, height: 540 },
            PlaneLayout { offset: y_size + uv_size, stride: 960, width: 960, height: 540 },
        ],
    )
    .unwrap();

    // THEN — the color space can be inspected directly
    let cs = frame.color_space.unwrap();
    assert_eq!(cs.primaries, ColorPrimaries::Bt709);
    assert_eq!(cs.transfer, TransferCharacteristics::Bt709);
    assert_eq!(cs.matrix, MatrixCoefficients::Bt709);
}

#[test]
fn media_test_that_frame_enum_provides_pts() {
    // GIVEN
    let video_frame = VideoFrame::new(
        320,
        240,
        PixelFormat::Yuv420p,
        Some(ColorSpace::bt709()),
        Timestamp::new(90, 30).unwrap(),
        Vec::new(),
        vec![],
    )
    .unwrap();
    let frame = Frame::Video(video_frame);

    // WHEN
    let pts = frame.pts();

    // THEN — 3 seconds
    let seconds = pts.ticks() as f64 / pts.timebase() as f64;
    assert!((seconds - 3.0).abs() < f64::EPSILON);
}

#[test]
fn media_test_that_channel_layout_reports_correct_count() {
    assert_eq!(ChannelLayout::Mono.channel_count(), 1);
    assert_eq!(ChannelLayout::Stereo.channel_count(), 2);
    assert_eq!(ChannelLayout::Surround5_1.channel_count(), 6);
    assert_eq!(ChannelLayout::Surround7_1.channel_count(), 8);
}

#[test]
fn media_test_that_frame_rate_represents_ntsc_exactly() {
    // GIVEN — 29.97fps NTSC as rational
    let rate = FrameRate::new(30000, 1001).unwrap();

    // THEN — exact representation, no floating-point drift
    assert_eq!(rate.numerator, 30000);
    assert_eq!(rate.denominator, 1001);
    assert!((rate.numerator as f64 / rate.denominator as f64 - 29.97002997).abs() < 1e-6);
    assert_eq!(rate.to_string(), "30000/1001");
}

#[test]
fn media_test_that_frame_rate_displays_integer_without_denominator() {
    // GIVEN — exact 30fps
    let rate = FrameRate::new(30, 1).unwrap();

    // THEN
    assert_eq!(rate.to_string(), "30");
}

#[test]
fn media_test_that_color_space_includes_range() {
    // GIVEN — BT.709 default is limited range (broadcast)
    let cs = ColorSpace::bt709();

    // THEN
    assert_eq!(cs.range, ColorRange::Limited);
}

#[test]
fn media_test_that_video_codec_other_accepts_prores() {
    let codec = VideoCodec::Other("ProRes".to_string());

    assert_eq!(codec, VideoCodec::Other("ProRes".to_string()));
}

#[test]
fn media_test_that_audio_codec_other_accepts_flac() {
    let codec = AudioCodec::Other("FLAC".to_string());

    assert_eq!(codec, AudioCodec::Other("FLAC".to_string()));
}

#[test]
fn media_test_that_video_frame_roundtrips_yuv420_plane_data() {
    // GIVEN — a 4x2 YUV420p frame (Y: 4x2, U: 2x1, V: 2x1)
    let y_data = [10u8, 20, 30, 40, 50, 60, 70, 80];
    let u_data = [128u8, 129];
    let v_data = [130u8, 131];

    let mut buf = Vec::with_capacity(y_data.len() + u_data.len() + v_data.len());
    buf.extend_from_slice(&y_data);
    buf.extend_from_slice(&u_data);
    buf.extend_from_slice(&v_data);

    let y_offset = 0;
    let u_offset = y_data.len();
    let v_offset = u_offset + u_data.len();

    // WHEN
    let frame = VideoFrame::new(
        4,
        2,
        PixelFormat::Yuv420p,
        Some(ColorSpace::bt709()),
        Timestamp::new(0, 30).unwrap(),
        buf,
        vec![
            PlaneLayout { offset: y_offset, stride: 4, width: 4, height: 2 },
            PlaneLayout { offset: u_offset, stride: 2, width: 2, height: 1 },
            PlaneLayout { offset: v_offset, stride: 2, width: 2, height: 1 },
        ],
    )
    .unwrap();

    // THEN — plane data round-trips without extra allocation
    assert_eq!(frame.plane_data(0).unwrap(), &y_data);
    assert_eq!(frame.plane_data(1).unwrap(), &u_data);
    assert_eq!(frame.plane_data(2).unwrap(), &v_data);
    assert!(frame.plane_data(3).is_none());
}

#[test]
fn media_test_that_video_frame_rejects_out_of_bounds_plane() {
    // GIVEN — a plane layout that extends past the buffer
    let buf = vec![0u8; 100];

    // WHEN
    let result = VideoFrame::new(
        10,
        10,
        PixelFormat::Yuv420p,
        Some(ColorSpace::bt709()),
        Timestamp::new(0, 30).unwrap(),
        buf,
        vec![PlaneLayout { offset: 0, stride: 10, width: 10, height: 20 }],
    );

    // THEN
    assert!(matches!(result, Err(VideoFrameError::PlaneOutOfBounds { .. })));
}

#[test]
fn media_test_that_video_frame_rejects_stride_smaller_than_width() {
    // GIVEN — stride < width
    let buf = vec![0u8; 100];

    // WHEN
    let result = VideoFrame::new(
        10,
        5,
        PixelFormat::Yuv420p,
        Some(ColorSpace::bt709()),
        Timestamp::new(0, 30).unwrap(),
        buf,
        vec![PlaneLayout { offset: 0, stride: 5, width: 10, height: 5 }],
    );

    // THEN
    assert!(matches!(result, Err(VideoFrameError::StrideTooSmall { .. })));
}

#[test]
fn mod_test_that_packet_is_owned_and_cloneable() {
    // GIVEN
    let packet = Packet {
        track_index: TrackIndex(0),
        pts: Timestamp::new(0, 30).unwrap(),
        dts: Timestamp::new(0, 30).unwrap(),
        is_keyframe: true,
        data: b"compressed data".to_vec(),
    };

    // WHEN — clone (simulating undo stack push)
    let cloned = packet.clone();

    // THEN — both are independent values
    assert_eq!(cloned.track_index, TrackIndex(0));
    assert!(cloned.is_keyframe);
}

#[test]
fn mod_test_that_video_frame_has_color_space_metadata() {
    // GIVEN — 1080p YUV420 in a single contiguous buffer
    let y_size = 1920 * 1080;
    let uv_size = 960 * 540;
    let total = y_size + 2 * uv_size;
    let mut buf = vec![0u8; total];
    buf[y_size..y_size + uv_size].fill(128);
    buf[y_size + uv_size..].fill(128);

    let frame = VideoFrame::new(
        1920,
        1080,
        PixelFormat::Yuv420p,
        Some(ColorSpace::bt709()),
        Timestamp::new(0, 30).unwrap(),
        buf,
        vec![
            PlaneLayout { offset: 0, stride: 1920, width: 1920, height: 1080 },
            PlaneLayout { offset: y_size, stride: 960, width: 960, height: 540 },
            PlaneLayout { offset: y_size + uv_size, stride: 960, width: 960, height: 540 },
        ],
    )
    .unwrap();

    // THEN — the color space can be inspected directly
    let cs = frame.color_space.unwrap();
    assert_eq!(cs.primaries, ColorPrimaries::Bt709);
    assert_eq!(cs.transfer, TransferCharacteristics::Bt709);
    assert_eq!(cs.matrix, MatrixCoefficients::Bt709);
}

#[test]
fn mod_test_that_frame_enum_provides_pts() {
    // GIVEN
    let video_frame = VideoFrame::new(
        320,
        240,
        PixelFormat::Yuv420p,
        Some(ColorSpace::bt709()),
        Timestamp::new(90, 30).unwrap(),
        Vec::new(),
        vec![],
    )
    .unwrap();
    let frame = Frame::Video(video_frame);

    // WHEN
    let pts = frame.pts();

    // THEN — 3 seconds
    let seconds = pts.ticks() as f64 / pts.timebase() as f64;
    assert!((seconds - 3.0).abs() < f64::EPSILON);
}

#[test]
fn mod_test_that_channel_layout_reports_correct_count() {
    assert_eq!(ChannelLayout::Mono.channel_count(), 1);
    assert_eq!(ChannelLayout::Stereo.channel_count(), 2);
    assert_eq!(ChannelLayout::Surround5_1.channel_count(), 6);
    assert_eq!(ChannelLayout::Surround7_1.channel_count(), 8);
}

#[test]
fn mod_test_that_frame_rate_represents_ntsc_exactly() {
    // GIVEN — 29.97fps NTSC as rational
    let rate = FrameRate::new(30000, 1001).unwrap();

    // THEN — exact representation, no floating-point drift
    assert_eq!(rate.numerator, 30000);
    assert_eq!(rate.denominator, 1001);
    assert!((rate.numerator as f64 / rate.denominator as f64 - 29.97002997).abs() < 1e-6);
    assert_eq!(rate.to_string(), "30000/1001");
}

#[test]
fn mod_test_that_frame_rate_displays_integer_without_denominator() {
    // GIVEN — exact 30fps
    let rate = FrameRate::new(30, 1).unwrap();

    // THEN
    assert_eq!(rate.to_string(), "30");
}

#[test]
fn mod_test_that_color_space_includes_range() {
    // GIVEN — BT.709 default is limited range (broadcast)
    let cs = ColorSpace::bt709();

    // THEN
    assert_eq!(cs.range, ColorRange::Limited);
}

#[test]
fn mod_test_that_video_codec_other_accepts_prores() {
    let codec = VideoCodec::Other("ProRes".to_string());

    assert_eq!(codec, VideoCodec::Other("ProRes".to_string()));
}

#[test]
fn mod_test_that_audio_codec_other_accepts_flac() {
    let codec = AudioCodec::Other("FLAC".to_string());

    assert_eq!(codec, AudioCodec::Other("FLAC".to_string()));
}

#[test]
fn mod_test_that_video_frame_roundtrips_yuv420_plane_data() {
    // GIVEN — a 4x2 YUV420p frame (Y: 4x2, U: 2x1, V: 2x1)
    let y_data = [10u8, 20, 30, 40, 50, 60, 70, 80];
    let u_data = [128u8, 129];
    let v_data = [130u8, 131];

    let mut buf = Vec::with_capacity(y_data.len() + u_data.len() + v_data.len());
    buf.extend_from_slice(&y_data);
    buf.extend_from_slice(&u_data);
    buf.extend_from_slice(&v_data);

    let y_offset = 0;
    let u_offset = y_data.len();
    let v_offset = u_offset + u_data.len();

    // WHEN
    let frame = VideoFrame::new(
        4,
        2,
        PixelFormat::Yuv420p,
        Some(ColorSpace::bt709()),
        Timestamp::new(0, 30).unwrap(),
        buf,
        vec![
            PlaneLayout { offset: y_offset, stride: 4, width: 4, height: 2 },
            PlaneLayout { offset: u_offset, stride: 2, width: 2, height: 1 },
            PlaneLayout { offset: v_offset, stride: 2, width: 2, height: 1 },
        ],
    )
    .unwrap();

    // THEN — plane data round-trips without extra allocation
    assert_eq!(frame.plane_data(0).unwrap(), &y_data);
    assert_eq!(frame.plane_data(1).unwrap(), &u_data);
    assert_eq!(frame.plane_data(2).unwrap(), &v_data);
    assert!(frame.plane_data(3).is_none());
}

#[test]
fn mod_test_that_video_frame_rejects_out_of_bounds_plane() {
    // GIVEN — a plane layout that extends past the buffer
    let buf = vec![0u8; 100];

    // WHEN
    let result = VideoFrame::new(
        10,
        10,
        PixelFormat::Yuv420p,
        Some(ColorSpace::bt709()),
        Timestamp::new(0, 30).unwrap(),
        buf,
        vec![PlaneLayout { offset: 0, stride: 10, width: 10, height: 20 }],
    );

    // THEN
    assert!(matches!(result, Err(VideoFrameError::PlaneOutOfBounds { .. })));
}

#[test]
fn mod_test_that_video_frame_rejects_stride_smaller_than_width() {
    // GIVEN — stride < width
    let buf = vec![0u8; 100];

    // WHEN
    let result = VideoFrame::new(
        10,
        5,
        PixelFormat::Yuv420p,
        Some(ColorSpace::bt709()),
        Timestamp::new(0, 30).unwrap(),
        buf,
        vec![PlaneLayout { offset: 0, stride: 5, width: 10, height: 5 }],
    );

    // THEN
    assert!(matches!(result, Err(VideoFrameError::StrideTooSmall { .. })));
}

#[test]
fn test_that_container_format_from_extension_recognizes_mp4_variants() {
    assert_eq!(ContainerFormat::from_extension("mp4"), Some(ContainerFormat::Mp4));
    assert_eq!(ContainerFormat::from_extension("m4v"), Some(ContainerFormat::Mp4));
    assert_eq!(ContainerFormat::from_extension("m4a"), Some(ContainerFormat::Mp4));
    assert_eq!(ContainerFormat::from_extension("MP4"), Some(ContainerFormat::Mp4));
}

#[test]
fn test_that_container_format_from_extension_recognizes_webm() {
    assert_eq!(ContainerFormat::from_extension("webm"), Some(ContainerFormat::WebM));
    assert_eq!(ContainerFormat::from_extension("WEBM"), Some(ContainerFormat::WebM));
}

#[test]
fn test_that_container_format_from_extension_recognizes_mkv_variants() {
    assert_eq!(ContainerFormat::from_extension("mkv"), Some(ContainerFormat::Mkv));
    assert_eq!(ContainerFormat::from_extension("mka"), Some(ContainerFormat::Mkv));
}

#[test]
fn test_that_container_format_from_extension_returns_none_for_unknown() {
    assert_eq!(ContainerFormat::from_extension("avi"), None);
    assert_eq!(ContainerFormat::from_extension(""), None);
}

#[test]
fn test_that_all_formats_are_writable() {
    assert!(ContainerFormat::Mp4.is_writable());
    assert!(ContainerFormat::WebM.is_writable());
    assert!(ContainerFormat::Mkv.is_writable());
}

#[test]
fn test_that_quality_target_crf_accepts_valid_range() {
    assert_eq!(QualityTarget::crf(0), Some(QualityTarget::Crf(0)));
    assert_eq!(QualityTarget::crf(23), Some(QualityTarget::Crf(23)));
    assert_eq!(QualityTarget::crf(51), Some(QualityTarget::Crf(51)));
}

#[test]
fn test_that_quality_target_crf_rejects_out_of_range() {
    assert_eq!(QualityTarget::crf(52), None);
    assert_eq!(QualityTarget::crf(255), None);
}

#[test]
fn test_that_quality_target_bitrate_stores_value() {
    let qt = QualityTarget::Bitrate(2_000_000);

    assert_eq!(qt, QualityTarget::Bitrate(2_000_000));
}

#[test]
fn container_extension_match_ignores_case_throughout() {
    assert_eq!(ContainerFormat::from_extension("MkA"), Some(ContainerFormat::Mkv));
    assert_eq!(ContainerFormat::from_extension("M4V"), Some(ContainerFormat::Mp4));
    assert_eq!(ContainerFormat::from_extension("mp"), None);
}

#[test]
fn frame_rate_rejects_only_a_zero_denominator() {
    assert!(FrameRate::new(30, 0).is_none());
    assert_eq!(FrameRate::new(0, 1).unwrap().to_string(), "0");
}

#[test]
fn plane_size_is_stride_times_height() {
    let p = PlaneLayout { offset: 7, stride: 12, width: 10, height: 5 };

    assert_eq!(p.size(), 60);
}

#[test]
fn video_frame_error_messages_name_the_plane() {
    let e = VideoFrameError::PlaneOutOfBounds { index: 1, offset: 10, size: 20, buffer_len: 25 };
    assert_eq!(e.to_string(), "plane 1 extends beyond buffer: offset 10 + size 20 > buffer length 25");

    let e = VideoFrameError::StrideTooSmall { index: 0, stride: 5, width: 10 };
    assert_eq!(e.to_string(), "plane 0 stride 5 is less than plane width 10");
}
