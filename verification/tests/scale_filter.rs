//! The integer side of the scale filter: checks, placement, nearest-neighbour
//! resampling and frame assembly.

use splica::filter::scale::{
    assemble_scaled_frame, fill_region, fit_region, plane_params, scale_plane_nearest, stretch_region, AspectMode,
    Interpolation, PlaneScaleParams, ScaleFilter, ScaleRegion, ScaleStep,
};
use splica::media::{ColorSpace, PixelFormat, PlaneLayout, VideoFrame};
use splica::timestamp::Timestamp;

fn make_yuv420_frame(width: u32, height: u32, y_val: u8) -> VideoFrame {
    let y_size = (width * height) as usize;
    let uv_w = width / 2;
    let uv_h = height / 2;
    let uv_size = (uv_w * uv_h) as usize;
    let mut buf = vec![y_val; y_size];
    buf.extend(vec![128u8; uv_size]);
    buf.extend(vec![128u8; uv_size]);
    let planes = vec![
        PlaneLayout { offset: 0, stride: width as usize, width, height },
        PlaneLayout { offset: y_size, stride: uv_w as usize, width: uv_w, height: uv_h },
        PlaneLayout { offset: y_size + uv_size, stride: uv_w as usize, width: uv_w, height: uv_h },
    ];
    VideoFrame::new(width, height, PixelFormat::Yuv420p, Some(ColorSpace::bt709()), Timestamp::new(0, 30).unwrap(), buf, planes)
        .unwrap()
}

#[test]
fn scale_filter_defaults_to_bilinear_stretch() {
    let f = ScaleFilter::new(640, 480);

    assert_eq!(f.target(), (640, 480));
    assert_eq!(f.interpolation(), Interpolation::Bilinear);
    assert_eq!(f.aspect_mode(), AspectMode::Stretch);

    let f = f.with_interpolation(Interpolation::NearestNeighbor).with_aspect_mode(AspectMode::Fit);
    assert_eq!(f.target(), (640, 480));
    assert_eq!(f.interpolation(), Interpolation::NearestNeighbor);
    assert_eq!(f.aspect_mode(), AspectMode::Fit);
}

#[test]
fn scale_plan_rejects_non_yuv420p() {
    let width = 4u32;
    let height = 4u32;
    let buf = vec![0u8; (width * height * 4) as usize];
    let planes = vec![PlaneLayout { offset: 0, stride: (width * 4) as usize, width: width * 4, height }];
    let frame =
        VideoFrame::new(width, height, PixelFormat::Rgba, Some(ColorSpace::bt709()), Timestamp::new(0, 30).unwrap(), buf, planes)
            .unwrap();

    let err = ScaleFilter::new(8, 8).plan(&frame).unwrap_err();

    assert_eq!(err.to_string(), "invalid filter input: scale filter only supports YUV420p, got Rgba");
}

#[test]
fn scale_plan_rejects_missing_planes() {
    let frame =
        VideoFrame::new(4, 4, PixelFormat::Yuv420p, None, Timestamp::new(0, 30).unwrap(), vec![0u8; 16], vec![
            PlaneLayout { offset: 0, stride: 4, width: 4, height: 4 },
        ])
        .unwrap();

    let err = ScaleFilter::new(8, 8).plan(&frame).unwrap_err();

    assert_eq!(err.to_string(), "invalid filter input: expected 3 planes for YUV420p, got 1");
}

#[test]
fn scale_plan_rounds_the_target_down_to_even() {
    let frame = make_yuv420_frame(640, 480, 200);

    assert_eq!(ScaleFilter::new(640, 480).plan(&frame).unwrap(), ScaleStep::Unchanged);
    assert_eq!(ScaleFilter::new(641, 481).plan(&frame).unwrap(), ScaleStep::Unchanged);
    assert_eq!(ScaleFilter::new(321, 241).plan(&frame).unwrap(), ScaleStep::Resize { width: 320, height: 240 });
}

#[test]
fn stretch_covers_the_whole_target() {
    let r = stretch_region(1920, 1080, 640, 480);

    assert_eq!(
        r,
        ScaleRegion { dst_x: 0, dst_y: 0, dst_w: 640, dst_h: 480, src_x: 0, src_y: 0, src_w: 1920, src_h: 1080 }
    );
}

#[test]
fn fit_centres_the_content_between_bars() {
    // 160x90 into 120x120: scale 0.75 gives 120x67.5, truncated to 67, even 66
    let r = fit_region(120, 67, 160, 90, 120, 120);

    assert_eq!(
        r,
        ScaleRegion { dst_x: 0, dst_y: 27, dst_w: 120, dst_h: 66, src_x: 0, src_y: 0, src_w: 160, src_h: 90 }
    );
}

#[test]
fn fill_samples_the_centre_of_the_source() {
    // 160x90 into 100x100: scale 1.11 samples 90x90 of the source
    let r = fill_region(90, 90, 160, 90, 100, 100);

    assert_eq!(
        r,
        ScaleRegion { dst_x: 0, dst_y: 0, dst_w: 100, dst_h: 100, src_x: 35, src_y: 0, src_w: 90, src_h: 90 }
    );
}

#[test]
fn chroma_parameters_are_halved() {
    let r = ScaleRegion { dst_x: 2, dst_y: 4, dst_w: 10, dst_h: 6, src_x: 6, src_y: 8, src_w: 20, src_h: 12 };

    assert_eq!(
        plane_params(&r, true),
        PlaneScaleParams { src_x: 3, src_y: 4, src_w: 10, src_h: 6, dst_w: 5, dst_h: 3 }
    );
    assert_eq!(
        plane_params(&r, false),
        PlaneScaleParams { src_x: 6, src_y: 8, src_w: 20, src_h: 12, dst_w: 10, dst_h: 6 }
    );
}

#[test]
fn nearest_picks_the_mapped_source_pixel() {
    let src: Vec<u8> = (0..16).collect();
    let p = PlaneScaleParams { src_x: 0, src_y: 0, src_w: 4, src_h: 4, dst_w: 2, dst_h: 2 };

    assert_eq!(scale_plane_nearest(&src, 4, &p).unwrap(), vec![0, 2, 8, 10]);
}

#[test]
fn nearest_refuses_positions_outside_the_plane() {
    let src: Vec<u8> = (0..15).collect();
    let p = PlaneScaleParams { src_x: 0, src_y: 0, src_w: 4, src_h: 4, dst_w: 4, dst_h: 4 };

    assert!(scale_plane_nearest(&src, 4, &p).is_none());
}

#[test]
fn assembled_frame_has_black_bars_and_neutral_chroma() {
    let region = ScaleRegion { dst_x: 0, dst_y: 1, dst_w: 4, dst_h: 2, src_x: 0, src_y: 0, src_w: 4, src_h: 2 };
    let y: Vec<u8> = (1..=8).collect();
    let u = vec![50u8, 51];
    let v = vec![60u8, 61];

    let f = assemble_scaled_frame(4, 4, &region, &y, &u, &v, None, Timestamp::new(7, 30).unwrap()).unwrap();

    assert_eq!((f.width, f.height), (4, 4));
    assert_eq!(f.pts, Timestamp::new(7, 30).unwrap());
    assert_eq!(f.plane_data(0).unwrap(), &[0u8, 0, 0, 0, 1, 2, 3, 4, 5, 6, 7, 8, 0, 0, 0, 0]);
    assert_eq!(f.plane_data(1).unwrap(), &[50u8, 51, 128, 128]);
    assert_eq!(f.plane_data(2).unwrap(), &[60u8, 61, 128, 128]);
    assert_eq!(f.planes[1], PlaneLayout { offset: 16, stride: 2, width: 2, height: 2 });
}

#[test]
fn nearest_scaling_of_a_uniform_frame_is_uniform() {
    let frame = make_yuv420_frame(100, 100, 200);
    let region = stretch_region(100, 100, 50, 50);
    let ys = scale_plane_nearest(frame.plane_data(0).unwrap(), 100, &plane_params(&region, false)).unwrap();
    let us = scale_plane_nearest(frame.plane_data(1).unwrap(), 50, &plane_params(&region, true)).unwrap();
    let vs = scale_plane_nearest(frame.plane_data(2).unwrap(), 50, &plane_params(&region, true)).unwrap();

    let out = assemble_scaled_frame(50, 50, &region, &ys, &us, &vs, frame.color_space, frame.pts).unwrap();

    assert_eq!(out.planes[0].width, 50);
    assert_eq!(out.planes[1].width, 25);
    assert!(out.plane_data(0).unwrap().iter().all(|&v| v == 200));
}
