use wallpaper_utils::cropper::{CropError, Cropper};
use wallpaper_utils::geometry::{
    framework_aspect_ratio, hd_aspect_ratio, ultrawide_aspect_ratio, u32_string,
    vertical_aspect_ratio, AspectRatio, Direction, Face,
};

fn face(xmin: u32, xmax: u32, ymin: u32, ymax: u32) -> Face {
    Face { xmin, xmax, ymin, ymax }
}

#[test]
fn presets_render_as_resolutions() {
    assert_eq!(hd_aspect_ratio().resolution(), "1920x1080");
    assert_eq!(ultrawide_aspect_ratio().resolution(), "3440x1440");
    assert_eq!(vertical_aspect_ratio().resolution(), "1440x2560");
    assert_eq!(framework_aspect_ratio().resolution(), "2256x1504");
}

#[test]
fn decimal_rendering() {
    assert_eq!(u32_string(0), "0");
    assert_eq!(u32_string(7), "7");
    assert_eq!(u32_string(1080), "1080");
    assert_eq!(u32_string(4294967295), "4294967295");
}

#[test]
fn face_measurements() {
    let f = face(100, 140, 100, 160);
    assert_eq!(f.width(), 40);
    assert_eq!(f.height(), 60);
    assert_eq!(f.area(), 2400);
    assert_eq!(f.geometry(), "40x60+100+100");
}

#[test]
fn default_face_is_empty() {
    let f = Face::default();
    assert_eq!(f, face(0, 0, 0, 0));
    assert_eq!(f.geometry(), "0x0+0+0");
}

#[test]
fn new_rejects_out_of_bounds_faces() {
    let r = Cropper::new(400, 400, vec![face(100, 500, 100, 140)]);
    assert_eq!(r.unwrap_err(), CropError::FaceOutOfBounds);
    let r = Cropper::new(400, 400, vec![face(140, 100, 100, 140)]);
    assert_eq!(r.unwrap_err(), CropError::FaceOutOfBounds);
    assert!(Cropper::new(400, 400, vec![face(100, 140, 100, 140)]).is_ok());
}

#[test]
fn set_aspect_ratio_stores_the_ratio() {
    let mut c = Cropper::new(400, 400, vec![]).unwrap();
    assert_eq!(c.aspect_ratio, AspectRatio(1440, 2560));
    c.set_aspect_ratio(AspectRatio(1920, 1080));
    assert_eq!(c.aspect_ratio, AspectRatio(1920, 1080));
}

#[test]
fn crop_rect_sizes_the_largest_fitting_box() {
    let c = Cropper::new(1920, 1080, vec![]).unwrap();
    let (w, h, d) = c.crop_rect(AspectRatio(1920, 1080));
    assert_eq!((w, h), (1920, 1080));
    assert_eq!(d, Direction::Y);

    let c = Cropper::new(3000, 1000, vec![]).unwrap();
    let (w, h, d) = c.crop_rect(AspectRatio(1920, 1080));
    assert_eq!((w, h), (1777, 1000));
    assert_eq!(d, Direction::X);

    // The larger-area branch: the full 10 x 3 box beats the exact 9 x 3 one.
    let c = Cropper::new(10, 10, vec![]).unwrap();
    let (w, h, d) = c.crop_rect(AspectRatio(3, 1));
    assert_eq!((w, h), (10, 3));
    assert_eq!(d, Direction::Y);
}

#[test]
fn clamp_clips_to_the_source() {
    let c = Cropper::new(400, 400, vec![]).unwrap();
    let low = c.clamp(-20, Direction::X, 200, 200);
    assert_eq!(low, face(0, 200, 0, 400));
    let high = c.clamp(2 * 350, Direction::X, 200, 200);
    assert_eq!(high, face(200, 400, 0, 400));
    let mid = c.clamp(2 * 50, Direction::Y, 200, 200);
    assert_eq!(mid, face(0, 400, 50, 250));
    // A half-pixel offset truncates downward.
    let odd = c.clamp(101, Direction::X, 200, 200);
    assert_eq!(odd, face(50, 250, 0, 400));
}

#[test]
fn single_face_is_centered_on_its_midpoint() {
    let c = Cropper::new(400, 400, vec![face(100, 140, 100, 140)]).unwrap();
    let along_x = c.crop_single_face(Direction::X, 200, 200);
    assert_eq!(along_x.xmin, 20);
    assert_eq!(along_x.xmax, 220);
    let along_y = c.crop_single_face(Direction::Y, 200, 200);
    assert_eq!(along_y.ymin, 20);
    assert_eq!(along_y.ymax, 220);
}

#[test]
fn single_face_centering_clamps_at_edges() {
    let c = Cropper::new(400, 400, vec![face(0, 40, 360, 400)]).unwrap();
    let along_x = c.crop_single_face(Direction::X, 200, 200);
    assert_eq!(along_x.xmin, 0);
    let along_y = c.crop_single_face(Direction::Y, 200, 200);
    assert_eq!(along_y.ymin, 200);
}

#[test]
fn matching_ratio_needs_no_crop() {
    let c = Cropper::new(1920, 1080, vec![face(100, 200, 100, 200)]).unwrap();
    let r = c.crop(AspectRatio(1920, 1080)).unwrap();
    assert_eq!(r, face(0, 1920, 0, 1080));
    assert_eq!(r.geometry(), "1920x1080+0+0");
    let cands = c.crop_candidates(AspectRatio(1920, 1080)).unwrap();
    assert_eq!(cands, vec![face(0, 1920, 0, 1080)]);
}

#[test]
fn two_far_faces_pick_the_median_best_window() {
    let c = Cropper::new(
        3000,
        1000,
        vec![face(0, 100, 0, 100), face(2800, 2900, 0, 100)],
    )
    .unwrap();
    let r = c.crop(AspectRatio(1920, 1080)).unwrap();
    assert_eq!(r, face(1172, 2949, 0, 1000));
    assert_eq!(r.geometry(), "1777x1000+1172+0");
}

#[test]
fn crop_is_repeatable() {
    let c = Cropper::new(
        3000,
        1000,
        vec![face(0, 100, 0, 100), face(2800, 2900, 0, 100)],
    )
    .unwrap();
    let first = c.crop(AspectRatio(1920, 1080)).unwrap();
    let second = c.crop(AspectRatio(1920, 1080)).unwrap();
    assert_eq!(first, second);
}

#[test]
fn zero_ratio_is_rejected() {
    let c = Cropper::new(400, 400, vec![face(0, 10, 0, 10)]).unwrap();
    assert_eq!(c.crop(AspectRatio(0, 1)).unwrap_err(), CropError::InvalidAspectRatio);
    assert_eq!(c.crop(AspectRatio(1, 0)).unwrap_err(), CropError::InvalidAspectRatio);
    assert_eq!(
        c.crop_candidates(AspectRatio(0, 1)).unwrap_err(),
        CropError::InvalidAspectRatio
    );
}

#[test]
fn no_faces_fall_back_to_a_centered_window() {
    let c = Cropper::new(400, 400, vec![]).unwrap();
    let r = c.crop(AspectRatio(1, 2)).unwrap();
    assert_eq!(r, face(100, 300, 0, 400));
}

#[test]
fn candidates_one_group_per_distinct_area() {
    let c = Cropper::new(
        3000,
        1000,
        vec![face(0, 100, 0, 100), face(2800, 2900, 0, 200)],
    )
    .unwrap();
    let cands = c.crop_candidates(AspectRatio(1920, 1080)).unwrap();
    assert_eq!(cands, vec![face(0, 1777, 0, 1000), face(1173, 2950, 0, 1000)]);
}

#[test]
fn candidates_merge_equal_areas() {
    let c = Cropper::new(
        3000,
        1000,
        vec![face(0, 100, 0, 100), face(2800, 2900, 0, 100)],
    )
    .unwrap();
    let cands = c.crop_candidates(AspectRatio(1920, 1080)).unwrap();
    assert_eq!(cands, vec![face(1172, 2949, 0, 1000)]);
}

#[test]
fn candidates_without_faces_are_empty() {
    let c = Cropper::new(400, 400, vec![]).unwrap();
    let cands = c.crop_candidates(AspectRatio(1, 2)).unwrap();
    assert!(cands.is_empty());
}

#[test]
fn partial_overlap_fraction_breaks_the_tie() {
    // One face is fully contained at each scanned start; the wide face cut
    // by the trailing edge contributes a growing fraction that decides.
    let c = Cropper::new(
        10,
        4,
        vec![face(0, 2, 0, 1), face(4, 6, 0, 1), face(5, 9, 0, 2)],
    )
    .unwrap();
    let r = c.crop(AspectRatio(1, 1)).unwrap();
    assert_eq!(r, face(4, 8, 0, 4));
    let cands = c.crop_candidates(AspectRatio(1, 1)).unwrap();
    assert_eq!(cands, vec![face(3, 7, 0, 4), face(5, 9, 0, 4)]);
}

#[test]
fn vertical_scan_slides_along_y() {
    let c = Cropper::new(
        1000,
        3000,
        vec![face(0, 100, 0, 100), face(0, 100, 2800, 2900)],
    )
    .unwrap();
    let (w, h, d) = c.crop_rect(AspectRatio(1080, 1920));
    assert_eq!((w, h), (1000, 1777));
    assert_eq!(d, Direction::Y);
    let r = c.crop(AspectRatio(1080, 1920)).unwrap();
    assert_eq!(r, face(0, 1000, 1172, 2949));
    assert_eq!(r.geometry(), "1000x1777+0+1172");
}

#[test]
fn every_crop_stays_inside_the_source() {
    let c = Cropper::new(
        1000,
        800,
        vec![face(0, 50, 0, 50), face(950, 1000, 750, 800), face(400, 600, 300, 500)],
    )
    .unwrap();
    for ratio in [
        AspectRatio(1920, 1080),
        AspectRatio(1440, 2560),
        AspectRatio(3440, 1440),
        AspectRatio(2256, 1504),
    ] {
        let r = c.crop(ratio).unwrap();
        assert!(r.xmin <= r.xmax && r.xmax <= 1000);
        assert!(r.ymin <= r.ymax && r.ymax <= 800);
        for cand in c.crop_candidates(ratio).unwrap() {
            assert!(cand.xmin <= cand.xmax && cand.xmax <= 1000);
            assert!(cand.ymin <= cand.ymax && cand.ymax <= 800);
        }
    }
}
