use mandelbrot::plane::{Coordinate, PlanePoint, PlaneRegion};
use mandelbrot::raster::{Pixel, Raster};
use mandelbrot::scene::{
    scene_raster, scene_region, HEIGHT, IM_END, IM_START, RE_END, RE_START, WIDTH,
};

fn evaluate(c: &Coordinate) -> f64 {
    c.start as f64 + (c.step as f64 / c.steps as f64) * c.span as f64
}

#[test]
fn raster_needs_two_positive_sides() {
    assert!(Raster::new(0, 800).is_none());
    assert!(Raster::new(1200, 0).is_none());
    assert!(Raster::new(0, 0).is_none());
    let raster = Raster::new(1, 1).unwrap();
    assert_eq!(raster.width(), 1);
    assert_eq!(raster.height(), 1);
    assert_eq!(raster.pixel_count(), 1);
}

#[test]
fn scene_raster_has_the_documented_size() {
    let raster = scene_raster();
    assert_eq!(WIDTH, 1200);
    assert_eq!(HEIGHT, 800);
    assert_eq!(raster.width(), 1200);
    assert_eq!(raster.height(), 800);
    assert_eq!(raster.pixel_count(), 960_000);
}

#[test]
fn largest_raster_counts_without_overflow() {
    let raster = Raster::new(u32::MAX, u32::MAX).unwrap();
    assert_eq!(raster.pixel_count(), 18_446_744_065_119_617_025);
    let last = raster.pixel_at(18_446_744_065_119_617_024).unwrap();
    assert_eq!(last, Pixel { x: u32::MAX - 1, y: u32::MAX - 1 });
    assert_eq!(raster.index_of(last), Some(18_446_744_065_119_617_024));
    assert!(raster.pixel_at(18_446_744_065_119_617_025).is_none());
}

#[test]
fn sweep_runs_down_each_column_in_turn() {
    let raster = scene_raster();
    assert_eq!(raster.pixel_at(0), Some(Pixel { x: 0, y: 0 }));
    assert_eq!(raster.pixel_at(1), Some(Pixel { x: 0, y: 1 }));
    assert_eq!(raster.pixel_at(799), Some(Pixel { x: 0, y: 799 }));
    assert_eq!(raster.pixel_at(800), Some(Pixel { x: 1, y: 0 }));
    assert_eq!(raster.pixel_at(480_400), Some(Pixel { x: 600, y: 400 }));
    assert_eq!(raster.pixel_at(959_999), Some(Pixel { x: 1199, y: 799 }));
    assert_eq!(raster.pixel_at(960_000), None);
    assert_eq!(raster.pixel_at(u64::MAX), None);
}

#[test]
fn sweep_visits_every_pixel_once() {
    let raster = Raster::new(3, 2).unwrap();
    let mut seen: Vec<Pixel> = Vec::new();
    let mut index: u64 = 0;
    while index < raster.pixel_count() {
        let pixel = raster.pixel_at(index).unwrap();
        assert!(raster.has_pixel(pixel));
        assert!(!seen.contains(&pixel));
        assert_eq!(raster.index_of(pixel), Some(index));
        seen.push(pixel);
        index += 1;
    }
    assert_eq!(
        seen,
        vec![
            Pixel { x: 0, y: 0 },
            Pixel { x: 0, y: 1 },
            Pixel { x: 1, y: 0 },
            Pixel { x: 1, y: 1 },
            Pixel { x: 2, y: 0 },
            Pixel { x: 2, y: 1 },
        ]
    );
}

#[test]
fn pixels_off_the_grid_have_no_index() {
    let raster = Raster::new(3, 2).unwrap();
    assert!(!raster.has_pixel(Pixel { x: 3, y: 0 }));
    assert!(!raster.has_pixel(Pixel { x: 0, y: 2 }));
    assert_eq!(raster.index_of(Pixel { x: 3, y: 0 }), None);
    assert_eq!(raster.index_of(Pixel { x: 0, y: 2 }), None);
    assert_eq!(raster.index_of(Pixel { x: 2, y: 1 }), Some(5));
}

#[test]
fn region_needs_lower_bounds_below_upper_bounds() {
    assert!(PlaneRegion::new(1, 1, -1, 1).is_none());
    assert!(PlaneRegion::new(2, 1, -1, 1).is_none());
    assert!(PlaneRegion::new(-2, 1, 1, 1).is_none());
    assert!(PlaneRegion::new(-2, 1, 1, -1).is_none());
    let region = PlaneRegion::new(i32::MIN, i32::MAX, -1, 0).unwrap();
    assert_eq!(region.re_start(), i32::MIN);
    assert_eq!(region.re_end(), i32::MAX);
    assert_eq!(region.im_start(), -1);
    assert_eq!(region.im_end(), 0);
}

#[test]
fn scene_region_frames_the_classic_silhouette() {
    let region = scene_region();
    assert_eq!((RE_START, RE_END, IM_START, IM_END), (-2, 1, -1, 1));
    assert_eq!(region.re_start(), -2);
    assert_eq!(region.re_end(), 1);
    assert_eq!(region.im_start(), -1);
    assert_eq!(region.im_end(), 1);
}

#[test]
fn first_pixel_maps_to_the_lower_corner() {
    let point = scene_region().locate(&scene_raster(), Pixel { x: 0, y: 0 }).unwrap();
    assert_eq!(
        point,
        PlanePoint {
            re: Coordinate { start: -2, span: 3, step: 0, steps: 1200 },
            im: Coordinate { start: -1, span: 2, step: 0, steps: 800 },
        }
    );
    assert_eq!(point.re.numerator(), -2400);
    assert_eq!(point.re.denominator(), 1200);
    assert_eq!(point.im.numerator(), -800);
    assert_eq!(point.im.denominator(), 800);
    assert_eq!(evaluate(&point.re), -2.0);
    assert_eq!(evaluate(&point.im), -1.0);
}

#[test]
fn last_pixel_stays_below_the_upper_corner() {
    let point = scene_region().locate(&scene_raster(), Pixel { x: 1199, y: 799 }).unwrap();
    assert_eq!(point.re.numerator(), 1197);
    assert_eq!(point.im.numerator(), 798);
    assert!(point.re.numerator() < 1 * point.re.denominator());
    assert!(point.im.numerator() < 1 * point.im.denominator());
    assert!(evaluate(&point.re) < 1.0);
    assert!(evaluate(&point.im) < 1.0);
    assert!(evaluate(&point.re) > 0.997);
    assert!(evaluate(&point.im) > 0.997);
}

#[test]
fn centre_pixel_maps_to_minus_one_half() {
    let point = scene_region().locate(&scene_raster(), Pixel { x: 600, y: 400 }).unwrap();
    assert_eq!(point.re.numerator(), -600);
    assert_eq!(point.re.denominator(), 1200);
    assert_eq!(point.im.numerator(), 0);
    assert_eq!(point.im.denominator(), 800);
    assert_eq!(evaluate(&point.re), -0.5);
    assert_eq!(evaluate(&point.im), 0.0);
}

#[test]
fn pixels_off_the_raster_map_nowhere() {
    let raster = scene_raster();
    let region = scene_region();
    assert!(region.locate(&raster, Pixel { x: 1200, y: 0 }).is_none());
    assert!(region.locate(&raster, Pixel { x: 0, y: 800 }).is_none());
    assert!(region.locate(&raster, Pixel { x: u32::MAX, y: u32::MAX }).is_none());
}

#[test]
fn distinct_pixels_map_to_distinct_points() {
    let raster = Raster::new(4, 3).unwrap();
    let region = PlaneRegion::new(-2, 1, -1, 1).unwrap();
    let mut seen: Vec<(i64, i64)> = Vec::new();
    let mut index: u64 = 0;
    while index < raster.pixel_count() {
        let point = region.locate(&raster, raster.pixel_at(index).unwrap()).unwrap();
        let value = (point.re.numerator(), point.im.numerator());
        assert!(!seen.contains(&value));
        assert!(-2 * 4 <= value.0 && value.0 < 4);
        assert!(-3 <= value.1 && value.1 < 3);
        seen.push(value);
        index += 1;
    }
    assert_eq!(seen.len(), 12);
}

#[test]
fn neighbouring_samples_are_evenly_spaced() {
    let raster = scene_raster();
    let region = scene_region();
    let mut x: u32 = 0;
    while x + 1 < 1200 {
        let here = region.locate(&raster, Pixel { x, y: 7 }).unwrap();
        let right = region.locate(&raster, Pixel { x: x + 1, y: 7 }).unwrap();
        assert_eq!(right.re.numerator() - here.re.numerator(), 3);
        assert_eq!(right.im, here.im);
        x += 1;
    }
    let here = region.locate(&raster, Pixel { x: 7, y: 10 }).unwrap();
    let below = region.locate(&raster, Pixel { x: 7, y: 11 }).unwrap();
    assert_eq!(below.im.numerator() - here.im.numerator(), 2);
    assert_eq!(below.re, here.re);
}

#[test]
fn widest_axis_has_an_exact_numerator() {
    let raster = Raster::new(u32::MAX, 1).unwrap();
    let region = PlaneRegion::new(i32::MIN, i32::MAX, 0, 1).unwrap();
    let first = region.locate(&raster, Pixel { x: 0, y: 0 }).unwrap();
    assert_eq!(first.re.span, u32::MAX);
    assert_eq!(first.re.numerator(), -2_147_483_648 * 4_294_967_295);
    let last = region.locate(&raster, Pixel { x: u32::MAX - 1, y: 0 }).unwrap();
    assert_eq!(last.re.numerator(), 4_294_967_295 * 2_147_483_646);
    assert!(last.re.numerator() < 2_147_483_647 * 4_294_967_295);
}
