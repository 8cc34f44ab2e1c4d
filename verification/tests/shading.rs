use mandelbrot::frame::{sample_grid, shade_frame, Fill};
use mandelbrot::plane::{Coordinate, PlanePoint, PlaneRegion};
use mandelbrot::raster::{Pixel, Raster};
use mandelbrot::scene::{scene_raster, scene_region, MAX_ITERATIONS};
use mandelbrot::shade::{Shade, LEVELS, LEVEL_SCALE};

fn opacity(shade: &Shade) -> f32 {
    (255.0 - (shade.scaled as f32 / shade.cap as f32)) / 256.0
}

#[test]
fn gradient_has_255_levels_over_256() {
    assert_eq!(LEVELS, 255);
    assert_eq!(LEVEL_SCALE, 256);
}

#[test]
fn shade_of_the_cap_is_zero() {
    let shade = Shade::from_count(80, 80).unwrap();
    assert_eq!(shade, Shade { scaled: 20_400, cap: 80 });
    assert_eq!(shade.numerator(), 0);
    assert_eq!(shade.denominator(), 20_480);
    assert_eq!(opacity(&shade), 0.0);
}

#[test]
fn shade_of_zero_is_255_over_256() {
    let shade = Shade::from_count(0, 80).unwrap();
    assert_eq!(shade, Shade { scaled: 0, cap: 80 });
    assert_eq!(shade.numerator(), 20_400);
    assert_eq!(shade.denominator(), 20_480);
    assert_eq!(opacity(&shade), 0.99609375);
}

#[test]
fn shade_follows_the_formula() {
    let shade = Shade::from_count(40, 80).unwrap();
    assert_eq!(shade.scaled, 10_200);
    assert_eq!(shade.cap, 80);
    assert_eq!(shade.numerator(), 10_200);
    assert_eq!(shade.denominator(), 20_480);
    assert_eq!(opacity(&shade), 0.498046875);
    let one = Shade::from_count(1, 80).unwrap();
    assert_eq!(one.scaled, 255);
    assert_eq!(one.numerator(), 20_145);
    assert_eq!(opacity(&one), 0.983642578125);
}

#[test]
fn shade_rejects_counts_above_the_cap() {
    assert!(Shade::from_count(81, 80).is_none());
    assert!(Shade::from_count(u32::MAX, 80).is_none());
    assert!(Shade::from_count(80, 80).is_some());
}

#[test]
fn shade_rejects_a_zero_cap() {
    assert!(Shade::from_count(0, 0).is_none());
    assert!(Shade::from_count(1, 0).is_none());
}

#[test]
fn shade_of_the_largest_count_does_not_overflow() {
    let shade = Shade::from_count(u32::MAX, u32::MAX).unwrap();
    assert_eq!(shade.scaled, 1_095_216_660_225);
    assert_eq!(shade.numerator(), 0);
    assert_eq!(shade.denominator(), 1_099_511_627_520);
    let dim = Shade::from_count(0, u32::MAX).unwrap();
    assert_eq!(dim.numerator(), 1_095_216_660_225);
}

#[test]
fn every_shade_lies_in_the_unit_interval() {
    let mut iterations: u32 = 0;
    while iterations <= MAX_ITERATIONS {
        let shade = Shade::from_count(iterations, MAX_ITERATIONS).unwrap();
        assert!(shade.numerator() <= shade.denominator());
        assert_eq!(shade.numerator(), 255 * (80 - iterations as u64));
        let color: f32 = opacity(&shade);
        assert!(0.0 <= color && color <= 1.0);
        assert_eq!(color, shade.numerator() as f32 / shade.denominator() as f32);
        iterations += 1;
    }
}

#[test]
fn shade_fades_as_the_count_grows() {
    let mut iterations: u32 = 0;
    while iterations < MAX_ITERATIONS {
        let here = Shade::from_count(iterations, MAX_ITERATIONS).unwrap();
        let next = Shade::from_count(iterations + 1, MAX_ITERATIONS).unwrap();
        assert!(next.numerator() < here.numerator());
        assert!(opacity(&next) < opacity(&here));
        iterations += 1;
    }
}

#[test]
fn grid_lists_the_points_in_sweep_order() {
    let raster = Raster::new(2, 2).unwrap();
    let region = PlaneRegion::new(-2, 1, -1, 1).unwrap();
    let re = |step: u32| Coordinate { start: -2, span: 3, step, steps: 2 };
    let im = |step: u32| Coordinate { start: -1, span: 2, step, steps: 2 };
    assert_eq!(
        sample_grid(&raster, &region),
        vec![
            PlanePoint { re: re(0), im: im(0) },
            PlanePoint { re: re(0), im: im(1) },
            PlanePoint { re: re(1), im: im(0) },
            PlanePoint { re: re(1), im: im(1) },
        ]
    );
}

#[test]
fn grid_of_the_scene_covers_every_pixel() {
    let raster = scene_raster();
    let region = scene_region();
    let points: Vec<PlanePoint> = sample_grid(&raster, &region);
    assert_eq!(points.len(), 960_000);
    assert_eq!(points[0], region.locate(&raster, Pixel { x: 0, y: 0 }).unwrap());
    assert_eq!(points[480_400], region.locate(&raster, Pixel { x: 600, y: 400 }).unwrap());
    assert_eq!(points[959_999], region.locate(&raster, Pixel { x: 1199, y: 799 }).unwrap());
    let mut index: usize = 0;
    while index < points.len() {
        let pixel = raster.pixel_at(index as u64).unwrap();
        assert_eq!(points[index], region.locate(&raster, pixel).unwrap());
        index += 4801;
    }
}

#[test]
fn frame_pairs_each_pixel_with_its_shade() {
    let raster = Raster::new(2, 2).unwrap();
    let fills: Vec<Fill> = shade_frame(&raster, 80, &vec![0, 80, 40, 1]).unwrap();
    assert_eq!(
        fills,
        vec![
            Fill { pixel: Pixel { x: 0, y: 0 }, shade: Shade { scaled: 0, cap: 80 } },
            Fill { pixel: Pixel { x: 0, y: 1 }, shade: Shade { scaled: 20_400, cap: 80 } },
            Fill { pixel: Pixel { x: 1, y: 0 }, shade: Shade { scaled: 10_200, cap: 80 } },
            Fill { pixel: Pixel { x: 1, y: 1 }, shade: Shade { scaled: 255, cap: 80 } },
        ]
    );
}

#[test]
fn frame_needs_one_count_for_each_pixel() {
    let raster = Raster::new(2, 2).unwrap();
    assert!(shade_frame(&raster, 80, &vec![0, 80, 40]).is_none());
    assert!(shade_frame(&raster, 80, &vec![0, 80, 40, 1, 2]).is_none());
    assert!(shade_frame(&raster, 80, &vec![]).is_none());
    assert!(shade_frame(&raster, 80, &vec![0, 0, 0, 0]).is_some());
}

#[test]
fn frame_rejects_counts_above_the_cap() {
    let raster = Raster::new(2, 2).unwrap();
    assert!(shade_frame(&raster, 80, &vec![0, 80, 81, 1]).is_none());
    assert!(shade_frame(&raster, 80, &vec![0, 80, 40, u32::MAX]).is_none());
    assert!(shade_frame(&raster, 0, &vec![0, 0, 0, 0]).is_none());
}

#[test]
fn rendering_twice_gives_the_same_frame() {
    let raster = Raster::new(3, 2).unwrap();
    let region = PlaneRegion::new(-2, 1, -1, 1).unwrap();
    let counts: Vec<u32> = vec![1, 2, 80, 80, 3, 0];
    assert_eq!(sample_grid(&raster, &region), sample_grid(&raster, &region));
    let first: Vec<Fill> = shade_frame(&raster, 80, &counts).unwrap();
    let second: Vec<Fill> = shade_frame(&raster, 80, &counts).unwrap();
    assert_eq!(first, second);
    assert_eq!(counts, vec![1, 2, 80, 80, 3, 0]);
}

#[test]
fn each_fill_depends_on_its_own_count_alone() {
    let raster = Raster::new(3, 2).unwrap();
    let before: Vec<Fill> = shade_frame(&raster, 80, &vec![1, 2, 80, 80, 3, 0]).unwrap();
    let after: Vec<Fill> = shade_frame(&raster, 80, &vec![1, 2, 80, 7, 3, 0]).unwrap();
    let mut index: usize = 0;
    while index < 6 {
        if index == 3 {
            assert_ne!(before[index], after[index]);
            assert_eq!(before[index].pixel, after[index].pixel);
        } else {
            assert_eq!(before[index], after[index]);
        }
        index += 1;
    }
}
