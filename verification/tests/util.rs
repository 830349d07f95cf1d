use palcalc::bayer::{generate_bayer, is_power_of_two};
use palcalc::bluenoise::{pattern_from_points, Point};
use palcalc::colors::{Centroid, IntColor};
use palcalc::dmatrix::DitherMatrix;
use palcalc::indexing::convert_posterize;
use palcalc::interface::{duration_format, ProgressBar, Timer};
use palcalc::math::isqrt;
use palcalc::palette::Palette;
use palcalc::pattern::Pattern;
use palcalc::plane::Plane;
use palcalc::rng::Rng;

#[test]
fn isqrt_exact_values() {
    assert_eq!(isqrt(0), 0);
    assert_eq!(isqrt(1), 1);
    assert_eq!(isqrt(3), 1);
    assert_eq!(isqrt(4), 2);
    assert_eq!(isqrt(99), 9);
    assert_eq!(isqrt(100), 10);
    assert_eq!(isqrt(u64::MAX as u128), 4294967295);
    assert_eq!(isqrt(u128::MAX), u64::MAX);
}

#[test]
fn rng_is_deterministic_and_bounded() {
    let mut a = Rng::new(99);
    let mut b = Rng::new(99);
    for _ in 0..32 {
        assert_eq!(a.next(), b.next());
    }
    let mut c = Rng::new(7);
    for _ in 0..100 {
        assert!(c.below(13) < 13);
        assert!(c.below_wide(1_000_000_000_000_000_000_000u128) < 1_000_000_000_000_000_000_000);
    }
}

#[test]
fn int_color_distance_and_luminance() {
    let a = IntColor::new(10, 20, 30);
    let b = IntColor::new(13, 16, 30);
    assert_eq!(a.distance_squared(b), 9 + 16);
    assert_eq!(a.luminocity(), 299 * 10 + 587 * 20 + 114 * 30);
    let white = IntColor::new(255, 255, 255);
    assert_eq!(white.luminocity(), 255 * 1000);
}

#[test]
fn centroid_distance_and_quantization() {
    let a = Centroid { r: 65536, g: 0, b: 0 };
    let b = Centroid { r: 0, g: 65536, b: 0 };
    assert_eq!(a.distance_squared(&b), 2 * 65536 * 65536);
    let white = Centroid { r: 255 * 65536, g: 255 * 65536, b: 255 * 65536 };
    let c = white.to_palette_color();
    assert_eq!((c.r, c.g, c.b), (255, 255, 255));
    let mid = Centroid { r: 128 * 65536, g: 0, b: 65536 / 2 };
    let m = mid.to_palette_color();
    assert_eq!(m.r, 128 * 256 / 255);
    assert_eq!(m.g, 0);
    assert_eq!(m.b, 0);
}

#[test]
fn palette_sort_orders_by_luminance() {
    let mut pal = Palette::new();
    pal.add(IntColor::new(255, 255, 255));
    pal.add(IntColor::new(0, 0, 0));
    pal.add(IntColor::new(255, 0, 0));
    pal.add(IntColor::new(0, 255, 0));
    pal.sort();
    let lums: Vec<u32> = (0..4).map(|i| pal.get(i).luminocity()).collect();
    assert_eq!(lums, vec![0, 299 * 255, 587 * 255, 1000 * 255]);
    let darkest = pal.get(0);
    assert_eq!((darkest.r, darkest.g, darkest.b), (0, 0, 0));
}

#[test]
fn palette_find_picks_first_nearest() {
    let mut pal = Palette::new();
    pal.add(IntColor::new(0, 0, 0));
    pal.add(IntColor::new(100, 0, 0));
    pal.add(IntColor::new(100, 0, 0));
    assert_eq!(pal.find(IntColor::new(10, 0, 0)), 0);
    assert_eq!(pal.find(IntColor::new(90, 0, 0)), 1);
    // Equidistant between entry 0 and entry 1: the first wins.
    assert_eq!(pal.find(IntColor::new(50, 0, 0)), 0);
}

#[test]
fn palette_clone_copies_every_entry() {
    let mut pal = Palette::new();
    pal.add(IntColor::new(1, 2, 3));
    pal.add(IntColor::new(4, 5, 6));
    let copy = pal.clone();
    assert_eq!(copy.len(), 2);
    let c = copy.get(1);
    assert_eq!((c.r, c.g, c.b), (4, 5, 6));
    assert_eq!(pal, copy);
}

#[test]
fn pattern_set_get_roundtrip() {
    let mut pat = Pattern::new(4, 3, 16);
    assert_eq!(pat.get(3, 2), 0);
    pat.set(3, 2, 9);
    pat.set(0, 0, 5);
    assert_eq!(pat.get(3, 2), 9);
    assert_eq!(pat.get(0, 0), 5);
    assert_eq!(pat.get(1, 1), 0);
    assert_eq!(pat.levels, 16);
}

#[test]
fn plane_set_get_roundtrip() {
    let mut plane = Plane::new(3, 2, -7i32);
    assert_eq!(plane.get(2, 1), -7);
    plane.set(2, 1, 44);
    assert_eq!(plane.get(2, 1), 44);
    assert_eq!(plane.get(0, 1), -7);
}

#[test]
fn dither_matrix_wraps_around() {
    let mut m = DitherMatrix::new(2, 2, 4);
    m.set(0, 0, 1);
    m.set(1, 0, 2);
    m.set(0, 1, 3);
    m.set(1, 1, 4);
    assert_eq!(m.get(0, 0), 1);
    assert_eq!(m.get(2, 0), 1);
    assert_eq!(m.get(5, 3), 4);
    assert_eq!(m.get(4, 7), 3);
}

#[test]
fn progress_bar_steps_and_finishes() {
    let mut bar = ProgressBar::new(10, 40);
    assert_eq!(bar.width, 32);
    bar.step(4);
    assert_eq!(bar.current, 4);
    bar.step(100);
    assert_eq!(bar.current, 9);
    let mut bar2 = ProgressBar::new(10, 100);
    assert_eq!(bar2.width, 40);
    bar2.finish();
    assert_eq!(bar2.current, 9);
}

#[test]
fn timer_tracks_elapsed_and_remaining() {
    let mut t = Timer::new(10, 1000);
    assert!(!t.needs_update(1400));
    assert!(t.needs_update(1501));
    t.update(2, 1600);
    assert_eq!(t.get_elapsed(2000), 1000);
    // 2 of 10 steps in 1000 ms: 8 steps remain at 500 ms each.
    assert_eq!(t.get_remaining(2000), 4000);
    t.start(5000);
    assert_eq!(t.get_elapsed(5250), 250);
}

#[test]
fn durations_render_like_a_clock() {
    assert_eq!(duration_format(0), "00s");
    assert_eq!(duration_format(9_400), "09s");
    assert_eq!(duration_format(69_000), "01m 09s");
    assert_eq!(duration_format(3_909_000), " 1h 05m 09s");
    assert_eq!(duration_format(45_296_000), "12h 34m 56s");
    assert_eq!(duration_format(360_000_000), "100h 00m 00s");
}

#[test]
fn power_of_two_test_matches() {
    assert!(is_power_of_two(1));
    assert!(is_power_of_two(2));
    assert!(is_power_of_two(4));
    assert!(is_power_of_two(1024));
    assert!(!is_power_of_two(0));
    assert!(!is_power_of_two(3));
    assert!(!is_power_of_two(6));
    assert!(!is_power_of_two(1023));
}

#[test]
fn bayer_matrices_have_expected_cells() {
    let p2 = generate_bayer(2);
    assert_eq!(
        (p2.get(0, 0), p2.get(1, 0), p2.get(0, 1), p2.get(1, 1)),
        (0, 2, 3, 1)
    );
    let p4 = generate_bayer(4);
    assert_eq!(p4.levels, 16);
    let expected = [
        [0, 8, 2, 10],
        [12, 4, 14, 6],
        [3, 11, 1, 9],
        [15, 7, 13, 5],
    ];
    for y in 0..4 {
        for x in 0..4 {
            assert_eq!(p4.get(x, y), expected[y as usize][x as usize]);
        }
    }
}

#[test]
fn pattern_from_ranked_points_spreads_levels() {
    let points = vec![
        Point { x: 0, y: 0 },
        Point { x: 1, y: 0 },
        Point { x: 0, y: 1 },
        Point { x: 1, y: 1 },
    ];
    let pat = pattern_from_points(&points, 2, 2, 2);
    assert_eq!(pat.get(0, 0), 0);
    assert_eq!(pat.get(1, 0), 0);
    assert_eq!(pat.get(0, 1), 1);
    assert_eq!(pat.get(1, 1), 1);
}

#[test]
fn posterize_maps_pixels_to_nearest_palette_index() {
    let mut pal = Palette::new();
    pal.add(IntColor::new(0, 0, 0));
    pal.add(IntColor::new(255, 255, 255));
    let mut input = Plane::new(2, 2, IntColor::new(0, 0, 0));
    input.set(0, 0, IntColor::new(10, 10, 10));
    input.set(1, 0, IntColor::new(250, 240, 255));
    input.set(0, 1, IntColor::new(130, 130, 130));
    input.set(1, 1, IntColor::new(120, 120, 120));
    let mut out = Plane::new(2, 2, 0i32);
    convert_posterize(&input, &mut out, &pal);
    assert_eq!(out.get(0, 0), 0);
    assert_eq!(out.get(1, 0), 1);
    assert_eq!(out.get(0, 1), 1);
    assert_eq!(out.get(1, 1), 0);
}

#[test]
fn histogram_counts_complete_triples() {
    let mut data = palcalc::histogram::ColorData::new();
    data.add(&vec![5, 6, 7, 5, 6, 7, 9, 9]);
    // Two complete triples; the trailing two bytes are ignored.
    assert_eq!(data.total_count(), 2);
}
