use palcalc::colorcalc::{CalcError, ColorCalc};
use palcalc::histogram::ColorData;
use palcalc::interface::SilentSink;

/// Raw RGB bytes holding `weight` copies of one color.
fn pixels(r: u8, g: u8, b: u8, weight: usize) -> Vec<u8> {
    let mut v = Vec::with_capacity(3 * weight);
    for _ in 0..weight {
        v.push(r);
        v.push(g);
        v.push(b);
    }
    v
}

fn histogram_of(entries: &[(u8, u8, u8, usize)]) -> ColorData {
    let mut data = ColorData::new();
    for &(r, g, b, w) in entries {
        data.add(&pixels(r, g, b, w));
    }
    data
}

#[test]
fn total_weight_matches_pixel_count() {
    let mut data = ColorData::new();
    data.add(&pixels(1, 2, 3, 10));
    data.add(&pixels(1, 2, 3, 5));
    data.add(&pixels(200, 100, 50, 7));
    assert_eq!(data.total_count(), 22);
    let calc = ColorCalc::new(4, data, 1, 10, 1).unwrap();
    assert_eq!(calc.total_weight(), 22);
    assert_eq!(calc.point_count, 2);
}

#[test]
fn clamping_zero_colors_gives_one() {
    let data = histogram_of(&[(0, 0, 0, 1), (10, 10, 10, 1), (20, 20, 20, 1)]);
    let calc = ColorCalc::new(0, data, 1, 10, 1).unwrap();
    assert_eq!(calc.centroids.len(), 1);
}

#[test]
fn clamping_large_request_capped_at_256() {
    // 500 distinct colors, far more than 256 requested slots allowed.
    let mut data = ColorData::new();
    for i in 0..500u32 {
        data.add(&pixels((i % 250) as u8, (i / 250) as u8, 0, 1));
    }
    let calc = ColorCalc::new(1000, data, 1, 10, 1).unwrap();
    assert_eq!(calc.centroids.len(), 256);
}

#[test]
fn clamping_more_colors_than_distinct_gives_distinct() {
    let data = histogram_of(&[(0, 0, 0, 4), (10, 10, 10, 2), (20, 20, 20, 9)]);
    let calc = ColorCalc::new(200, data, 1, 10, 1).unwrap();
    assert_eq!(calc.centroids.len(), 3);
}

#[test]
fn empty_histogram_is_refused() {
    let data = ColorData::new();
    match ColorCalc::new(4, data, 1, 10, 1) {
        Err(CalcError::NoData) => {}
        Ok(_) => panic!("a histogram without pixels must be refused"),
    }
}

#[test]
fn assignment_is_idempotent_once_converged() {
    let data = histogram_of(&[
        (0, 0, 0, 5),
        (3, 1, 0, 2),
        (120, 130, 140, 4),
        (250, 250, 250, 8),
        (255, 0, 0, 1),
    ]);
    let mut calc = ColorCalc::new(3, data, 1, 100, 7).unwrap();
    calc.init_centroids();
    loop {
        calc.calc_segments();
        if calc.points_changed == 0 {
            break;
        }
        calc.calc_centroids();
    }
    calc.calc_segments();
    assert_eq!(calc.points_changed, 0);
}

/// The within-cluster squared objective `sum over points of
/// weight * distance^2`, the quantity Lloyd's algorithm drives down.
fn squared_objective(calc: &ColorCalc) -> u128 {
    let mut sum = 0u128;
    for p in calc.points.iter() {
        let d = p.color.distance_squared(&calc.centroids[p.seg]);
        (d as u128).checked_mul(p.count as u128).map(|t| sum += t).unwrap();
    }
    sum
}

#[test]
fn error_does_not_increase_across_cycles() {
    let data = histogram_of(&[
        (0, 0, 0, 5),
        (10, 0, 0, 3),
        (100, 100, 100, 2),
        (110, 105, 100, 6),
        (200, 220, 240, 4),
        (250, 250, 250, 1),
    ]);
    let mut calc = ColorCalc::new(3, data, 1, 100, 99).unwrap();
    calc.init_centroids();
    let mut last_objective: Option<u128> = None;
    for _ in 0..20 {
        // An assignment pass never makes the reported error worse.
        let before = calc.calc_error();
        calc.calc_segments();
        let after = calc.calc_error();
        assert!(after <= before, "assignment raised the error: {} -> {}", before, after);

        // Across whole assign-update cycles the squared objective is
        // non-increasing, up to the centroids' fixed-point rounding.
        let objective = squared_objective(&calc);
        if let Some(prev) = last_objective {
            assert!(
                objective <= prev + 1000,
                "objective rose from {} to {}",
                prev,
                objective
            );
        }
        last_objective = Some(objective);
        if calc.points_changed == 0 {
            break;
        }
        calc.calc_centroids();
    }
}

#[test]
fn best_error_bounds_every_attempt() {
    let data = histogram_of(&[
        (0, 0, 0, 9),
        (40, 80, 120, 3),
        (200, 10, 60, 5),
        (255, 255, 255, 2),
        (17, 93, 201, 7),
    ]);
    let mut calc = ColorCalc::new(3, data, 6, 50, 1234).unwrap();
    let mut sink = SilentSink;
    let _palette = calc.run(&mut sink);
    assert_eq!(calc.attempt_errors.len(), 6);
    for &err in calc.attempt_errors.iter() {
        assert!(calc.best_error <= err);
    }
    assert!(calc.attempt_errors.contains(&calc.best_error));
}

#[test]
fn palette_is_sorted_by_luminance() {
    let data = histogram_of(&[
        (255, 255, 255, 2),
        (0, 0, 0, 9),
        (200, 10, 60, 5),
        (12, 240, 7, 5),
        (40, 80, 120, 3),
    ]);
    let mut calc = ColorCalc::new(4, data, 3, 50, 5).unwrap();
    let mut sink = SilentSink;
    let palette = calc.run(&mut sink);
    for i in 1..palette.len() {
        let a = palette.get((i - 1) as i32).luminocity();
        let b = palette.get(i as i32).luminocity();
        assert!(a <= b, "palette not luminance-sorted at {}", i);
    }
}

#[test]
fn scenario_black_and_white() {
    let data = histogram_of(&[(0, 0, 0, 100), (255, 255, 255, 50)]);
    let mut calc = ColorCalc::new(2, data, 4, 20, 42).unwrap();
    let mut sink = SilentSink;
    let palette = calc.run(&mut sink);
    assert_eq!(palette.len(), 2);
    let first = palette.get(0);
    let second = palette.get(1);
    assert_eq!((first.r, first.g, first.b), (0, 0, 0));
    assert_eq!((second.r, second.g, second.b), (255, 255, 255));
}

#[test]
fn scenario_single_color() {
    let data = histogram_of(&[(10, 20, 30, 1)]);
    let mut calc = ColorCalc::new(5, data, 2, 20, 3).unwrap();
    let mut sink = SilentSink;
    let palette = calc.run(&mut sink);
    assert_eq!(palette.len(), 1);
    let c = palette.get(0);
    assert_eq!((c.r, c.g, c.b), (10, 20, 30));
}

#[test]
fn scenario_two_well_separated_clusters() {
    let data = histogram_of(&[
        (0, 0, 0, 1),
        (2, 0, 0, 1),
        (250, 0, 0, 1),
        (252, 0, 0, 1),
    ]);
    let mut calc = ColorCalc::new(2, data, 1, 20, 11).unwrap();
    calc.init_centroids();
    let mut steps: u32 = 0;
    loop {
        calc.calc_segments();
        if calc.points_changed == 0 {
            break;
        }
        steps += 1;
        assert!(steps <= 2, "did not converge within two steps");
        calc.calc_centroids();
    }
    // Each centroid must sit on the exact mean of its own cluster.
    let mut positions: Vec<(u32, u32, u32)> =
        calc.centroids.iter().map(|c| (c.r, c.g, c.b)).collect();
    positions.sort();
    assert_eq!(positions, vec![(1 * 65536, 0, 0), (251 * 65536, 0, 0)]);
}

#[test]
fn scenario_same_seed_same_palette() {
    let entries: &[(u8, u8, u8, usize)] = &[
        (0, 0, 0, 12),
        (30, 60, 90, 4),
        (31, 61, 91, 6),
        (200, 150, 100, 3),
        (255, 255, 0, 8),
        (5, 250, 128, 2),
    ];
    let mut sink = SilentSink;

    let mut calc1 = ColorCalc::new(3, histogram_of(entries), 5, 40, 777).unwrap();
    let pal1 = calc1.run(&mut sink);

    let mut calc2 = ColorCalc::new(3, histogram_of(entries), 5, 40, 777).unwrap();
    let pal2 = calc2.run(&mut sink);

    assert_eq!(pal1.len(), pal2.len());
    for i in 0..pal1.len() {
        let a = pal1.get(i as i32);
        let b = pal2.get(i as i32);
        assert_eq!((a.r, a.g, a.b), (b.r, b.g, b.b));
    }
    assert_eq!(calc1.best_error, calc2.best_error);
}
