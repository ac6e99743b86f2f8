use lightgrid::fixed::{add_flux, saturate, scale, scale_flux, FLUX_MAX, UNIT};
use lightgrid::light::{
    compute_index_transmissions, compute_slope_gathers, compute_slope_gathers_n,
    precomputed_lights, precomputed_slope_gathers,
};
use lightgrid::geometry::{cancels, rotate, Face, Offset};
use lightgrid::layout::{
    uniform_angle_of, uniform_blur_of, Angle, DirectionLayout, LayoutError, MAX_DIRECTIONS,
};
use lightgrid::wall::{wall_kind, WallKind, Writer, WALL_ABSORB, WALL_BLUR, WALL_DIFFUSE};

fn ahead() -> Angle {
    Angle { cos: 1_000_000, sin: 0 }
}

#[test]
fn straight_bin_without_blur_reads_only_the_cell_behind() {
    let w = compute_index_transmissions(ahead(), 0);
    assert_eq!(w, [UNIT, 0, 0]);
}

#[test]
fn diagonal_bin_with_blur_splits_evenly() {
    // t = 1/2, b = 1/10: t(1-3b)+b = 0.45, the far side gets b, the rest is 0.45.
    let up = compute_index_transmissions(Angle { cos: 707_107, sin: 707_107 }, 100_000);
    assert_eq!(up, [450_000, 450_000, 100_000]);
    let down = compute_index_transmissions(Angle { cos: 707_107, sin: -707_107 }, 100_000);
    assert_eq!(down, [450_000, 100_000, 450_000]);
}

#[test]
fn slope_of_a_third_gives_a_quarter_sideways() {
    // slope 1/3: t = (1/3)/(4/3) = 1/4.
    let w = compute_index_transmissions(Angle { cos: 900_000, sin: 300_000 }, 0);
    assert_eq!(w, [750_000, 250_000, 0]);
}

#[test]
fn weights_sum_to_one_for_many_bins_and_blurs() {
    let angles = [
        Angle { cos: 1_000_000, sin: 0 },
        Angle { cos: 999_999, sin: 1 },
        Angle { cos: 766_044, sin: -642_788 },
        Angle { cos: 707_107, sin: 707_107 },
        Angle { cos: 1, sin: -1 },
        Angle { cos: 977_076, sin: 212_891 },
    ];
    let blurs = [0u32, 1, 70_000, 333_333, 333_334, 400_000, 499_999];
    for a in angles {
        for b in blurs {
            let w = compute_index_transmissions(a, b);
            assert_eq!(w[0] as u64 + w[1] as u64 + w[2] as u64, UNIT as u64);
            assert!(w[0] > 0);
        }
    }
}

#[test]
fn single_bin_table_has_three_entries() {
    let table = compute_slope_gathers_n(1, vec![ahead()]).unwrap();
    assert_eq!(table.gathers.len(), 3);
    assert_eq!(table.transmissions, vec![UNIT, 0, 0]);
    assert_eq!(table.gathers[0].offset, Offset { x: -1, y: 0 });
    assert_eq!(table.gathers[1].offset, Offset { x: 0, y: 1 });
    assert_eq!(table.gathers[2].offset, Offset { x: 0, y: -1 });
    for g in &table.gathers {
        assert_eq!(g.source, 0);
        assert_eq!(g.direction, 0);
    }
}

#[test]
fn calibrated_table_sums_to_one_for_each_bin() {
    let table = precomputed_slope_gathers(9);
    assert_eq!(table.gathers.len(), 27);
    assert_eq!(table.angles.len(), 9);
    assert_eq!(table.blurs, vec![0, 0, 70_000, 120_000, 200_000, 120_000, 70_000, 0, 0]);
    for bin in 0..9u32 {
        let mut sum = 0u32;
        for (i, g) in table.gathers.iter().enumerate() {
            if g.direction == bin {
                sum += table.transmissions[i];
            }
        }
        assert_eq!(sum, UNIT);
    }
}

#[test]
fn calibrated_middle_bin_leaks_a_fifth_to_each_side() {
    let table = precomputed_slope_gathers(9);
    assert_eq!(&table.transmissions[12..15], &[600_000, 200_000, 200_000]);
    assert_eq!(table.gathers[13].direction, 4);
    assert_eq!(table.gathers[13].source, 4);
    // Bin 1 has slope tan(-30 degrees): 500000 / 1366025 = 0.366025...
    assert_eq!(&table.transmissions[3..6], &[633_975, 0, 366_025]);
}

#[test]
fn standard_blur_profile_is_used_for_even_layouts() {
    let angles: Vec<Angle> = vec![
        Angle { cos: 766_044, sin: -642_788 },
        Angle { cos: 866_025, sin: -500_000 },
        Angle { cos: 939_693, sin: -342_020 },
        Angle { cos: 984_808, sin: -173_648 },
        Angle { cos: 1_000_000, sin: 0 },
        Angle { cos: 984_808, sin: 173_648 },
        Angle { cos: 939_693, sin: 342_020 },
        Angle { cos: 866_025, sin: 500_000 },
        Angle { cos: 766_044, sin: 642_788 },
    ];
    let table = compute_slope_gathers_n(9, angles).unwrap();
    assert_eq!(table.blurs, vec![0, 0, 0, 40_000, 100_000, 40_000, 0, 0, 0]);
    assert_eq!(&table.transmissions[12..15], &[800_000, 100_000, 100_000]);
}

#[test]
fn layout_faults_are_named() {
    assert_eq!(compute_slope_gathers_n(0, vec![]).err(), Some(LayoutError::NoDirections));
    assert_eq!(
        compute_slope_gathers_n(MAX_DIRECTIONS + 1, vec![]).err(),
        Some(LayoutError::TooManyDirections)
    );
    assert_eq!(
        compute_slope_gathers_n(2, vec![ahead()]).err(),
        Some(LayoutError::LengthMismatch)
    );
    assert_eq!(
        compute_slope_gathers_n(1, vec![Angle { cos: 600_000, sin: 800_000 }]).err(),
        Some(LayoutError::OutOfView { bin: 0 })
    );
    assert_eq!(
        compute_slope_gathers_n(2, vec![ahead(), ahead()]).err(),
        Some(LayoutError::NotIncreasing { bin: 1 })
    );
    assert_eq!(
        DirectionLayout::new(1, vec![ahead()], vec![500_000]).err(),
        Some(LayoutError::BlurOutOfRange { bin: 0 })
    );
    assert_eq!(
        DirectionLayout::new(1, vec![ahead()], vec![]).err(),
        Some(LayoutError::LengthMismatch)
    );
    let ok = DirectionLayout::new(1, vec![ahead()], vec![499_999]).unwrap();
    assert_eq!(ok.directions(), 1);
}

#[test]
fn layout_gives_the_same_table_as_the_shorthand() {
    let layout = DirectionLayout::new(1, vec![ahead()], vec![0]).unwrap();
    let table = compute_slope_gathers(layout);
    assert_eq!(table.transmissions, vec![UNIT, 0, 0]);
    assert_eq!(table.directions(), 1);
}

#[test]
fn even_angles_fill_the_field_of_view() {
    assert_eq!(uniform_angle_of(0, 9), -698_131);
    assert_eq!(uniform_angle_of(4, 9), 0);
    assert_eq!(uniform_angle_of(8, 9), 698_131);
    assert_eq!(uniform_angle_of(0, 1), 0);
    assert_eq!(uniform_angle_of(0, 2), -392_699);
    assert_eq!(uniform_angle_of(1, 2), 392_699);
    assert_eq!(uniform_blur_of(4), 100_000);
    assert_eq!(uniform_blur_of(3), 40_000);
    assert_eq!(uniform_blur_of(5), 40_000);
    assert_eq!(uniform_blur_of(0), 0);
    assert_eq!(uniform_blur_of(6), 0);
}

#[test]
fn angles_are_ordered_by_their_turn() {
    let low = Angle { cos: 866_025, sin: -500_000 };
    let high = Angle { cos: 866_025, sin: 500_000 };
    assert!(low.is_before(&high));
    assert!(!high.is_before(&low));
    assert!(!low.is_before(&low));
    assert!(low.is_in_view());
    assert!(!Angle { cos: 0, sin: 0 }.is_in_view());
    assert!(!Angle { cos: 1_000_001, sin: 0 }.is_in_view());
}

#[test]
fn calibrated_brightness() {
    assert_eq!(
        precomputed_lights(),
        [1_000_000, 1_000_000, 1_000_000, 950_000, 1_250_000, 950_000, 1_000_000, 1_000_000, 1_000_000]
    );
}

#[test]
fn faces_are_quarter_turns() {
    let behind = Offset { x: -1, y: 0 };
    assert_eq!(rotate(Face::PlusX, behind), Offset { x: -1, y: 0 });
    assert_eq!(rotate(Face::MinusY, behind), Offset { x: 0, y: 1 });
    assert_eq!(rotate(Face::MinusX, behind), Offset { x: 1, y: 0 });
    assert_eq!(rotate(Face::PlusY, behind), Offset { x: 0, y: -1 });
    let side = Offset { x: 0, y: 1 };
    assert_eq!(rotate(Face::MinusY, side), Offset { x: 1, y: 0 });
    assert_eq!(rotate(Face::MinusX, side), Offset { x: 0, y: -1 });
    assert_eq!(rotate(Face::PlusY, side), Offset { x: -1, y: 0 });
    assert_eq!(rotate(Face::MinusX, Offset { x: 3, y: -7 }), Offset { x: -3, y: 7 });
}

#[test]
fn face_indices_round_trip() {
    for k in 0..4u32 {
        assert_eq!(Face::from_index(k).unwrap().index(), k);
    }
    assert_eq!(Face::from_index(4), None);
    assert_eq!(Face::from_index(0), Some(Face::PlusX));
    assert_eq!(Face::from_index(3), Some(Face::PlusY));
}

#[test]
fn opposite_steps_cancel() {
    assert!(cancels(Offset { x: 1, y: 0 }, Offset { x: -1, y: 0 }));
    assert!(cancels(Offset { x: 0, y: -1 }, Offset { x: 0, y: 1 }));
    assert!(!cancels(Offset { x: 1, y: 0 }, Offset { x: 1, y: 0 }));
    assert!(!cancels(Offset { x: 1, y: 0 }, Offset { x: 0, y: -1 }));
    assert!(cancels(Offset { x: 0, y: 0 }, Offset { x: 0, y: 0 }));
}

#[test]
fn tools_paint_their_walls() {
    assert_eq!(Writer::Empty.wall(), 0);
    assert_eq!(Writer::Absorb.wall(), WALL_ABSORB);
    assert_eq!(Writer::Blur.wall(), WALL_BLUR);
    assert_eq!(Writer::Diffuse.wall(), WALL_DIFFUSE);
    assert_eq!(Writer::Absorb.wall(), 1);
    assert_eq!(Writer::Blur.wall(), 4);
    assert_eq!(Writer::Diffuse.wall(), 16);
    for w in [Writer::Empty, Writer::Absorb, Writer::Blur, Writer::Diffuse] {
        assert_eq!(wall_kind(w.wall()), Some(w.kind()));
    }
    assert_eq!(wall_kind(2), None);
    assert_eq!(Writer::Diffuse.kind(), WallKind::Diffuse);
}

#[test]
fn walls_that_send_light_back() {
    assert!(WallKind::Diffuse.is_reemitting());
    assert!(WallKind::Tint.is_reemitting());
    assert!(!WallKind::Empty.is_reemitting());
    assert!(!WallKind::Absorb.is_reemitting());
    assert!(!WallKind::Blur.is_reemitting());
    assert!(WallKind::Diffuse.is_reading(WallKind::Diffuse));
    assert!(!WallKind::Empty.is_reading(WallKind::Diffuse));
    assert!(!WallKind::Blur.is_reading(WallKind::Diffuse));
    assert!(WallKind::Empty.is_reading(WallKind::Tint));
    assert!(WallKind::Empty.is_reading(WallKind::Absorb));
}

#[test]
fn fixed_point_rounds_down_and_saturates() {
    assert_eq!(scale(500_000, 3), 1);
    assert_eq!(scale(333_333, 3), 0);
    assert_eq!(scale(UNIT, 12_345), 12_345);
    assert_eq!(scale(2_000_000, FLUX_MAX), 2 * FLUX_MAX as u64);
    assert_eq!(scale_flux(2_000_000, FLUX_MAX), FLUX_MAX);
    assert_eq!(scale_flux(900_000, 1000), 900);
    assert_eq!(add_flux(FLUX_MAX, 1), FLUX_MAX);
    assert_eq!(add_flux(FLUX_MAX - 1, 1), FLUX_MAX);
    assert_eq!(add_flux(7, 8), 15);
    assert_eq!(saturate(1 << 40), FLUX_MAX);
    assert_eq!(saturate(17), 17);
}

#[test]
fn slope_tables_are_normalized_and_conserving() {
    let table = precomputed_slope_gathers(9);
    assert!(table.is_normalized());
    assert!(table.is_conserving());
    assert_eq!(table.weights_into(), vec![1_000_000u128; 9]);
    assert_eq!(table.weights_from(), vec![1_000_000u128; 9]);
    let mut broken = precomputed_slope_gathers(9);
    broken.transmissions[0] -= 1;
    assert!(!broken.is_normalized());
    assert!(broken.is_conserving());
    let mut shifted = precomputed_slope_gathers(9);
    shifted.gathers[0].source = 3;
    assert!(shifted.is_normalized());
    assert!(!shifted.is_conserving());
}

fn float_transmissions(angle: f64, blur: f64) -> [f64; 3] {
    let slope = angle.tan();
    let y = slope / (1.0 + slope.abs());
    let x = 1.0 / (1.0 + slope.abs());
    let n = x * (1.0 - 3.0 * blur) + blur;
    let tp = y.abs() * (1.0 - 3.0 * blur) + blur;
    let tm = blur;
    if y.is_sign_positive() {
        [n, tp, tm]
    } else {
        [n, tm, tp]
    }
}

#[test]
fn fixed_point_weights_follow_the_tangent_formula() {
    let angles: [f64; 9] = [
        -0.69813174,
        -0.52359873,
        -0.3890658,
        -0.21453294,
        0.0,
        0.21453294,
        0.3890658,
        0.52359873,
        0.6981317,
    ];
    let blurs: [f64; 9] = [0.0, 0.0, 0.07, 0.12, 0.2, 0.12, 0.07, 0.0, 0.0];
    let table = precomputed_slope_gathers(9);
    for bin in 0..9 {
        let want = float_transmissions(angles[bin], blurs[bin]);
        for k in 0..3 {
            let got = table.transmissions[3 * bin + k] as f64 / 1e6;
            assert!((got - want[k]).abs() < 3e-6, "bin {} entry {}: {} against {}", bin, k, got, want[k]);
        }
        let a = table.angles[bin];
        assert!((a.cos as f64 / 1e6 - angles[bin].cos()).abs() < 1e-6);
        assert!((a.sin as f64 / 1e6 - angles[bin].sin()).abs() < 1e-6);
    }
}

#[test]
fn even_angles_follow_the_formula() {
    for directions in [1u32, 2, 3, 9, 16, 100] {
        for dir in 0..directions {
            let want = ((dir as f64 + 0.5) / directions as f64 - 0.5) * std::f64::consts::FRAC_PI_2;
            let got = uniform_angle_of(dir, directions) as f64 / 1e6;
            assert!((got - want).abs() < 2e-6);
        }
    }
}
