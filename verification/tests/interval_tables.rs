use lightgrid::fixed::UNIT;
use lightgrid::interval::{
    compute_interval_gathers, split_interval, GatherError, Interval, IntervalFault, Part, Parts,
};
use lightgrid::geometry::Offset;
use lightgrid::layout::{Angle, DirectionLayout};

fn one_bin() -> DirectionLayout {
    DirectionLayout::new(1, vec![Angle { cos: 1_000_000, sin: 0 }], vec![0]).unwrap()
}

fn two_bins() -> DirectionLayout {
    DirectionLayout::new(
        2,
        vec![Angle { cos: 923_880, sin: -382_683 }, Angle { cos: 923_880, sin: 382_683 }],
        vec![0, 0],
    )
    .unwrap()
}

fn center_width() -> i64 {
    let share = (1.0f64 / 3.0).atan() / (std::f64::consts::PI / 4.0);
    (share * 1e6).round() as i64
}

#[test]
fn interval_inside_one_bin_is_one_part() {
    let r = split_interval(Interval { start: 250_000, end: 750_000 }, 1);
    assert_eq!(r, Ok(Parts { first: Part { source: 0, weight: 500_000 }, second: None }));
}

#[test]
fn interval_over_a_boundary_is_two_parts() {
    let r = split_interval(Interval { start: 500_000, end: 1_500_000 }, 2);
    assert_eq!(
        r,
        Ok(Parts {
            first: Part { source: 0, weight: 500_000 },
            second: Some(Part { source: 1, weight: 500_000 }),
        })
    );
    let r = split_interval(Interval { start: 2_900_000, end: 3_250_000 }, 4);
    assert_eq!(
        r,
        Ok(Parts {
            first: Part { source: 2, weight: 100_000 },
            second: Some(Part { source: 3, weight: 250_000 }),
        })
    );
}

#[test]
fn ends_near_a_boundary_are_nudged() {
    // The start sits on a boundary and moves up; the end sits on one and moves down.
    let r = split_interval(Interval { start: 0, end: 1_000_000 }, 1);
    assert_eq!(r, Ok(Parts { first: Part { source: 0, weight: 998_000 }, second: None }));
    // Just below a boundary counts as near.
    let r = split_interval(Interval { start: 999_500, end: 1_700_000 }, 2);
    assert_eq!(r, Ok(Parts { first: Part { source: 1, weight: 699_500 }, second: None }));
    // Exactly a thousandth away does not.
    let r = split_interval(Interval { start: 1_000, end: 999_000 }, 1);
    assert_eq!(r, Ok(Parts { first: Part { source: 0, weight: 998_000 }, second: None }));
    // A start just before the first bin is moved into it.
    let r = split_interval(Interval { start: -999, end: 500_000 }, 1);
    assert_eq!(r, Ok(Parts { first: Part { source: 0, weight: 499_999 }, second: None }));
}

#[test]
fn faulty_intervals_are_named() {
    assert_eq!(
        split_interval(Interval { start: -1_000, end: 500_000 }, 1),
        Err(IntervalFault::BelowRange)
    );
    assert_eq!(
        split_interval(Interval { start: 600_000, end: 600_000 }, 1),
        Err(IntervalFault::NotIncreasing)
    );
    assert_eq!(
        split_interval(Interval { start: 600_000, end: 400_000 }, 1),
        Err(IntervalFault::NotIncreasing)
    );
    // Nudging can empty a short interval.
    assert_eq!(
        split_interval(Interval { start: 999_500, end: 1_000_400 }, 2),
        Err(IntervalFault::NotIncreasing)
    );
    assert_eq!(
        split_interval(Interval { start: 500_000, end: 1_200_000 }, 1),
        Err(IntervalFault::AboveRange)
    );
    assert_eq!(
        split_interval(Interval { start: 500_000, end: 2_500_000 }, 3),
        Err(IntervalFault::TooWide)
    );
    assert_eq!(
        split_interval(Interval { start: i64::MAX - 5, end: i64::MAX }, 3),
        Err(IntervalFault::AboveRange)
    );
    assert_eq!(
        split_interval(Interval { start: i64::MIN, end: i64::MAX }, 3),
        Err(IntervalFault::BelowRange)
    );
}

#[test]
fn single_bin_seen_from_two_cells_behind() {
    // The middle cell fills atan(1/3) / (pi/4) of the bin, the two cells beside it
    // the rest in equal parts, less the nudge at the two ends of the bin.
    let c = center_width();
    assert_eq!(c, 409_666);
    let side = (1_000_000 - c) / 2;
    let intervals = vec![
        Interval { start: side, end: side + c },
        Interval { start: side + c, end: 1_000_000 },
        Interval { start: 0, end: side },
    ];
    let table = compute_interval_gathers(one_bin(), &intervals).unwrap();
    assert_eq!(table.gathers.len(), 3);
    assert_eq!(table.transmissions[0] as i64, c);
    assert_eq!(table.transmissions[1] as i64, side - 1_000);
    assert_eq!(table.transmissions[2] as i64, side - 1_000);
    assert_eq!(table.gathers[0].offset, Offset { x: -1, y: 0 });
    assert_eq!(table.gathers[1].offset, Offset { x: 0, y: 1 });
    assert_eq!(table.gathers[2].offset, Offset { x: 0, y: -1 });
    let sum: u32 = table.transmissions.iter().sum();
    assert_eq!(sum, UNIT - 2_000);
}

#[test]
fn intervals_that_tile_a_bin_sum_to_one() {
    let intervals = vec![
        Interval { start: 300_000, end: 700_000 },
        Interval { start: 700_000, end: 1_200_000 },
        Interval { start: 200_000, end: 300_000 },
        Interval { start: 1_300_000, end: 1_700_000 },
        Interval { start: 1_700_000, end: 1_800_000 },
        Interval { start: 800_000, end: 1_300_000 },
    ];
    let table = compute_interval_gathers(two_bins(), &intervals).unwrap();
    assert_eq!(table.gathers.len(), 8);
    for bin in 0..2u32 {
        let mut sum = 0u32;
        for (i, g) in table.gathers.iter().enumerate() {
            if g.direction == bin {
                sum += table.transmissions[i];
            }
        }
        assert_eq!(sum, UNIT);
    }
    // Bin 0 sees through its second neighbour the end of bin 0 and the start of bin 1.
    assert_eq!(table.gathers[1].source, 0);
    assert_eq!(table.gathers[1].direction, 0);
    assert_eq!(table.transmissions[1], 300_000);
    assert_eq!(table.gathers[2].source, 1);
    assert_eq!(table.gathers[2].direction, 0);
    assert_eq!(table.transmissions[2], 200_000);
    assert_eq!(table.gathers[2].offset, Offset { x: 0, y: 1 });
}

#[test]
fn faulty_tables_name_the_interval() {
    let intervals = vec![Interval { start: 300_000, end: 700_000 }];
    assert_eq!(
        compute_interval_gathers(one_bin(), &intervals).err(),
        Some(GatherError::LengthMismatch)
    );
    let intervals = vec![
        Interval { start: 300_000, end: 700_000 },
        Interval { start: 700_000, end: 1_200_000 },
        Interval { start: 200_000, end: 300_000 },
        Interval { start: 1_300_000, end: 1_700_000 },
        Interval { start: 1_700_000, end: 2_800_000 },
        Interval { start: 900_000, end: 100_000 },
    ];
    assert_eq!(
        compute_interval_gathers(two_bins(), &intervals).err(),
        Some(GatherError::BadInterval { bin: 1, neighbor: 1, fault: IntervalFault::AboveRange })
    );
}

fn seen_from_behind(fraction: f64, directions: u32, turn: i32) -> i64 {
    let angle = (fraction - 0.5) * std::f64::consts::FRAC_PI_2;
    let (x, y) = (1.0, angle.tan());
    let (x, y) = match turn {
        0 => (x, y),
        1 => (-y, x),
        _ => (y, -x),
    };
    let seen = y.atan2(x + 2.0);
    ((seen / std::f64::consts::FRAC_PI_2 + 0.5) * directions as f64 * 1e6).round() as i64
}

fn seen_intervals(directions: u32) -> Vec<Interval> {
    let mut intervals = Vec::new();
    for bin in 0..directions {
        let low = bin as f64 / directions as f64;
        let high = (bin + 1) as f64 / directions as f64;
        for turn in [0, 1, -1] {
            intervals.push(Interval {
                start: seen_from_behind(low, directions, turn),
                end: seen_from_behind(high, directions, turn),
            });
        }
    }
    intervals
}

fn nine_bins() -> DirectionLayout {
    let angles = vec![
        Angle { cos: 766_044, sin: -642_788 },
        Angle { cos: 866_025, sin: -500_000 },
        Angle { cos: 939_693, sin: -342_020 },
        Angle { cos: 984_808, sin: -173_648 },
        Angle { cos: 1_000_000, sin: 0 },
        Angle { cos: 984_808, sin: 173_648 },
        Angle { cos: 939_693, sin: 342_020 },
        Angle { cos: 866_025, sin: 500_000 },
        Angle { cos: 766_044, sin: 642_788 },
    ];
    DirectionLayout::new(9, angles, vec![0; 9]).unwrap()
}

#[test]
fn single_bin_projected_through_its_neighbours() {
    let intervals = seen_intervals(1);
    assert_eq!(intervals[0], Interval { start: 295_167, end: 704_833 });
    assert_eq!(intervals[1], Interval { start: 704_833, end: 1_000_000 });
    assert_eq!(intervals[2], Interval { start: 0, end: 295_167 });
    let table = compute_interval_gathers(one_bin(), &intervals).unwrap();
    assert_eq!(table.transmissions, vec![409_666, 294_167, 294_167]);
    let share = table.transmissions[0] as f64 / 1e6;
    assert!((share - (1.0f64 / 3.0).atan() / std::f64::consts::FRAC_PI_4).abs() < 1e-6);
    assert!(table.is_conserving());
    assert!(!table.is_normalized());
}

#[test]
fn nine_bins_projected_hand_on_no_more_than_they_hold() {
    let table = compute_interval_gathers(nine_bins(), &seen_intervals(9)).unwrap();
    assert!(table.is_conserving());
    assert!(!table.is_normalized());
    let from = table.weights_from();
    assert_eq!(from.len(), 9);
    assert_eq!(from[0], 999_000);
    assert_eq!(from[4], 1_000_000);
    assert_eq!(from[8], 999_000);
    let into = table.weights_into();
    assert_eq!(into[4], 735_556);
    assert_eq!(into[0], 1_460_091);
    // The middle bin sees through the cell behind it parts of two source bins.
    assert_eq!(table.gathers.iter().filter(|g| g.direction == 4).count(), 3);
    assert_eq!(table.gathers.iter().filter(|g| g.direction == 0).count(), 4);
}

#[test]
fn tiling_intervals_give_a_normalized_table() {
    let intervals = vec![
        Interval { start: 300_000, end: 700_000 },
        Interval { start: 700_000, end: 1_200_000 },
        Interval { start: 200_000, end: 300_000 },
        Interval { start: 1_300_000, end: 1_700_000 },
        Interval { start: 1_700_000, end: 1_800_000 },
        Interval { start: 800_000, end: 1_300_000 },
    ];
    let table = compute_interval_gathers(two_bins(), &intervals).unwrap();
    assert!(table.is_normalized());
    assert_eq!(table.weights_into(), vec![1_000_000, 1_000_000]);
    assert_eq!(table.weights_from(), vec![1_000_000, 1_000_000]);
    assert!(table.is_conserving());
}
