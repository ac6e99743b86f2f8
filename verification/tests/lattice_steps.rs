use lightgrid::editor::{apply_edit, even_light, Edit, Editor, Key, State, FIRST_EMISSION};
use lightgrid::fixed::{FLUX_MAX, UNIT};
use lightgrid::light::{compute_slope_gathers_n, precomputed_lights, precomputed_slope_gathers};
use lightgrid::geometry::Face;
use lightgrid::grid::{shade_of, DoubleBufferedGrid, GridError};
use lightgrid::lattice::{copy_flux, dark, Lattice};
use lightgrid::layout::Angle;
use lightgrid::transport::{
    base_of, blur_mean, cosine_of, gather_face, gather_light, returned_flux, sent_toward,
    share_flux, shifted, BouncePolicy, StepConfig, Stepper,
};
use lightgrid::wall::{WallKind, Writer};

fn plain() -> StepConfig {
    StepConfig { step_diffuse: UNIT, bounce: BouncePolicy::UniformBounce }
}

fn straight_grid(width: usize, height: usize, config: StepConfig) -> DoubleBufferedGrid {
    let table = compute_slope_gathers_n(1, vec![Angle { cos: 1_000_000, sin: 0 }]).unwrap();
    DoubleBufferedGrid::new(width, height, table, config).unwrap()
}

fn calibrated_grid(width: usize, height: usize) -> DoubleBufferedGrid {
    DoubleBufferedGrid::new(width, height, precomputed_slope_gathers(9), plain()).unwrap()
}

fn radiance(grid: &DoubleBufferedGrid, x: usize, y: usize) -> Vec<u32> {
    grid.current().cell(x, y).radiance.clone()
}

fn total(grid: &DoubleBufferedGrid) -> u64 {
    let l = grid.current();
    let mut sum = 0u64;
    for y in 0..l.height {
        for x in 0..l.width {
            for v in &l.cell(x, y).radiance {
                sum += *v as u64;
            }
        }
    }
    sum
}

#[test]
fn new_grid_is_dark_and_open() {
    let grid = calibrated_grid(4, 5);
    let l = grid.current();
    assert_eq!(l.width, 4);
    assert_eq!(l.height, 5);
    assert_eq!(l.directions, 9);
    for y in 0..5 {
        for x in 0..4 {
            let c = l.cell(x, y);
            assert_eq!(c.wall, WallKind::Empty);
            assert_eq!(c.wall_color, None);
            assert_eq!(c.emission, None);
            assert_eq!(c.radiance, vec![0u32; 36]);
        }
    }
    assert!(!grid.parity);
}

#[test]
fn small_grids_are_refused() {
    let table = precomputed_slope_gathers(9);
    assert_eq!(DoubleBufferedGrid::new(2, 5, table, plain()).err(), Some(GridError::TooSmall));
    let table = precomputed_slope_gathers(9);
    assert_eq!(DoubleBufferedGrid::new(5, 2, table, plain()).err(), Some(GridError::TooSmall));
    assert!(Lattice::new(2, 3, 1).is_none());
    assert!(Lattice::new(3, 3, 0).is_none());
    assert!(Lattice::new(3, 3, 1).is_some());
}

#[test]
fn light_travels_straight_ahead() {
    let mut grid = straight_grid(6, 5, plain());
    grid.set_emission(1, 2, Some(vec![1000, 0, 0, 0])).unwrap();
    grid.step();
    assert_eq!(radiance(&grid, 1, 2), vec![1000, 0, 0, 0]);
    assert_eq!(radiance(&grid, 2, 2), vec![0, 0, 0, 0]);
    grid.step();
    assert_eq!(radiance(&grid, 2, 2), vec![1000, 0, 0, 0]);
    assert_eq!(radiance(&grid, 3, 2), vec![0, 0, 0, 0]);
    grid.step();
    assert_eq!(radiance(&grid, 3, 2), vec![1000, 0, 0, 0]);
    grid.step();
    assert_eq!(radiance(&grid, 4, 2), vec![1000, 0, 0, 0]);
    // The border is never written.
    grid.step();
    assert_eq!(radiance(&grid, 5, 2), vec![0, 0, 0, 0]);
    assert_eq!(radiance(&grid, 2, 1), vec![0, 0, 0, 0]);
    assert_eq!(radiance(&grid, 2, 3), vec![0, 0, 0, 0]);
}

#[test]
fn each_face_reads_its_own_neighbour() {
    let mut grid = straight_grid(5, 5, plain());
    grid.set_emission(2, 2, Some(vec![10, 20, 30, 40])).unwrap();
    grid.step();
    grid.step();
    assert_eq!(radiance(&grid, 3, 2), vec![10, 0, 0, 0]);
    assert_eq!(radiance(&grid, 2, 1), vec![0, 20, 0, 0]);
    assert_eq!(radiance(&grid, 1, 2), vec![0, 0, 30, 0]);
    assert_eq!(radiance(&grid, 2, 3), vec![0, 0, 0, 40]);
}

#[test]
fn emitters_hold_their_emission_whatever_flows_in() {
    let mut grid = straight_grid(5, 5, plain());
    grid.set_emission(1, 2, Some(vec![700, 0, 0, 0])).unwrap();
    grid.set_emission(2, 2, Some(vec![5, 6, 7, 8])).unwrap();
    for _ in 0..3 {
        grid.step();
        assert_eq!(radiance(&grid, 2, 2), vec![5, 6, 7, 8]);
    }
    assert_eq!(radiance(&grid, 3, 2), vec![5, 0, 0, 0]);
}

#[test]
fn absorbing_cell_is_dark_after_a_step() {
    let mut grid = calibrated_grid(5, 5);
    grid.set_emission(1, 2, Some(vec![900; 36])).unwrap();
    grid.set_emission(2, 2, Some(vec![900; 36])).unwrap();
    grid.step();
    assert_eq!(radiance(&grid, 2, 2), vec![900; 36]);
    grid.set_wall(2, 2, WallKind::Absorb, None).unwrap();
    // Painting leaves what the cell holds until the next step.
    assert_eq!(radiance(&grid, 2, 2), vec![900; 36]);
    grid.step();
    assert_eq!(radiance(&grid, 2, 2), vec![0; 36]);
    grid.step();
    assert_eq!(radiance(&grid, 2, 2), vec![0; 36]);
}

#[test]
fn blurring_cell_holds_the_mean_in_every_bin() {
    let mut grid = straight_grid(5, 5, plain());
    grid.set_emission(1, 2, Some(vec![4000, 0, 0, 0])).unwrap();
    grid.set_wall(2, 2, WallKind::Blur, None).unwrap();
    grid.step();
    grid.step();
    assert_eq!(radiance(&grid, 2, 2), vec![1000, 1000, 1000, 1000]);
    let mut grid = straight_grid(5, 5, plain());
    grid.set_emission(1, 2, Some(vec![4003, 0, 0, 0])).unwrap();
    grid.set_wall(2, 2, WallKind::Blur, None).unwrap();
    grid.step();
    grid.step();
    assert_eq!(radiance(&grid, 2, 2), vec![1000, 1000, 1000, 1000]);
}

#[test]
fn diffuse_wall_sends_light_back_tinted() {
    let mut grid = straight_grid(5, 5, plain());
    grid.set_emission(1, 2, Some(vec![1000, 0, 0, 0])).unwrap();
    grid.set_wall(3, 2, WallKind::Diffuse, Some(900_000)).unwrap();
    grid.step();
    grid.step();
    // What the cell would send on into the wall comes back in the face that looks away from it.
    assert_eq!(radiance(&grid, 2, 2), vec![1000, 0, 900, 0]);
    // The wall itself gathers what reaches it.
    grid.step();
    assert_eq!(radiance(&grid, 3, 2), vec![1000, 0, 0, 0]);
    // Open cells do not read the wall.
    grid.step();
    assert_eq!(radiance(&grid, 2, 2), vec![1000, 0, 900, 0]);
    assert_eq!(radiance(&grid, 1, 2), vec![1000, 0, 0, 0]);
}

#[test]
fn wall_without_colour_sends_everything_back() {
    let mut grid = straight_grid(5, 5, plain());
    grid.set_emission(1, 2, Some(vec![1000, 0, 0, 0])).unwrap();
    grid.set_wall(3, 2, WallKind::Diffuse, None).unwrap();
    grid.step();
    grid.step();
    assert_eq!(radiance(&grid, 2, 2), vec![1000, 0, 1000, 0]);
}

#[test]
fn tinting_wall_lets_light_pass_and_sends_it_back() {
    let mut grid = straight_grid(6, 5, plain());
    grid.set_emission(1, 2, Some(vec![1000, 0, 0, 0])).unwrap();
    grid.set_wall(3, 2, WallKind::Tint, Some(500_000)).unwrap();
    grid.step();
    grid.step();
    assert_eq!(radiance(&grid, 2, 2), vec![1000, 0, 500, 0]);
    grid.step();
    assert_eq!(radiance(&grid, 3, 2), vec![1000, 0, 0, 0]);
    grid.step();
    assert_eq!(radiance(&grid, 4, 2), vec![1000, 0, 0, 0]);
}

#[test]
fn bounce_with_no_weight_is_nothing() {
    let config = StepConfig {
        step_diffuse: UNIT,
        bounce: BouncePolicy::WeightedBounce { brightness: vec![0] },
    };
    let mut grid = straight_grid(5, 5, config);
    assert_eq!(grid.stepper.norms, [0, 0, 0, 0]);
    grid.set_emission(1, 2, Some(vec![1000, 0, 0, 0])).unwrap();
    grid.set_wall(3, 2, WallKind::Diffuse, Some(900_000)).unwrap();
    grid.step();
    grid.step();
    assert_eq!(radiance(&grid, 2, 2), vec![1000, 0, 0, 0]);
}

#[test]
fn weighted_bounce_shares_by_brightness() {
    let config = StepConfig {
        step_diffuse: UNIT,
        bounce: BouncePolicy::WeightedBounce { brightness: precomputed_lights().to_vec() },
    };
    let mut weighted =
        DoubleBufferedGrid::new(5, 5, precomputed_slope_gathers(9), config).unwrap();
    let mut uniform = calibrated_grid(5, 5);
    for grid in [&mut weighted, &mut uniform] {
        grid.set_emission(1, 2, Some(vec![100_000; 36])).unwrap();
        grid.set_wall(3, 2, WallKind::Diffuse, None).unwrap();
        grid.step();
        grid.step();
    }
    let w = radiance(&weighted, 2, 2);
    let u = radiance(&uniform, 2, 2);
    // Face PlusX holds what was gathered; the wall returns nothing into it.
    assert_eq!(&w[0..9], &u[0..9]);
    // In the face that looks away from the wall the middle bin is the brightest.
    assert!(w[18 + 4] > u[18 + 4]);
    assert!(w[18 + 3] < u[18 + 3]);
    // The norm of the uniform policy: the cosines of all bins that look away from the wall.
    let cos_sum: u64 = 2 * (766_044 + 866_025 + 925_264 + 977_076) + 1_000_000;
    let sin_sum: u64 = 642_788 + 500_000 + 379_324 + 212_891;
    assert_eq!(uniform.stepper.norms, [cos_sum + 2 * sin_sum; 4]);
}

#[test]
fn kept_share_scales_what_was_gathered() {
    let config = StepConfig { step_diffuse: 500_000, bounce: BouncePolicy::UniformBounce };
    let mut grid = straight_grid(6, 5, config);
    grid.set_emission(1, 2, Some(vec![1000, 0, 0, 0])).unwrap();
    grid.set_wall(4, 2, WallKind::Diffuse, Some(900_000)).unwrap();
    grid.step();
    grid.step();
    assert_eq!(radiance(&grid, 2, 2), vec![500, 0, 0, 0]);
    grid.step();
    // Half of what arrives is kept; what comes back from the wall is not halved again.
    assert_eq!(radiance(&grid, 3, 2), vec![250, 0, 450, 0]);
}

#[test]
fn flux_saturates() {
    let mut grid = straight_grid(5, 5, plain());
    grid.set_emission(1, 2, Some(vec![FLUX_MAX, 0, 0, 0])).unwrap();
    grid.set_wall(3, 2, WallKind::Diffuse, Some(2_000_000)).unwrap();
    grid.set_wall(2, 1, WallKind::Diffuse, Some(2_000_000)).unwrap();
    grid.step();
    grid.step();
    let r = radiance(&grid, 2, 2);
    assert_eq!(r[0], FLUX_MAX);
    assert_eq!(r[2], FLUX_MAX);
}

#[test]
fn edits_outside_the_lattice_are_refused() {
    let mut grid = straight_grid(4, 3, plain());
    assert_eq!(grid.set_wall(4, 0, WallKind::Absorb, None), Err(GridError::OutOfRange));
    assert_eq!(grid.set_wall(0, 3, WallKind::Absorb, None), Err(GridError::OutOfRange));
    assert_eq!(grid.set_wall(9, 9, WallKind::Reflect, None), Err(GridError::OutOfRange));
    assert_eq!(grid.set_emission(4, 0, None), Err(GridError::OutOfRange));
    assert_eq!(grid.set_emission(0, 3, Some(vec![1, 2, 3, 4])), Err(GridError::OutOfRange));
    assert_eq!(grid.set_wall(3, 2, WallKind::Absorb, None), Ok(()));
    assert_eq!(grid.current().cell(3, 2).wall, WallKind::Absorb);
}

#[test]
fn mirrors_are_refused() {
    let mut grid = straight_grid(3, 3, plain());
    grid.set_wall(1, 1, WallKind::Blur, Some(5)).unwrap();
    assert_eq!(grid.set_wall(1, 1, WallKind::Reflect, None), Err(GridError::NotYetSpecified));
    assert_eq!(grid.current().cell(1, 1).wall, WallKind::Blur);
    assert_eq!(grid.current().cell(1, 1).wall_color, Some(5));
}

#[test]
fn emission_must_have_a_value_for_each_bin() {
    let mut grid = straight_grid(3, 3, plain());
    assert_eq!(grid.set_emission(1, 1, Some(vec![1, 2, 3])), Err(GridError::LengthMismatch));
    assert_eq!(grid.set_emission(1, 1, Some(vec![])), Err(GridError::LengthMismatch));
    assert_eq!(grid.current().cell(1, 1).emission, None);
    assert_eq!(grid.set_emission(1, 1, Some(vec![1, 2, 3, 4])), Ok(()));
    assert_eq!(grid.current().cell(1, 1).emission, Some(vec![1, 2, 3, 4]));
}

#[test]
fn walls_and_emitters_replace_each_other() {
    let mut grid = straight_grid(3, 3, plain());
    grid.set_wall(1, 1, WallKind::Diffuse, Some(900_000)).unwrap();
    grid.set_emission(1, 1, Some(vec![1, 2, 3, 4])).unwrap();
    assert_eq!(grid.current().cell(1, 1).wall, WallKind::Empty);
    assert_eq!(grid.current().cell(1, 1).wall_color, Some(900_000));
    grid.set_wall(1, 1, WallKind::Blur, None).unwrap();
    assert_eq!(grid.current().cell(1, 1).emission, None);
    assert_eq!(grid.current().cell(1, 1).wall, WallKind::Blur);
    // Clearing an emission leaves a wall alone.
    grid.set_emission(1, 1, None).unwrap();
    assert_eq!(grid.current().cell(1, 1).wall, WallKind::Blur);
    assert_eq!(grid.current().cell(1, 1).emission, None);
}

#[test]
fn edits_touch_one_cell_of_the_current_lattice() {
    let mut grid = straight_grid(4, 4, plain());
    grid.set_emission(1, 1, Some(vec![9, 9, 9, 9])).unwrap();
    grid.step();
    let other_before: Vec<Vec<u32>> =
        (0..4).map(|x| grid.a.cell(x, 1).radiance.clone()).collect();
    let current_is_a = grid.parity;
    grid.set_wall(2, 2, WallKind::Absorb, Some(7)).unwrap();
    assert_eq!(grid.parity, current_is_a);
    for y in 0..4 {
        for x in 0..4 {
            if (x, y) != (2, 2) {
                assert_eq!(grid.current().cell(x, y).wall, WallKind::Empty);
            }
        }
    }
    assert_eq!(radiance(&grid, 1, 1), vec![9, 9, 9, 9]);
    let other = if grid.parity { &grid.b } else { &grid.a };
    assert_eq!(other.cell(2, 2).wall, WallKind::Empty);
    let _ = other_before;
}

#[test]
fn steps_alternate_between_the_two_lattices() {
    let mut grid = straight_grid(5, 5, plain());
    grid.set_emission(1, 2, Some(vec![1000, 0, 0, 0])).unwrap();
    assert!(!grid.parity);
    grid.step();
    assert!(grid.parity);
    assert_eq!(grid.a.cell(1, 2).radiance, vec![1000, 0, 0, 0]);
    assert_eq!(grid.b.cell(1, 2).radiance, vec![0, 0, 0, 0]);
    grid.step();
    assert!(!grid.parity);
    assert_eq!(grid.b.cell(2, 2).radiance, vec![1000, 0, 0, 0]);
    assert_eq!(grid.a.cell(2, 2).radiance, vec![0, 0, 0, 0]);
    // Walls and emitters go along with every step.
    assert_eq!(grid.a.cell(1, 2).emission, Some(vec![1000, 0, 0, 0]));
    assert_eq!(grid.b.cell(1, 2).emission, Some(vec![1000, 0, 0, 0]));
}

#[test]
fn two_grids_with_the_same_state_stay_the_same() {
    let mut one = calibrated_grid(7, 6);
    let mut two = calibrated_grid(7, 6);
    // The second grid has stepped before and holds other things in its other lattice.
    two.set_emission(2, 2, Some(vec![77; 36])).unwrap();
    two.step();
    two.step();
    two.step();
    for grid in [&mut one, &mut two] {
        for y in 0..6 {
            for x in 0..7 {
                grid.set_wall(x, y, WallKind::Empty, None).unwrap();
            }
        }
    }
    // Bring the radiance of `two` to that of `one`: all dark.
    let table = precomputed_slope_gathers(9);
    let mut two = DoubleBufferedGrid {
        stepper: Stepper::new(table, plain()),
        a: Lattice::new(7, 6, 9).unwrap(),
        b: two.a,
        parity: true,
    };
    for grid in [&mut one, &mut two] {
        grid.set_emission(3, 3, Some((0..36).collect())).unwrap();
        grid.set_wall(4, 3, WallKind::Diffuse, Some(800_000)).unwrap();
        grid.set_wall(2, 2, WallKind::Blur, None).unwrap();
        grid.step();
        grid.step();
        grid.step();
    }
    for y in 0..6 {
        for x in 0..7 {
            assert_eq!(radiance(&one, x, y), radiance(&two, x, y));
        }
    }
}

#[test]
fn border_cells_keep_what_they_hold() {
    let mut grid = straight_grid(5, 5, plain());
    grid.set_emission(0, 2, Some(vec![300, 0, 0, 0])).unwrap();
    grid.step();
    assert_eq!(radiance(&grid, 0, 2), vec![300, 0, 0, 0]);
    grid.set_emission(0, 2, None).unwrap();
    grid.step();
    grid.step();
    // No longer an emitter, and never stepped: the border cell still holds its light,
    // and the interior reads it.
    assert_eq!(radiance(&grid, 0, 2), vec![300, 0, 0, 0]);
    assert_eq!(radiance(&grid, 1, 2), vec![300, 0, 0, 0]);
    assert_eq!(radiance(&grid, 2, 2), vec![300, 0, 0, 0]);
}

#[test]
fn total_flux_never_exceeds_what_was_put_in() {
    let mut grid = calibrated_grid(9, 9);
    grid.set_emission(4, 4, Some(vec![1000; 36])).unwrap();
    let mut before = total(&grid);
    assert_eq!(before, 0);
    for n in 1..=12u64 {
        grid.step();
        let now = total(&grid);
        assert!(now <= before + 36_000);
        assert!(now <= n * 36_000);
        before = now;
    }
    // Light has left through the border by now, so less is held than was put in.
    assert!(before < 12 * 36_000);
    assert!(before > 36_000);
}

#[test]
fn without_emitters_flux_only_shrinks() {
    let mut grid = calibrated_grid(8, 8);
    grid.set_emission(3, 3, Some(vec![123_457; 36])).unwrap();
    grid.set_wall(5, 5, WallKind::Blur, None).unwrap();
    grid.set_wall(2, 5, WallKind::Absorb, None).unwrap();
    grid.step();
    grid.set_emission(3, 3, None).unwrap();
    let mut before = total(&grid);
    assert_eq!(before, 36 * 123_457);
    for _ in 0..10 {
        grid.step();
        let now = total(&grid);
        assert!(now <= before);
        before = now;
    }
}

#[test]
fn stepper_pieces_agree_with_a_step() {
    let table = compute_slope_gathers_n(1, vec![Angle { cos: 1_000_000, sin: 0 }]).unwrap();
    let mut lattice = Lattice::new(3, 3, 1).unwrap();
    lattice.cells[1][0].radiance = vec![40, 1, 2, 3];
    lattice.cells[1][2].radiance = vec![4, 5, 60, 7];
    lattice.cells[0][1].radiance = vec![8, 9, 10, 70];
    lattice.cells[2][1].radiance = vec![11, 80, 12, 13];
    lattice.cells[1][2].wall = WallKind::Diffuse;
    lattice.cells[1][2].wall_color = Some(250_000);
    assert_eq!(gather_face(&lattice, &table, 1, 1, Face::PlusX), vec![40]);
    assert_eq!(gather_face(&lattice, &table, 1, 1, Face::MinusY), vec![80]);
    assert_eq!(gather_face(&lattice, &table, 1, 1, Face::MinusX), vec![0]);
    assert_eq!(gather_face(&lattice, &table, 1, 1, Face::PlusY), vec![70]);
    let lit = gather_light(&lattice, &table, 1, 1);
    assert_eq!(lit, vec![40, 80, 0, 70]);
    assert_eq!(sent_toward(&table, &lit, Face::PlusX), 40);
    assert_eq!(sent_toward(&table, &lit, Face::MinusY), 80);
    assert_eq!(sent_toward(&table, &lit, Face::MinusX), 0);
    assert_eq!(sent_toward(&table, &lit, Face::PlusY), 70);
    assert_eq!(returned_flux(&lattice, &table, &lit, 1, 1, Face::PlusX), 10);
    assert_eq!(returned_flux(&lattice, &table, &lit, 1, 1, Face::MinusY), 0);
    let stepper = Stepper::new(table, plain());
    assert_eq!(stepper.norms, [1_000_000; 4]);
    assert_eq!(stepper.step_cell(&lattice, 1, 1), vec![40, 80, 10, 70]);
    let next = stepper.advance(&lattice);
    assert_eq!(next.cells[1][1].radiance, vec![40, 80, 10, 70]);
    assert_eq!(next.cells[1][0].radiance, vec![40, 1, 2, 3]);
    assert_eq!(next.cells[1][2].wall, WallKind::Diffuse);
    assert_eq!(next.cells[1][2].wall_color, Some(250_000));
    assert_eq!(lattice.cells[1][1].radiance, vec![0, 0, 0, 0]);
}

#[test]
fn cosines_turn_with_the_faces() {
    let a = Angle { cos: 866_025, sin: 500_000 };
    assert_eq!(cosine_of(a, Face::MinusX, Face::PlusX), 866_025);
    assert_eq!(cosine_of(a, Face::PlusX, Face::PlusX), -866_025);
    assert_eq!(cosine_of(a, Face::MinusY, Face::PlusX), 500_000);
    assert_eq!(cosine_of(a, Face::PlusY, Face::PlusX), -500_000);
    assert_eq!(cosine_of(a, Face::PlusX, Face::MinusX), 866_025);
    assert_eq!(cosine_of(a, Face::PlusY, Face::MinusY), 866_025);
    assert_eq!(cosine_of(a, Face::PlusX, Face::MinusY), -500_000);
}

#[test]
fn helpers_compute_what_they_say() {
    assert_eq!(blur_mean(&vec![1, 2, 3, 5]), 2);
    assert_eq!(blur_mean(&vec![FLUX_MAX, FLUX_MAX]), FLUX_MAX);
    assert_eq!(share_flux(1, 10, 3), 3);
    assert_eq!(share_flux(0, 10, 0), 0);
    assert_eq!(share_flux(5, 10, 5), 10);
    assert_eq!(shifted(4, 1), 5);
    assert_eq!(shifted(4, -1), 3);
    assert_eq!(shifted(4, 0), 4);
    assert_eq!(base_of(Face::PlusX, 9), 0);
    assert_eq!(base_of(Face::MinusY, 9), 9);
    assert_eq!(base_of(Face::MinusX, 9), 18);
    assert_eq!(base_of(Face::PlusY, 9), 27);
    assert_eq!(dark(3), vec![0, 0, 0]);
    assert_eq!(copy_flux(&vec![3, 1, 2]), vec![3, 1, 2]);
    assert_eq!(even_light(7, 3), vec![7, 7, 7]);
}

#[test]
fn cells_are_drawn_by_their_flux_and_wall() {
    let mut grid = straight_grid(3, 3, plain());
    grid.set_emission(1, 1, Some(vec![1, 20, 300, 4000])).unwrap();
    grid.step();
    assert_eq!(shade_of(grid.current().cell(1, 1)), 4321);
    grid.set_wall(1, 1, WallKind::Diffuse, None).unwrap();
    assert_eq!(shade_of(grid.current().cell(1, 1)), 104_321);
    grid.set_wall(1, 1, WallKind::Absorb, None).unwrap();
    assert_eq!(shade_of(grid.current().cell(1, 1)), 200_000);
    grid.set_emission(1, 1, Some(vec![FLUX_MAX, 1, 0, 0])).unwrap();
    grid.step();
    assert_eq!(shade_of(grid.current().cell(1, 1)), FLUX_MAX);
}

#[test]
fn keys_drive_the_tool() {
    let mut tool = Editor::new();
    assert_eq!(tool.state, State::Normal);
    assert_eq!(tool.writer, Writer::Absorb);
    assert_eq!(tool.emission, FIRST_EMISSION);
    tool.press(Key::ArrowUp);
    assert_eq!(tool.emission, 300_000);
    tool.press(Key::D);
    assert_eq!(tool.writer, Writer::Diffuse);
    tool.press(Key::B);
    assert_eq!(tool.writer, Writer::Blur);
    tool.press(Key::E);
    assert_eq!(tool.writer, Writer::Empty);
    tool.press(Key::A);
    assert_eq!(tool.writer, Writer::Absorb);
    tool.press(Key::Escape);
    tool.press(Key::Other);
    assert_eq!(tool, Editor::new());
    tool.press(Key::L);
    assert_eq!(tool.state, State::UpdatingLight);
    tool.press(Key::D);
    assert_eq!(tool.writer, Writer::Absorb);
    tool.press(Key::ArrowUp);
    assert_eq!(tool.emission, 400_000);
    for _ in 0..5 {
        tool.press(Key::ArrowDown);
    }
    assert_eq!(tool.emission, 0);
    tool.emission = u32::MAX - 5;
    tool.press(Key::ArrowUp);
    assert_eq!(tool.emission, u32::MAX);
    tool.press(Key::Escape);
    assert_eq!(tool.state, State::Normal);
}

#[test]
fn pointer_asks_for_edits() {
    let mut tool = Editor::new();
    assert_eq!(tool.edit(false, false, 100, 100), Edit::Idle);
    assert_eq!(
        tool.edit(true, false, 100, 65),
        Edit::Paint { x: 3, y: 2, wall: WallKind::Absorb, color: 900_000 }
    );
    assert_eq!(tool.edit(true, true, 31, 32), Edit::Emit { x: 0, y: 1, level: 300_000 });
    tool.press(Key::E);
    assert_eq!(
        tool.edit(true, false, 0, 0),
        Edit::Paint { x: 0, y: 0, wall: WallKind::Empty, color: UNIT }
    );
}

#[test]
fn edits_are_applied_to_the_grid() {
    let mut grid = straight_grid(4, 4, plain());
    assert_eq!(apply_edit(&mut grid, Edit::Idle), Ok(()));
    assert_eq!(apply_edit(&mut grid, Edit::Emit { x: 1, y: 2, level: 55 }), Ok(()));
    assert_eq!(grid.current().cell(1, 2).emission, Some(vec![55; 4]));
    let paint = Edit::Paint { x: 2, y: 2, wall: WallKind::Blur, color: 900_000 };
    assert_eq!(apply_edit(&mut grid, paint), Ok(()));
    assert_eq!(grid.current().cell(2, 2).wall, WallKind::Blur);
    assert_eq!(grid.current().cell(2, 2).wall_color, Some(900_000));
    assert_eq!(
        apply_edit(&mut grid, Edit::Emit { x: 4, y: 0, level: 1 }),
        Err(GridError::OutOfRange)
    );
    let mirror = Edit::Paint { x: 1, y: 1, wall: WallKind::Reflect, color: 1 };
    assert_eq!(apply_edit(&mut grid, mirror), Err(GridError::NotYetSpecified));
    let outside = Edit::Paint { x: 1, y: 9, wall: WallKind::Reflect, color: 1 };
    assert_eq!(apply_edit(&mut grid, outside), Err(GridError::OutOfRange));
}
