//! What holds of every step: absorbing cells go dark, blurring cells even
//! out, walls return nothing where no bin takes part, and a cell's next state
//! depends on the cell and its four neighbours alone.

use vstd::prelude::*;
use crate::fixed::{clamp, lemma_quotient_at_most, lemma_scaled_bounds, scaled, FLUX_MAX};
use crate::light::GatherTable;
use crate::geometry::{face_normal, is_unit, rotated, Face};
use crate::grid::{advanced, next_cell};
use crate::lattice::LatticeView;
use crate::transport::{
    beside, blocks, bounce_share, delta, emit_weight, entry_flux, face_base, fitting, gathered,
    lemma_blocks, lemma_flux_sum_bounds, light_bins, light_of, mean, next_flux, next_flux_of, norm,
    norm_by, norm_upto, returned, settled, share, StepRule,
};
use crate::wall::WallKind;

verus! {

/// The face and the place within it of the bin `b` of a cell.
pub proof fn bin_place(b: int, directions: int) -> (r: (Face, int))
    requires
        0 <= b < 4 * directions,
    ensures
        0 <= r.1 < directions,
        face_base(r.0, directions) + r.1 == b,
{
    if b < directions {
        (Face::PlusX, b)
    } else if b < 2 * directions {
        (Face::MinusY, b - directions)
    } else if b < 3 * directions {
        (Face::MinusX, b - 2 * directions)
    } else {
        (Face::PlusY, b - 3 * directions)
    }
}

/// After a step, every bin of an absorbing cell of the interior holds exactly
/// nothing.
pub proof fn lemma_absorbing_cell_goes_dark(
    l: LatticeView,
    t: GatherTable,
    rule: StepRule,
    x: int,
    y: int,
)
    requires
        fitting(l, t),
        l.interior(x, y),
        l.cells[y][x].wall == WallKind::Absorb,
    ensures
        advanced(l, t, rule).cells[y][x].radiance.len() == 4 * l.directions,
        forall|b: int|
            0 <= b < 4 * l.directions ==> #[trigger] advanced(l, t, rule).cells[y][x].radiance[b]
                == 0,
{
    let n = l.directions;
    let value = next_flux_of(l, t, rule, x, y);
    assert(l.cells[y][x].wf(n));
    assert(advanced(l, t, rule).cells[y][x] == next_cell(l, t, rule, x, y));
    lemma_blocks(value, n);
    assert forall|b: int| 0 <= b < 4 * n implies #[trigger] advanced(
        l,
        t,
        rule,
    ).cells[y][x].radiance[b] == 0 by {
        let (face, d) = bin_place(b, n);
        assert(blocks(value, n, 4)[face_base(face, n) + d] == value(face, d) as u32);
    }
}

/// After a step, a blurring cell of the interior that no wall returns flux
/// to holds the same in every bin: the kept share of the mean of what it
/// gathered.
pub proof fn lemma_blurring_cell_evens_out(
    l: LatticeView,
    t: GatherTable,
    rule: StepRule,
    x: int,
    y: int,
)
    requires
        fitting(l, t),
        rule.wf(t.directions()),
        l.interior(x, y),
        l.cells[y][x].wall == WallKind::Blur,
        forall|toward: Face| !(#[trigger] beside(l, x, y, toward)).wall.reemits(),
    ensures
        advanced(l, t, rule).cells[y][x].radiance.len() == 4 * l.directions,
        forall|b: int|
            0 <= b < 4 * l.directions ==> #[trigger] advanced(l, t, rule).cells[y][x].radiance[b]
                == scaled(rule.step_diffuse, mean(light_bins(l, t, x, y))),
{
    let n = l.directions;
    let value = next_flux_of(l, t, rule, x, y);
    let lit = light_bins(l, t, x, y);
    let even = scaled(rule.step_diffuse, mean(lit));
    assert(l.cells[y][x].wf(n));
    assert(advanced(l, t, rule).cells[y][x] == next_cell(l, t, rule, x, y));
    lemma_blocks(value, n);
    lemma_blocks(light_of(l, t, x, y), n);
    lemma_flux_sum_bounds(lit, lit.len() as int);
    lemma_quotient_at_most(flux_sum_of(lit), lit.len() as int, FLUX_MAX as int);
    lemma_scaled_bounds(rule.step_diffuse, mean(lit));
    assert(!beside(l, x, y, Face::PlusX).wall.reemits());
    assert(!beside(l, x, y, Face::MinusY).wall.reemits());
    assert(!beside(l, x, y, Face::MinusX).wall.reemits());
    assert(!beside(l, x, y, Face::PlusY).wall.reemits());
    assert forall|b: int| 0 <= b < 4 * n implies #[trigger] advanced(
        l,
        t,
        rule,
    ).cells[y][x].radiance[b] == even by {
        let (face, d) = bin_place(b, n);
        assert(blocks(value, n, 4)[face_base(face, n) + d] == value(face, d) as u32);
        lemma_nothing_returned_nothing_shared(l, t, rule, lit, x, y, face, d);
        assert(settled(l, lit, x, y, face, d) == mean(lit));
        assert(next_flux(l, t, rule, x, y, face, d) == clamp(even + 0));
    }
}

/// All values of a vector of flux, added up.
pub open spec fn flux_sum_of(v: Seq<u32>) -> int {
    crate::transport::flux_sum(v, v.len() as int)
}

/// A cell that no wall returns flux to gets nothing back in any bin.
pub proof fn lemma_nothing_returned_nothing_shared(
    l: LatticeView,
    t: GatherTable,
    rule: StepRule,
    lit: Seq<u32>,
    x: int,
    y: int,
    face: Face,
    d: int,
)
    requires
        forall|toward: Face| #[trigger] returned(l, t, lit, x, y, toward) == 0,
    ensures
        delta(l, t, rule, lit, x, y, face, d) == 0,
{
    assert(returned(l, t, lit, x, y, Face::PlusX) == 0);
    assert(returned(l, t, lit, x, y, Face::MinusY) == 0);
    assert(returned(l, t, lit, x, y, Face::MinusX) == 0);
    assert(returned(l, t, lit, x, y, Face::PlusY) == 0);
    lemma_share_of_nothing(
        emit_weight(t, rule, Face::PlusX, face, d),
        norm(t, rule, Face::PlusX),
    );
    lemma_share_of_nothing(
        emit_weight(t, rule, Face::MinusY, face, d),
        norm(t, rule, Face::MinusY),
    );
    lemma_share_of_nothing(
        emit_weight(t, rule, Face::MinusX, face, d),
        norm(t, rule, Face::MinusX),
    );
    lemma_share_of_nothing(
        emit_weight(t, rule, Face::PlusY, face, d),
        norm(t, rule, Face::PlusY),
    );
}

/// Every share of nothing is nothing.
pub proof fn lemma_share_of_nothing(weight: int, sum: int)
    ensures
        share(weight, 0, sum) == 0,
{
    assert(weight * 0 == 0) by (nonlinear_arith);
}

/// Where no bin takes part in what the wall across `toward` returns, as
/// where no bin has a positive cosine to that wall's normal, the weights add
/// up to nothing and no bin gets anything back from that wall, whatever the
/// wall returns.
pub proof fn lemma_no_weight_no_bounce(
    l: LatticeView,
    t: GatherTable,
    rule: StepRule,
    lit: Seq<u32>,
    x: int,
    y: int,
    toward: Face,
)
    requires
        forall|face: Face, d: int|
            0 <= d < t.directions() ==> #[trigger] emit_weight(t, rule, toward, face, d) == 0,
    ensures
        norm(t, rule, toward) == 0,
        forall|face: Face, d: int| #[trigger]
            bounce_share(l, t, rule, lit, x, y, toward, face, d) == 0,
{
    let n = t.directions();
    lemma_no_weight_by(t, rule, toward, Face::PlusX, n);
    lemma_no_weight_by(t, rule, toward, Face::MinusY, n);
    lemma_no_weight_by(t, rule, toward, Face::MinusX, n);
    lemma_no_weight_by(t, rule, toward, Face::PlusY, n);
    assert(norm_upto(t, rule, toward, 0) == 0);
    assert(norm_upto(t, rule, toward, 1) == 0);
    assert(norm_upto(t, rule, toward, 2) == 0);
    assert(norm_upto(t, rule, toward, 3) == 0);
    assert(norm_upto(t, rule, toward, 4) == 0);
}

/// Weights that are all nothing add up to nothing.
pub proof fn lemma_no_weight_by(t: GatherTable, rule: StepRule, toward: Face, face: Face, n: int)
    requires
        n <= t.directions(),
        forall|d: int|
            0 <= d < t.directions() ==> #[trigger] emit_weight(t, rule, toward, face, d) == 0,
    ensures
        norm_by(t, rule, toward, face, n) == 0,
    decreases n,
{
    if n > 0 {
        lemma_no_weight_by(t, rule, toward, face, n - 1);
    }
}

/// A bin whose cosine to a wall's normal is not positive takes no part in
/// what that wall returns.
pub proof fn lemma_turned_away_no_weight(
    t: GatherTable,
    rule: StepRule,
    toward: Face,
    face: Face,
    d: int,
)
    requires
        crate::transport::cosine(t.angles[d], face, toward) <= 0,
    ensures
        emit_weight(t, rule, toward, face, d) == 0,
{
}

/// Values that agree on every bin give the same blocks.
pub proof fn lemma_blocks_agree(
    first: spec_fn(Face, int) -> int,
    second: spec_fn(Face, int) -> int,
    directions: int,
    faces: int,
)
    requires
        0 <= directions,
        forall|face: Face, d: int|
            0 <= d < directions ==> #[trigger] first(face, d) == second(face, d),
    ensures
        blocks(first, directions, faces) == blocks(second, directions, faces),
    decreases faces,
{
    if faces > 0 {
        lemma_blocks_agree(first, second, directions, faces - 1);
        let face = Face::spec_from_index(faces - 1);
        let one = Seq::new(directions as nat, |d: int| first(face, d) as u32);
        let other = Seq::new(directions as nat, |d: int| second(face, d) as u32);
        assert forall|d: int| 0 <= d < one.len() implies one[d] == other[d] by {
            assert(first(face, d) == second(face, d));
        }
        assert(one =~= other);
    }
}

/// Whether two lattices of one size hold the same cell at `(x, y)` and, where
/// that cell lies in the interior, the same four cells around it.
pub open spec fn same_surroundings(
    first: LatticeView,
    second: LatticeView,
    x: int,
    y: int,
) -> bool {
    &&& first.width == second.width
    &&& first.height == second.height
    &&& first.directions == second.directions
    &&& first.cells[y][x] == second.cells[y][x]
    &&& first.interior(x, y) ==> {
        &&& first.cells[y][x + 1] == second.cells[y][x + 1]
        &&& first.cells[y][x - 1] == second.cells[y][x - 1]
        &&& first.cells[y + 1][x] == second.cells[y + 1][x]
        &&& first.cells[y - 1][x] == second.cells[y - 1][x]
    }
}

/// What a cell gathers depends on the cell and the four cells around it
/// alone.
pub proof fn lemma_gathered_is_local(
    first: LatticeView,
    second: LatticeView,
    t: GatherTable,
    x: int,
    y: int,
    face: Face,
    dest: int,
    n: int,
)
    requires
        fitting(first, t),
        fitting(second, t),
        first.interior(x, y),
        same_surroundings(first, second, x, y),
        0 <= n <= t.entries.len(),
    ensures
        gathered(first, t, x, y, face, dest, n) == gathered(second, t, x, y, face, dest, n),
    decreases n,
{
    if n > 0 {
        lemma_gathered_is_local(first, second, t, x, y, face, dest, n - 1);
        let e = t.entries[n - 1];
        assert(is_unit(e.offset));
        let step = rotated(face, e.offset);
        assert(is_unit(step));
        assert(first.cells[y + step.y][x + step.x] == second.cells[y + step.y][x + step.x]);
        assert(entry_flux(first, t, x, y, face, n - 1) == entry_flux(second, t, x, y, face, n - 1));
    }
}

/// The state of a cell after a step is a function of the cell and the four
/// cells around it before the step, of the gather table and of the settings:
/// it depends on no other cell, on no other buffer, and on no order in which
/// cells are worked on.
pub proof fn lemma_step_is_local(
    first: LatticeView,
    second: LatticeView,
    t: GatherTable,
    rule: StepRule,
    x: int,
    y: int,
)
    requires
        fitting(first, t),
        fitting(second, t),
        first.contains(x, y),
        same_surroundings(first, second, x, y),
    ensures
        advanced(first, t, rule).cells[y][x] == advanced(second, t, rule).cells[y][x],
{
    let n = t.directions();
    assert(advanced(first, t, rule).cells[y][x] == next_cell(first, t, rule, x, y));
    assert(advanced(second, t, rule).cells[y][x] == next_cell(second, t, rule, x, y));
    if first.interior(x, y) {
        let lit1 = light_bins(first, t, x, y);
        let lit2 = light_bins(second, t, x, y);
        assert forall|face: Face, d: int| 0 <= d < n implies #[trigger] light_of(first, t, x, y)(
            face,
            d,
        ) == light_of(second, t, x, y)(face, d) by {
            lemma_gathered_is_local(first, second, t, x, y, face, d, t.entries.len() as int);
        }
        lemma_blocks_agree(light_of(first, t, x, y), light_of(second, t, x, y), n, 4);
        assert(lit1 == lit2);
        assert forall|toward: Face| #[trigger]
            beside(first, x, y, toward) == beside(second, x, y, toward) by {
            assert(is_unit(face_normal(toward)));
        }
        assert(beside(first, x, y, Face::PlusX) == beside(second, x, y, Face::PlusX));
        assert(beside(first, x, y, Face::MinusY) == beside(second, x, y, Face::MinusY));
        assert(beside(first, x, y, Face::MinusX) == beside(second, x, y, Face::MinusX));
        assert(beside(first, x, y, Face::PlusY) == beside(second, x, y, Face::PlusY));
        assert forall|face: Face, d: int| 0 <= d < n implies #[trigger] next_flux_of(
            first,
            t,
            rule,
            x,
            y,
        )(face, d) == next_flux_of(second, t, rule, x, y)(face, d) by {
            assert(returned(first, t, lit1, x, y, Face::PlusX) == returned(
                second,
                t,
                lit2,
                x,
                y,
                Face::PlusX,
            ));
            assert(returned(first, t, lit1, x, y, Face::MinusY) == returned(
                second,
                t,
                lit2,
                x,
                y,
                Face::MinusY,
            ));
            assert(returned(first, t, lit1, x, y, Face::MinusX) == returned(
                second,
                t,
                lit2,
                x,
                y,
                Face::MinusX,
            ));
            assert(returned(first, t, lit1, x, y, Face::PlusY) == returned(
                second,
                t,
                lit2,
                x,
                y,
                Face::PlusY,
            ));
            assert(delta(first, t, rule, lit1, x, y, face, d) == delta(
                second,
                t,
                rule,
                lit2,
                x,
                y,
                face,
                d,
            ));
            assert(settled(first, lit1, x, y, face, d) == settled(second, lit2, x, y, face, d));
        }
        lemma_blocks_agree(
            next_flux_of(first, t, rule, x, y),
            next_flux_of(second, t, rule, x, y),
            n,
            4,
        );
    }
}

/// Two lattices that hold the same give the same lattice after a step, and
/// that lattice can be stepped again.
pub proof fn lemma_step_is_deterministic(
    first: LatticeView,
    second: LatticeView,
    t: GatherTable,
    rule: StepRule,
)
    requires
        fitting(first, t),
        first == second,
    ensures
        advanced(first, t, rule) == advanced(second, t, rule),
        fitting(advanced(first, t, rule), t),
        advanced(advanced(first, t, rule), t, rule) == advanced(advanced(second, t, rule), t, rule),
{
    crate::grid::lemma_advanced_wf(first, t, rule);
}

} // verus!
