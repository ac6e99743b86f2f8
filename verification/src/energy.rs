//! Flux is never made by transport: where no wall sends light back, a step
//! leaves in the lattice no more flux than it held, beyond what emitters put
//! out and the border holds.

use vstd::prelude::*;
use crate::fixed::{
    lemma_quotient_at_most, lemma_scaled_bounds, lemma_scaled_nonnegative, scaled, FLUX_MAX, UNIT,
};
use crate::light::{weight_from, GatherTable};
use crate::geometry::{face_normal, is_unit, rotated, Face};
use crate::lattice::{CellView, LatticeView};
use crate::sums::{
    at_cell, grid_sum, grid_sums, inner, lemma_grid_eq, lemma_grid_family, lemma_grid_le,
    lemma_grid_split, lemma_grid_window, lemma_sum_at_most, lemma_sum_bump, lemma_sum_eq,
    lemma_sum_grows, lemma_sum_le, lemma_sum_single, lemma_sum_split, lemma_sum_zero, pooled, sum,
    within,
};
use crate::grid::{advanced, lemma_advanced_wf, next_cell};
use crate::laws::lemma_nothing_returned_nothing_shared;
use crate::transport::{
    entry_flux, face_base, fitting, flux_sum, gathered, lemma_blocks, lemma_flux_sum_bounds,
    lemma_gathered_nonnegative, light, light_bins, light_of, mean, next_flux, next_flux_of,
    next_radiance, returned, settled, StepRule,
};
use crate::wall::WallKind;

verus! {

/// The values of the `n` bins of a vector of flux that start at `base`.
pub open spec fn block_values(v: Seq<u32>, base: int) -> spec_fn(int) -> int {
    |s: int| v[base + s] as int
}

/// A sum of flux is the sum of its start and of the rest.
pub proof fn lemma_flux_sum_append(v: Seq<u32>, base: int, n: int)
    requires
        0 <= base,
        0 <= n,
    ensures
        flux_sum(v, base + n) == flux_sum(v, base) + sum(block_values(v, base), n),
    decreases n,
{
    if n > 0 {
        lemma_flux_sum_append(v, base, n - 1);
    }
}

/// The flux that a vector of bins holds in one face.
pub open spec fn face_flux(v: Seq<u32>, face: Face, directions: int) -> int {
    sum(block_values(v, face_base(face, directions)), directions)
}

/// The flux that a vector of bins holds in the first `faces` faces.
pub open spec fn faces_flux(v: Seq<u32>, directions: int, faces: int) -> int
    decreases faces,
{
    if faces <= 0 {
        0
    } else {
        faces_flux(v, directions, faces - 1) + face_flux(
            v,
            Face::spec_from_index(faces - 1),
            directions,
        )
    }
}

/// The flux of a cell is the flux of its four faces.
pub proof fn lemma_flux_by_faces(v: Seq<u32>, directions: int)
    requires
        0 <= directions,
    ensures
        flux_sum(v, 4 * directions) == faces_flux(v, directions, 4),
{
    let n = directions;
    lemma_flux_sum_append(v, 0, n);
    lemma_flux_sum_append(v, n, n);
    lemma_flux_sum_append(v, 2 * n, n);
    lemma_flux_sum_append(v, 3 * n, n);
    assert(flux_sum(v, 0) == 0);
    assert(faces_flux(v, n, 0) == 0);
    assert(faces_flux(v, n, 1) == faces_flux(v, n, 0) + face_flux(v, Face::PlusX, n));
    assert(faces_flux(v, n, 2) == faces_flux(v, n, 1) + face_flux(v, Face::MinusY, n));
    assert(faces_flux(v, n, 3) == faces_flux(v, n, 2) + face_flux(v, Face::MinusX, n));
    assert(faces_flux(v, n, 4) == faces_flux(v, n, 3) + face_flux(v, Face::PlusY, n));
}

/// What each entry of the table hands on of the bins of `v` that start at
/// `base`.
pub open spec fn handed(t: GatherTable, v: Seq<u32>, base: int) -> spec_fn(int) -> int {
    |i: int| scaled(t.entries[i].weight, v[base + t.entries[i].source] as int)
}

/// For each bin, what the first `n` entries could hand on of it at most: the
/// share that their weights add up to.
pub open spec fn pooled_by_source(t: GatherTable, v: Seq<u32>, base: int, n: int) -> spec_fn(
    int,
) -> int {
    |s: int| scaled(weight_from(t.entries, s, n), v[base + s] as int)
}

/// Two shares of a value are at most the share of the two weights together.
pub proof fn lemma_scaled_superadditive(a: int, b: int, value: int)
    requires
        0 <= a,
        0 <= b,
        0 <= value,
    ensures
        scaled(a, value) + scaled(b, value) <= scaled(a + b, value),
{
    let p = a * value;
    let q = b * value;
    assert((a + b) * value == p + q) by (nonlinear_arith)
        requires
            p == a * value,
            q == b * value,
    ;
    assert(0 <= p && 0 <= q) by (nonlinear_arith)
        requires
            0 <= a,
            0 <= b,
            0 <= value,
            p == a * value,
            q == b * value,
    ;
    assert(p / 1_000_000 + q / 1_000_000 <= (p + q) / 1_000_000);
}

/// The weights that read a bin add up to no less than nothing.
pub proof fn lemma_weight_from_nonnegative(t: GatherTable, source: int, n: int)
    requires
        t.wf(),
        0 <= n <= t.entries.len(),
    ensures
        0 <= weight_from(t.entries, source, n),
    decreases n,
{
    if n > 0 {
        lemma_weight_from_nonnegative(t, source, n - 1);
        assert(0 <= t.entries[n - 1].weight);
    }
}

/// What the first `n` entries hand on is at most what the weights that read
/// each bin add up to, of that bin.
pub proof fn lemma_handed_prefix(t: GatherTable, v: Seq<u32>, base: int, n: int)
    requires
        t.wf(),
        0 <= base,
        base + t.directions() <= v.len(),
        0 <= n <= t.entries.len(),
    ensures
        sum(handed(t, v, base), n) <= sum(pooled_by_source(t, v, base, n), t.directions()),
    decreases n,
{
    let count = t.directions();
    if n > 0 {
        lemma_handed_prefix(t, v, base, n - 1);
        let e = t.entries[n - 1];
        let before = pooled_by_source(t, v, base, n - 1);
        let after = pooled_by_source(t, v, base, n);
        assert(0 <= e.source < count && 0 <= e.weight);
        lemma_weight_from_nonnegative(t, e.source, n - 1);
        lemma_scaled_superadditive(
            weight_from(t.entries, e.source, n - 1),
            e.weight,
            v[base + e.source] as int,
        );
        assert(before(e.source) + handed(t, v, base)(n - 1) <= after(e.source));
        assert forall|s: int| 0 <= s < count && s != e.source implies #[trigger] before(s)
            <= after(s) by {
            assert(weight_from(t.entries, s, n) == weight_from(t.entries, s, n - 1));
        }
        lemma_sum_bump(before, after, count, e.source, handed(t, v, base)(n - 1));
    } else {
        let none = pooled_by_source(t, v, base, 0);
        assert forall|s: int| 0 <= s < count implies 0 <= #[trigger] none(s) by {
            lemma_scaled_nonnegative(0, v[base + s] as int);
        }
        lemma_sum_grows(none, 0, count);
    }
}

/// Where the weights that read each bin add up to at most one whole, the
/// entries of the table hand on no more of a face than the face holds.
pub proof fn lemma_handed_on_bounded(t: GatherTable, v: Seq<u32>, base: int)
    requires
        t.wf(),
        t.conserving(),
        0 <= base,
        base + t.directions() <= v.len(),
    ensures
        sum(handed(t, v, base), t.entries.len() as int) <= sum(
            block_values(v, base),
            t.directions(),
        ),
{
    let n = t.entries.len() as int;
    let count = t.directions();
    lemma_handed_prefix(t, v, base, n);
    assert forall|s: int| 0 <= s < count implies #[trigger] pooled_by_source(t, v, base, n)(s)
        <= block_values(v, base)(s) by {
        lemma_weight_from_nonnegative(t, s, n);
        assert(weight_from(t.entries, s, n) <= UNIT);
        lemma_scaled_bounds(weight_from(t.entries, s, n), v[base + s] as int);
    }
    lemma_sum_le(pooled_by_source(t, v, base, n), block_values(v, base), count);
}

/// For each bin of a face of the cell `(x, y)`, what the first `n` entries
/// bring to it.
pub open spec fn gathered_at(
    l: LatticeView,
    t: GatherTable,
    x: int,
    y: int,
    face: Face,
    n: int,
) -> spec_fn(int) -> int {
    |d: int| gathered(l, t, x, y, face, d, n)
}

/// For each entry, what it brings to a face of the cell `(x, y)`.
pub open spec fn entry_fluxes(
    l: LatticeView,
    t: GatherTable,
    x: int,
    y: int,
    face: Face,
) -> spec_fn(int) -> int {
    |i: int| entry_flux(l, t, x, y, face, i)
}

/// For each bin of a face of the cell `(x, y)`, what entry `i` brings to it:
/// something to the bin that the entry feeds, nothing to the others.
pub open spec fn picked(
    l: LatticeView,
    t: GatherTable,
    x: int,
    y: int,
    face: Face,
    i: int,
) -> spec_fn(int) -> int {
    |d: int|
        if t.entries[i].dest == d {
            entry_flux(l, t, x, y, face, i)
        } else {
            0
        }
}

/// What the bins of a face gather together is what the entries bring
/// together.
pub proof fn lemma_gathered_regroup(
    l: LatticeView,
    t: GatherTable,
    x: int,
    y: int,
    face: Face,
    n: int,
)
    requires
        t.wf(),
        0 <= n <= t.entries.len(),
    ensures
        sum(gathered_at(l, t, x, y, face, n), t.directions()) == sum(
            entry_fluxes(l, t, x, y, face),
            n,
        ),
    decreases n,
{
    let count = t.directions();
    if n > 0 {
        lemma_gathered_regroup(l, t, x, y, face, n - 1);
        let now = gathered_at(l, t, x, y, face, n);
        let before = gathered_at(l, t, x, y, face, n - 1);
        let one = picked(l, t, x, y, face, n - 1);
        assert forall|d: int| 0 <= d < count implies #[trigger] now(d) == before(d) + one(d) by {}
        lemma_sum_split(now, before, one, count);
        assert(0 <= t.entries[n - 1].dest < count);
        lemma_sum_single(one, count, t.entries[n - 1].dest);
    } else {
        lemma_sum_zero(gathered_at(l, t, x, y, face, 0), count);
    }
}

/// For each cell, what entry `i` hands on of the cell's face `face`.
pub open spec fn source_flux(l: LatticeView, t: GatherTable, face: Face, i: int) -> spec_fn(
    int,
    int,
) -> int {
    |x: int, y: int| handed(t, l.cells[y][x].radiance, face_base(face, t.directions()))(i)
}

/// For each cell, what entry `i` brings to the cell's face `face` in a step:
/// nothing to the cells of the border, which no step updates.
pub open spec fn moved_flux(l: LatticeView, t: GatherTable, face: Face, i: int) -> spec_fn(
    int,
    int,
) -> int {
    |x: int, y: int|
        if l.interior(x, y) {
            entry_flux(l, t, x, y, face, i)
        } else {
            0
        }
}

/// `source_flux` for each entry.
pub open spec fn source_family(
    l: LatticeView,
    t: GatherTable,
    face: Face,
) -> spec_fn(int) -> spec_fn(int, int) -> int {
    |i: int| source_flux(l, t, face, i)
}

/// `moved_flux` for each entry.
pub open spec fn moved_family(
    l: LatticeView,
    t: GatherTable,
    face: Face,
) -> spec_fn(int) -> spec_fn(int, int) -> int {
    |i: int| moved_flux(l, t, face, i)
}

/// What the cell `(x, y)` gathers in all bins of a face, before any
/// saturation: nothing in the border.
pub open spec fn face_gain(l: LatticeView, t: GatherTable, x: int, y: int, face: Face) -> int {
    if l.interior(x, y) {
        sum(gathered_at(l, t, x, y, face, t.entries.len() as int), t.directions())
    } else {
        0
    }
}

/// For each cell, what it gathers in a face.
pub open spec fn face_taken(
    l: LatticeView,
    t: GatherTable,
    face: Face) -> spec_fn(int, int,
) -> int {
    |x: int, y: int| face_gain(l, t, x, y, face)
}

/// For each cell, what it holds in a face.
pub open spec fn face_held(l: LatticeView, face: Face) -> spec_fn(int, int) -> int {
    |x: int, y: int| face_flux(l.cells[y][x].radiance, face, l.directions)
}

/// What one entry brings to all cells is no more than what it hands on of
/// all cells: every cell reads one neighbour through it, and no two cells the
/// same.
pub proof fn lemma_entry_moves_no_more(l: LatticeView, t: GatherTable, face: Face, i: int)
    requires
        fitting(l, t),
        0 <= i < t.entries.len(),
    ensures
        grid_sum(moved_flux(l, t, face, i), l.width, l.height) <= grid_sum(
            source_flux(l, t, face, i),
            l.width,
            l.height,
        ),
{
    let e = t.entries[i];
    assert(is_unit(e.offset));
    let step = rotated(face, e.offset);
    let moved = moved_flux(l, t, face, i);
    let whole = source_flux(l, t, face, i);
    let base = face_base(face, t.directions());
    assert forall|x: int, y: int| within(x, y, l.width, l.height) implies 0 <= #[trigger] whole(
        x,
        y,
    ) by {
        lemma_scaled_nonnegative(e.weight, l.cells[y][x].radiance[base + e.source] as int);
    }
    assert forall|x: int, y: int|
        within(x, y, l.width, l.height) && !(inner(x, l.width) && inner(
            y,
            l.height,
        )) implies #[trigger] moved(x, y) == 0 by {
        assert(!l.interior(x, y));
    }
    assert forall|x: int, y: int| inner(x, l.width) && inner(y, l.height) implies #[trigger] moved(
        x,
        y,
    ) <= whole(x + step.x, y + step.y) by {
        assert(l.interior(x, y));
        lemma_scaled_nonnegative(
            e.weight,
            l.cells[y + step.y][x + step.x].radiance[base + e.source] as int,
        );
    }
    lemma_grid_window(moved, whole, l.width, l.height, step.x as int, step.y as int);
}

/// Over the whole lattice, the cells gather in a face no more than the cells
/// hold in that face, where the weights that read each bin add up to at most
/// one whole.
pub proof fn lemma_face_takes_no_more(l: LatticeView, t: GatherTable, face: Face)
    requires
        fitting(l, t),
        t.conserving(),
    ensures
        grid_sum(face_taken(l, t, face), l.width, l.height) <= grid_sum(
            face_held(l, face),
            l.width,
            l.height,
        ),
{
    let n = t.entries.len() as int;
    let count = t.directions();
    let base = face_base(face, count);
    let moved = moved_family(l, t, face);
    let source = source_family(l, t, face);
    // What a cell gathers is what the entries bring to it.
    assert forall|x: int, y: int| within(x, y, l.width, l.height) implies #[trigger] face_taken(
        l,
        t,
        face,
    )(x, y) == pooled(moved, n)(x, y) by {
        if l.interior(x, y) {
            lemma_gathered_regroup(l, t, x, y, face, n);
            assert forall|i: int| 0 <= i < n implies #[trigger] entry_fluxes(l, t, x, y, face)(i)
                == at_cell(moved, x, y)(i) by {
                assert(moved(i)(x, y) == entry_flux(l, t, x, y, face, i));
            }
            lemma_sum_eq(entry_fluxes(l, t, x, y, face), at_cell(moved, x, y), n);
        } else {
            assert forall|i: int| 0 <= i < n implies #[trigger] at_cell(moved, x, y)(i) == 0 by {
                assert(moved(i)(x, y) == 0);
            }
            lemma_sum_zero(at_cell(moved, x, y), n);
        }
    }
    lemma_grid_eq(face_taken(l, t, face), pooled(moved, n), l.width, l.height);
    lemma_grid_family(moved, l.width, l.height, n);
    // Entry by entry, what is brought is no more than what is handed on.
    assert forall|i: int| 0 <= i < n implies #[trigger] grid_sums(moved, l.width, l.height)(i)
        <= grid_sums(source, l.width, l.height)(i) by {
        lemma_entry_moves_no_more(l, t, face, i);
        assert(moved(i) == moved_flux(l, t, face, i));
        assert(source(i) == source_flux(l, t, face, i));
    }
    lemma_sum_le(grid_sums(moved, l.width, l.height), grid_sums(source, l.width, l.height), n);
    lemma_grid_family(source, l.width, l.height, n);
    // Cell by cell, what is handed on is no more than what is held.
    assert forall|x: int, y: int| within(x, y, l.width, l.height) implies #[trigger] pooled(
        source,
        n,
    )(x, y) <= face_held(l, face)(x, y) by {
        let v = l.cells[y][x].radiance;
        assert(l.cells[y][x].wf(l.directions));
        assert forall|i: int| 0 <= i < n implies #[trigger] at_cell(source, x, y)(i) == handed(
            t,
            v,
            base,
        )(i) by {
            assert(source(i)(x, y) == handed(t, v, base)(i));
        }
        lemma_sum_eq(at_cell(source, x, y), handed(t, v, base), n);
        lemma_handed_on_bounded(t, v, base);
    }
    lemma_grid_le(pooled(source, n), face_held(l, face), l.width, l.height);
}

/// All the flux that a cell holds.
pub open spec fn cell_flux(c: CellView) -> int {
    flux_sum(c.radiance, c.radiance.len() as int)
}

/// For each cell, all the flux that it holds.
pub open spec fn held(l: LatticeView) -> spec_fn(int, int) -> int {
    |x: int, y: int| cell_flux(l.cells[y][x])
}

/// All the flux that a lattice holds.
pub open spec fn lattice_flux(l: LatticeView) -> int {
    grid_sum(held(l), l.width, l.height)
}

/// What the cell `(x, y)` holds after a step without having gathered it: an
/// emitter its emission, another cell of the border what it held before.
pub open spec fn gift(l: LatticeView, x: int, y: int) -> int {
    let c = l.cells[y][x];
    match c.emission {
        Some(e) => flux_sum(e, e.len() as int),
        None => if l.interior(x, y) {
            0
        } else {
            cell_flux(c)
        },
    }
}

/// `gift` for each cell.
pub open spec fn given(l: LatticeView) -> spec_fn(int, int) -> int {
    |x: int, y: int| gift(l, x, y)
}

/// What the cell `(x, y)` gathers in the first `faces` faces.
pub open spec fn gain_upto(l: LatticeView, t: GatherTable, x: int, y: int, faces: int) -> int
    decreases faces,
{
    if faces <= 0 {
        0
    } else {
        gain_upto(l, t, x, y, faces - 1) + face_gain(
            l,
            t,
            x,
            y,
            Face::spec_from_index(faces - 1),
        )
    }
}

/// `gain_upto` for each cell.
pub open spec fn taken_upto(
    l: LatticeView,
    t: GatherTable,
    faces: int) -> spec_fn(int, int,
) -> int {
    |x: int, y: int| gain_upto(l, t, x, y, faces)
}

/// For each cell, what it holds in the first `faces` faces.
pub open spec fn held_upto(l: LatticeView, faces: int) -> spec_fn(int, int) -> int {
    |x: int, y: int| faces_flux(l.cells[y][x].radiance, l.directions, faces)
}

/// For each cell, what it may hold after a step: what it is given and what it
/// gathers.
pub open spec fn allowed(l: LatticeView, t: GatherTable) -> spec_fn(int, int) -> int {
    |x: int, y: int| gift(l, x, y) + gain_upto(l, t, x, y, 4)
}

/// Whether no cell of the lattice is a wall that sends light back.
pub open spec fn calm(l: LatticeView) -> bool {
    forall|x: int, y: int| l.contains(x, y) ==> !(#[trigger] l.cells[y][x]).wall.reemits()
}

/// Over the whole lattice, the cells gather in the first `faces` faces no
/// more than the cells hold in them.
pub proof fn lemma_taken_no_more(l: LatticeView, t: GatherTable, faces: int)
    requires
        fitting(l, t),
        t.conserving(),
        0 <= faces <= 4,
    ensures
        grid_sum(taken_upto(l, t, faces), l.width, l.height) <= grid_sum(
            held_upto(l, faces),
            l.width,
            l.height,
        ),
    decreases faces,
{
    if faces > 0 {
        let face = Face::spec_from_index(faces - 1);
        lemma_taken_no_more(l, t, faces - 1);
        lemma_face_takes_no_more(l, t, face);
        assert forall|x: int, y: int| within(x, y, l.width, l.height) implies #[trigger] taken_upto(
            l,
            t,
            faces,
        )(x, y) == taken_upto(l, t, faces - 1)(x, y) + face_taken(l, t, face)(x, y) by {}
        lemma_grid_split(
            taken_upto(l, t, faces),
            taken_upto(l, t, faces - 1),
            face_taken(l, t, face),
            l.width,
            l.height,
        );
        assert forall|x: int, y: int| within(x, y, l.width, l.height) implies #[trigger] held_upto(
            l,
            faces,
        )(x, y) == held_upto(l, faces - 1)(x, y) + face_held(l, face)(x, y) by {}
        lemma_grid_split(
            held_upto(l, faces),
            held_upto(l, faces - 1),
            face_held(l, face),
            l.width,
            l.height,
        );
    } else {
        assert forall|x: int, y: int| within(x, y, l.width, l.height) implies #[trigger] taken_upto(
            l,
            t,
            faces,
        )(x, y) == held_upto(l, faces)(x, y) by {}
        lemma_grid_eq(taken_upto(l, t, faces), held_upto(l, faces), l.width, l.height);
    }
}

/// In a lattice where no wall sends light back, a bin of an interior cell
/// holds after a step no more than it gathered, or, in a blurring cell, no
/// more than the mean of what the cell gathered.
pub proof fn lemma_next_flux_bound(
    l: LatticeView,
    t: GatherTable,
    rule: StepRule,
    x: int,
    y: int,
    face: Face,
    d: int,
)
    requires
        fitting(l, t),
        rule.wf(t.directions()),
        calm(l),
        l.interior(x, y),
        0 <= d < t.directions(),
    ensures
        0 <= next_flux(l, t, rule, x, y, face, d) <= FLUX_MAX,
        0 <= light(l, t, x, y, face, d) <= gathered(
            l,
            t,
            x,
            y,
            face,
            d,
            t.entries.len() as int,
        ),
        light_bins(l, t, x, y)[face_base(face, t.directions()) + d] == light(
            l,
            t,
            x,
            y,
            face,
            d,
        ),
        0 <= mean(light_bins(l, t, x, y)),
        l.cells[y][x].wall == WallKind::Blur ==> next_flux(l, t, rule, x, y, face, d) <= mean(
            light_bins(l, t, x, y),
        ),
        l.cells[y][x].wall != WallKind::Blur ==> next_flux(l, t, rule, x, y, face, d)
            <= gathered(l, t, x, y, face, d, t.entries.len() as int),
{
    let count = t.directions();
    let lit = light_bins(l, t, x, y);
    lemma_gathered_nonnegative(l, t, x, y, face, d, t.entries.len() as int);
    lemma_blocks(light_of(l, t, x, y), count);
    assert(lit[face_base(face, count) + d] == light_of(l, t, x, y)(face, d) as u32);
    lemma_flux_sum_bounds(lit, lit.len() as int);
    lemma_quotient_at_most(flux_sum(lit, lit.len() as int), lit.len() as int, FLUX_MAX as int);
    assert forall|toward: Face| #[trigger] returned(l, t, lit, x, y, toward) == 0 by {
        let n = face_normal(toward);
        assert(is_unit(n));
        assert(l.contains(x + n.x, y + n.y));
        assert(!l.cells[y + n.y][x + n.x].wall.reemits());
    }
    lemma_nothing_returned_nothing_shared(l, t, rule, lit, x, y, face, d);
    lemma_scaled_bounds(rule.step_diffuse, settled(l, lit, x, y, face, d));
}

/// What a face of an interior cell gathers is no less than nothing.
pub proof fn lemma_face_gain_nonnegative(l: LatticeView, t: GatherTable, x: int, y: int, face: Face)
    requires
        fitting(l, t),
        l.contains(x, y),
    ensures
        0 <= face_gain(l, t, x, y, face),
{
    if l.interior(x, y) {
        let n = t.entries.len() as int;
        let f = gathered_at(l, t, x, y, face, n);
        assert forall|d: int| 0 <= d < t.directions() implies 0 <= #[trigger] f(d) by {
            lemma_gathered_nonnegative(l, t, x, y, face, d, n);
        }
        lemma_sum_grows(f, 0, t.directions());
    }
}

/// In a lattice where no wall sends light back, a face of an interior cell
/// that neither emits nor blurs holds after a step no more than it gathered.
pub proof fn lemma_face_keeps_no_more(
    l: LatticeView,
    t: GatherTable,
    rule: StepRule,
    x: int,
    y: int,
    face: Face,
)
    requires
        fitting(l, t),
        rule.wf(t.directions()),
        calm(l),
        l.interior(x, y),
        l.cells[y][x].wall != WallKind::Blur,
    ensures
        face_flux(next_radiance(l, t, rule, x, y), face, t.directions()) <= face_gain(
            l,
            t,
            x,
            y,
            face,
        ),
{
    let count = t.directions();
    let n = t.entries.len() as int;
    let after = next_radiance(l, t, rule, x, y);
    let base = face_base(face, count);
    lemma_blocks(next_flux_of(l, t, rule, x, y), count);
    assert forall|d: int| 0 <= d < count implies #[trigger] block_values(after, base)(d)
        <= gathered_at(l, t, x, y, face, n)(d) by {
        lemma_next_flux_bound(l, t, rule, x, y, face, d);
        assert(after[base + d] == next_flux_of(l, t, rule, x, y)(face, d) as u32);
    }
    lemma_sum_le(block_values(after, base), gathered_at(l, t, x, y, face, n), count);
}

/// A face of an interior cell holds, of what the cell gathered, no more than
/// the face gathered before saturation.
pub proof fn lemma_face_light_no_more(l: LatticeView, t: GatherTable, x: int, y: int, face: Face)
    requires
        fitting(l, t),
        l.interior(x, y),
    ensures
        face_flux(light_bins(l, t, x, y), face, t.directions()) <= face_gain(l, t, x, y, face),
{
    let count = t.directions();
    let n = t.entries.len() as int;
    let lit = light_bins(l, t, x, y);
    let base = face_base(face, count);
    lemma_blocks(light_of(l, t, x, y), count);
    assert forall|d: int| 0 <= d < count implies #[trigger] block_values(lit, base)(d)
        <= gathered_at(l, t, x, y, face, n)(d) by {
        lemma_gathered_nonnegative(l, t, x, y, face, d, n);
        assert(lit[base + d] == light_of(l, t, x, y)(face, d) as u32);
    }
    lemma_sum_le(block_values(lit, base), gathered_at(l, t, x, y, face, n), count);
}

/// In a lattice where no wall sends light back, a face of a blurring cell of
/// the interior holds after a step no more than one mean of what the cell
/// gathered for each of its bins.
pub proof fn lemma_face_blurs_no_more(
    l: LatticeView,
    t: GatherTable,
    rule: StepRule,
    x: int,
    y: int,
    face: Face,
)
    requires
        fitting(l, t),
        rule.wf(t.directions()),
        calm(l),
        l.interior(x, y),
        l.cells[y][x].wall == WallKind::Blur,
    ensures
        face_flux(next_radiance(l, t, rule, x, y), face, t.directions()) <= t.directions() * mean(
            light_bins(l, t, x, y),
        ),
{
    let count = t.directions();
    let after = next_radiance(l, t, rule, x, y);
    let base = face_base(face, count);
    let even = mean(light_bins(l, t, x, y));
    lemma_blocks(next_flux_of(l, t, rule, x, y), count);
    assert forall|d: int| 0 <= d < count implies #[trigger] block_values(after, base)(d)
        <= even by {
        lemma_next_flux_bound(l, t, rule, x, y, face, d);
        assert(after[base + d] == next_flux_of(l, t, rule, x, y)(face, d) as u32);
    }
    lemma_sum_at_most(block_values(after, base), count, even);
}

/// As many means as there are values add up to no more than the values.
pub proof fn lemma_means_no_more(total: int, n: int)
    by (nonlinear_arith)
    requires
        0 <= total,
        0 < n,
    ensures
        n * (total / n) <= total,
{
}

/// In a lattice where no wall sends light back, a cell holds after a step no
/// more than what it is given and what it gathers.
pub proof fn lemma_cell_keeps_no_more(
    l: LatticeView,
    t: GatherTable,
    rule: StepRule,
    x: int,
    y: int,
)
    requires
        fitting(l, t),
        rule.wf(t.directions()),
        calm(l),
        l.contains(x, y),
    ensures
        cell_flux(next_cell(l, t, rule, x, y)) <= gift(l, x, y) + gain_upto(l, t, x, y, 4),
{
    let count = t.directions();
    let c = l.cells[y][x];
    assert(c.wf(l.directions));
    lemma_face_gain_nonnegative(l, t, x, y, Face::PlusX);
    lemma_face_gain_nonnegative(l, t, x, y, Face::MinusY);
    lemma_face_gain_nonnegative(l, t, x, y, Face::MinusX);
    lemma_face_gain_nonnegative(l, t, x, y, Face::PlusY);
    let g0 = face_gain(l, t, x, y, Face::PlusX);
    let g1 = face_gain(l, t, x, y, Face::MinusY);
    let g2 = face_gain(l, t, x, y, Face::MinusX);
    let g3 = face_gain(l, t, x, y, Face::PlusY);
    assert(gain_upto(l, t, x, y, 0) == 0);
    assert(gain_upto(l, t, x, y, 1) == g0);
    assert(gain_upto(l, t, x, y, 2) == g0 + g1);
    assert(gain_upto(l, t, x, y, 3) == g0 + g1 + g2);
    assert(gain_upto(l, t, x, y, 4) == g0 + g1 + g2 + g3);
    if c.emission.is_none() && l.interior(x, y) {
        let after = next_radiance(l, t, rule, x, y);
        lemma_blocks(next_flux_of(l, t, rule, x, y), count);
        lemma_flux_by_faces(after, count);
        let f0 = face_flux(after, Face::PlusX, count);
        let f1 = face_flux(after, Face::MinusY, count);
        let f2 = face_flux(after, Face::MinusX, count);
        let f3 = face_flux(after, Face::PlusY, count);
        assert(faces_flux(after, count, 0) == 0);
        assert(faces_flux(after, count, 1) == f0);
        assert(faces_flux(after, count, 2) == f0 + f1);
        assert(faces_flux(after, count, 3) == f0 + f1 + f2);
        assert(faces_flux(after, count, 4) == f0 + f1 + f2 + f3);
        if c.wall == WallKind::Blur {
            let lit = light_bins(l, t, x, y);
            let even = mean(lit);
            lemma_face_blurs_no_more(l, t, rule, x, y, Face::PlusX);
            lemma_face_blurs_no_more(l, t, rule, x, y, Face::MinusY);
            lemma_face_blurs_no_more(l, t, rule, x, y, Face::MinusX);
            lemma_face_blurs_no_more(l, t, rule, x, y, Face::PlusY);
            lemma_blocks(light_of(l, t, x, y), count);
            lemma_flux_sum_bounds(lit, lit.len() as int);
            lemma_means_no_more(flux_sum(lit, lit.len() as int), lit.len() as int);
            assert(4 * (count * even) == (4 * count) * even) by (nonlinear_arith);
            lemma_flux_by_faces(lit, count);
            let h0 = face_flux(lit, Face::PlusX, count);
            let h1 = face_flux(lit, Face::MinusY, count);
            let h2 = face_flux(lit, Face::MinusX, count);
            let h3 = face_flux(lit, Face::PlusY, count);
            assert(faces_flux(lit, count, 0) == 0);
            assert(faces_flux(lit, count, 1) == h0);
            assert(faces_flux(lit, count, 2) == h0 + h1);
            assert(faces_flux(lit, count, 3) == h0 + h1 + h2);
            assert(faces_flux(lit, count, 4) == h0 + h1 + h2 + h3);
            lemma_face_light_no_more(l, t, x, y, Face::PlusX);
            lemma_face_light_no_more(l, t, x, y, Face::MinusY);
            lemma_face_light_no_more(l, t, x, y, Face::MinusX);
            lemma_face_light_no_more(l, t, x, y, Face::PlusY);
        } else {
            lemma_face_keeps_no_more(l, t, rule, x, y, Face::PlusX);
            lemma_face_keeps_no_more(l, t, rule, x, y, Face::MinusY);
            lemma_face_keeps_no_more(l, t, rule, x, y, Face::MinusX);
            lemma_face_keeps_no_more(l, t, rule, x, y, Face::PlusY);
        }
    }
}

/// Where no wall sends light back and the weights that read each bin add up
/// to at most one whole, a step leaves in the lattice no more flux than the
/// lattice held, beyond what the emitters put out and what the border, which
/// is read and never written, holds: transport makes no flux, whatever share
/// of it a step keeps.
pub proof fn lemma_flux_never_grows(l: LatticeView, t: GatherTable, rule: StepRule)
    requires
        fitting(l, t),
        rule.wf(t.directions()),
        t.conserving(),
        calm(l),
    ensures
        lattice_flux(advanced(l, t, rule)) <= lattice_flux(l) + grid_sum(
            given(l),
            l.width,
            l.height,
        ),
{
    let next = advanced(l, t, rule);
    assert forall|x: int, y: int| within(x, y, l.width, l.height) implies #[trigger] held(next)(
        x,
        y,
    ) <= allowed(l, t)(x, y) by {
        assert(next.cells[y][x] == next_cell(l, t, rule, x, y));
        lemma_cell_keeps_no_more(l, t, rule, x, y);
    }
    lemma_grid_le(held(next), allowed(l, t), l.width, l.height);
    assert forall|x: int, y: int| within(x, y, l.width, l.height) implies #[trigger] allowed(
        l,
        t,
    )(x, y) == given(l)(x, y) + taken_upto(l, t, 4)(x, y) by {}
    lemma_grid_split(allowed(l, t), given(l), taken_upto(l, t, 4), l.width, l.height);
    lemma_taken_no_more(l, t, 4);
    assert forall|x: int, y: int| within(x, y, l.width, l.height) implies #[trigger] held_upto(
        l,
        4,
    )(x, y) == held(l)(x, y) by {
        assert(l.cells[y][x].wf(l.directions));
        lemma_flux_by_faces(l.cells[y][x].radiance, l.directions);
    }
    lemma_grid_eq(held_upto(l, 4), held(l), l.width, l.height);
}

/// What the cell `(x, y)` puts out at every step, if it is an emitter.
pub open spec fn output(l: LatticeView, x: int, y: int) -> int {
    match l.cells[y][x].emission {
        Some(e) => flux_sum(e, e.len() as int),
        None => 0,
    }
}

/// `output` for each cell.
pub open spec fn emitted(l: LatticeView) -> spec_fn(int, int) -> int {
    |x: int, y: int| output(l, x, y)
}

/// All that the emitters of a lattice put out at every step.
pub open spec fn emission_flux(l: LatticeView) -> int {
    grid_sum(emitted(l), l.width, l.height)
}

/// Whether the cells of the border hold nothing and emit nothing.
pub open spec fn dark_border(l: LatticeView) -> bool {
    forall|x: int, y: int|
        l.contains(x, y) && !l.interior(x, y) ==> {
            let c = #[trigger] l.cells[y][x];
            c.emission.is_none() && cell_flux(c) == 0
        }
}

/// The lattice after `n` steps.
pub open spec fn advanced_by(l: LatticeView, t: GatherTable, rule: StepRule, n: nat) -> LatticeView
    decreases n,
{
    if n == 0 {
        l
    } else {
        advanced(advanced_by(l, t, rule, (n - 1) as nat), t, rule)
    }
}

/// A step changes no wall and no emitter, and leaves a dark border dark.
pub proof fn lemma_step_keeps_setting(l: LatticeView, t: GatherTable, rule: StepRule)
    requires
        fitting(l, t),
    ensures
        fitting(advanced(l, t, rule), t),
        calm(l) ==> calm(advanced(l, t, rule)),
        dark_border(l) ==> dark_border(advanced(l, t, rule)),
        emission_flux(advanced(l, t, rule)) == emission_flux(l),
{
    let next = advanced(l, t, rule);
    lemma_advanced_wf(l, t, rule);
    assert forall|x: int, y: int| l.contains(x, y) implies {
        let c = #[trigger] next.cells[y][x];
        &&& c == next_cell(l, t, rule, x, y)
        &&& c.wall == l.cells[y][x].wall
        &&& c.emission == l.cells[y][x].emission
    } by {}
    if calm(l) {
        assert forall|x: int, y: int| next.contains(x, y) implies !(
        #[trigger] next.cells[y][x]).wall.reemits() by {
            assert(l.contains(x, y));
            assert(!l.cells[y][x].wall.reemits());
        }
    }
    if dark_border(l) {
        assert forall|x: int, y: int| next.contains(x, y) && !next.interior(x, y) implies {
            let c = #[trigger] next.cells[y][x];
            c.emission.is_none() && cell_flux(c) == 0
        } by {
            assert(l.contains(x, y));
            let c = l.cells[y][x];
            assert(c.emission.is_none() && cell_flux(c) == 0);
        }
    }
    assert forall|x: int, y: int| within(x, y, l.width, l.height) implies #[trigger] emitted(next)(
        x,
        y,
    ) == emitted(l)(x, y) by {
        assert(l.contains(x, y));
        assert(next.cells[y][x].emission == l.cells[y][x].emission);
    }
    lemma_grid_eq(emitted(next), emitted(l), l.width, l.height);
}

/// Where no wall sends light back, the weights that read each bin add up to
/// at most one whole and the border is dark, a step adds to the flux in the
/// lattice no more than the emitters put out.
pub proof fn lemma_flux_grows_by_emission_at_most(l: LatticeView, t: GatherTable, rule: StepRule)
    requires
        fitting(l, t),
        rule.wf(t.directions()),
        t.conserving(),
        calm(l),
        dark_border(l),
    ensures
        lattice_flux(advanced(l, t, rule)) <= lattice_flux(l) + emission_flux(l),
{
    lemma_flux_never_grows(l, t, rule);
    assert forall|x: int, y: int| within(x, y, l.width, l.height) implies #[trigger] given(l)(x, y)
        == emitted(l)(x, y) by {
        assert(l.contains(x, y));
        let c = l.cells[y][x];
        if !l.interior(x, y) {
            assert(c.emission.is_none() && cell_flux(c) == 0);
        }
    }
    lemma_grid_eq(given(l), emitted(l), l.width, l.height);
}

/// Under the same conditions, the lattice holds after `n` steps no more than
/// it held at first and `n` times what its emitters put out: whatever leaves
/// through the border is lost, and nothing else is made.
pub proof fn lemma_flux_after_steps(l: LatticeView, t: GatherTable, rule: StepRule, n: nat)
    requires
        fitting(l, t),
        rule.wf(t.directions()),
        t.conserving(),
        calm(l),
        dark_border(l),
    ensures
        fitting(advanced_by(l, t, rule, n), t),
        calm(advanced_by(l, t, rule, n)),
        dark_border(advanced_by(l, t, rule, n)),
        emission_flux(advanced_by(l, t, rule, n)) == emission_flux(l),
        lattice_flux(advanced_by(l, t, rule, n)) <= lattice_flux(l) + n * emission_flux(l),
    decreases n,
{
    if n > 0 {
        let before = advanced_by(l, t, rule, (n - 1) as nat);
        lemma_flux_after_steps(l, t, rule, (n - 1) as nat);
        lemma_step_keeps_setting(before, t, rule);
        lemma_flux_grows_by_emission_at_most(before, t, rule);
        assert((n - 1) * emission_flux(l) + emission_flux(l) == n * emission_flux(l))
            by (nonlinear_arith);
    } else {
        assert(0 * emission_flux(l) == 0) by (nonlinear_arith);
    }
}

} // verus!
