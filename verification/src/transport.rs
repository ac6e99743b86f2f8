//! One step of transport for one cell: gathering flux from the neighbouring
//! cells, sending back what diffuse walls return, blurring, and combining.

use vstd::prelude::*;
use crate::fixed::{
    add_flux, clamp, lemma_clamp_absorbs, lemma_scaled_nonnegative, scale_flux, scaled, UNIT,
};
use crate::light::{GatherData, GatherTable};
use crate::geometry::{face_normal, is_unit, opposite, rotate, rotated, Face, Offset};
use crate::lattice::{dark, CellView, Lattice, LatticeView};
use crate::layout::Angle;
use crate::wall::WallKind;

verus! {

/// The place of a face's first bin among the bins of a cell.
pub open spec fn face_base(face: Face, directions: int) -> int {
    match face {
        Face::PlusX => 0,
        Face::MinusY => directions,
        Face::MinusX => 2 * directions,
        Face::PlusY => 3 * directions,
    }
}

/// A value for each bin of each face, laid out as the first `faces` faces of a
/// cell's bins.
pub open spec fn blocks(value: spec_fn(Face, int) -> int, directions: int, faces: int) -> Seq<u32>
    decreases faces,
{
    if faces <= 0 {
        Seq::empty()
    } else {
        blocks(value, directions, faces - 1) + Seq::new(
            directions as nat,
            |d: int| value(Face::spec_from_index(faces - 1), d) as u32,
        )
    }
}

/// The four faces' blocks hold the value of each bin at the bin's place.
pub proof fn lemma_blocks(value: spec_fn(Face, int) -> int, directions: int)
    requires
        0 <= directions,
    ensures
        blocks(value, directions, 4).len() == 4 * directions,
        forall|face: Face, d: int|
            0 <= d < directions ==> #[trigger] blocks(value, directions, 4)[face_base(
                face,
                directions,
            ) + d] == value(face, d) as u32,
{
    let b0 = blocks(value, directions, 0);
    let b1 = blocks(value, directions, 1);
    let b2 = blocks(value, directions, 2);
    let b3 = blocks(value, directions, 3);
    let b4 = blocks(value, directions, 4);
    assert(b0.len() == 0);
    assert(b1.len() == directions);
    assert(b2.len() == 2 * directions);
    assert(b3.len() == 3 * directions);
    assert(b4.len() == 4 * directions);
    assert forall|face: Face, d: int| 0 <= d < directions implies #[trigger] b4[face_base(
        face,
        directions,
    ) + d] == value(face, d) as u32 by {
        match face {
            Face::PlusX => {
                assert(b1[d] == value(Face::PlusX, d) as u32);
                assert(b2[d] == b1[d]);
                assert(b3[d] == b2[d]);
                assert(b4[d] == b3[d]);
            },
            Face::MinusY => {
                assert(b2[directions + d] == value(Face::MinusY, d) as u32);
                assert(b3[directions + d] == b2[directions + d]);
                assert(b4[directions + d] == b3[directions + d]);
            },
            Face::MinusX => {
                assert(b3[2 * directions + d] == value(Face::MinusX, d) as u32);
                assert(b4[2 * directions + d] == b3[2 * directions + d]);
            },
            Face::PlusY => {
                assert(b4[3 * directions + d] == value(Face::PlusY, d) as u32);
            },
        }
    }
}

/// The flux that entry `i` of the table brings to the face `face` of the cell
/// `(x, y)`: its weight's share of the bin it reads in the neighbouring cell,
/// or nothing where the cell does not read that neighbour.
pub open spec fn entry_flux(
    l: LatticeView,
    t: GatherTable,
    x: int,
    y: int,
    face: Face,
    i: int,
) -> int {
    let e = t.entries[i];
    let step = rotated(face, e.offset);
    let neighbor = l.cells[y + step.y][x + step.x];
    if l.cells[y][x].wall.reads(neighbor.wall) {
        scaled(e.weight, neighbor.radiance[face_base(face, t.directions()) + e.source] as int)
    } else {
        0
    }
}

/// What the first `n` entries bring to the bin `dest` of the face `face` of
/// the cell `(x, y)`.
pub open spec fn gathered(
    l: LatticeView,
    t: GatherTable,
    x: int,
    y: int,
    face: Face,
    dest: int,
    n: int,
) -> int
    decreases n,
{
    if n <= 0 {
        0
    } else {
        gathered(l, t, x, y, face, dest, n - 1) + if t.entries[n - 1].dest == dest {
            entry_flux(l, t, x, y, face, n - 1)
        } else {
            0
        }
    }
}

/// The flux that the cell `(x, y)` gathers in the bin `dest` of the face
/// `face`.
pub open spec fn light(
    l: LatticeView,
    t: GatherTable,
    x: int,
    y: int,
    face: Face,
    dest: int,
) -> int {
    clamp(gathered(l, t, x, y, face, dest, t.entries.len() as int))
}

/// `light` as a function of the bin.
pub open spec fn light_of(
    l: LatticeView,
    t: GatherTable,
    x: int,
    y: int) -> spec_fn(Face, int,
) -> int {
    |face: Face, dest: int| light(l, t, x, y, face, dest)
}

/// The flux that the cell `(x, y)` gathers, bin by bin.
pub open spec fn light_bins(l: LatticeView, t: GatherTable, x: int, y: int) -> Seq<u32> {
    blocks(light_of(l, t, x, y), t.directions(), 4)
}

/// Whether a lattice and a table go together.
pub open spec fn fitting(l: LatticeView, t: GatherTable) -> bool {
    l.wf() && t.wf() && l.directions == t.directions()
}

/// What a cell gathers is no less than nothing.
pub proof fn lemma_gathered_nonnegative(
    l: LatticeView,
    t: GatherTable,
    x: int,
    y: int,
    face: Face,
    dest: int,
    n: int,
)
    requires
        fitting(l, t),
        l.interior(x, y),
        0 <= n <= t.entries.len(),
    ensures
        0 <= gathered(l, t, x, y, face, dest, n),
    decreases n,
{
    if n > 0 {
        lemma_gathered_nonnegative(l, t, x, y, face, dest, n - 1);
        let e = t.entries[n - 1];
        let step = rotated(face, e.offset);
        assert(is_unit(e.offset));
        let neighbor = l.cells[y + step.y][x + step.x];
        lemma_scaled_nonnegative(
            e.weight,
            neighbor.radiance[face_base(face, t.directions()) + e.source] as int,
        );
    }
}

/// Moves a coordinate by one step of an offset.
pub fn shifted(at: usize, by: i32) -> (r: usize)
    requires
        -1 <= by <= 1,
        0 <= at + by <= usize::MAX,
    ensures
        r == at + by,
{
    if by == 1 {
        at + 1
    } else if by == -1 {
        at - 1
    } else {
        at
    }
}

/// Computes `face_base`.
pub fn base_of(face: Face, directions: u32) -> (r: usize)
    requires
        directions <= crate::layout::MAX_DIRECTIONS,
    ensures
        r == face_base(face, directions as int),
{
    let d: usize = directions as usize;
    match face {
        Face::PlusX => 0,
        Face::MinusY => d,
        Face::MinusX => 2 * d,
        Face::PlusY => 3 * d,
    }
}

/// Gathers the flux of one face of the interior cell `(x, y)`.
pub fn gather_face(lattice: &Lattice, table: &GatherData, x: usize, y: usize, face: Face) -> (r:
    Vec<u32>)
    requires
        lattice.wf(),
        table.wf(),
        fitting(lattice@, table@),
        lattice@.interior(x as int, y as int),
    ensures
        r@.len() == table@.directions(),
        forall|d: int|
            0 <= d < table@.directions() ==> #[trigger] r@[d] == light(
                lattice@,
                table@,
                x as int,
                y as int,
                face,
                d,
            ),
{
    let directions: u32 = table.directions();
    let base: usize = base_of(face, directions);
    let own: WallKind = lattice.cell(x, y).wall;
    let mut block: Vec<u32> = dark(directions as usize);
    let mut i: usize = 0;
    while i < table.gathers.len()
        invariant
            i <= table.gathers@.len(),
            lattice.wf(),
            table.wf(),
            fitting(lattice@, table@),
            lattice@.interior(x as int, y as int),
            directions == table@.directions(),
            base == face_base(face, directions as int),
            own == lattice@.cells[y as int][x as int].wall,
            block@.len() == directions,
            forall|d: int|
                0 <= d < directions ==> #[trigger] block@[d] == clamp(
                    gathered(lattice@, table@, x as int, y as int, face, d, i as int),
                ),
        decreases table.gathers@.len() - i,
    {
        let gather = table.gathers[i];
        let weight: u32 = table.transmissions[i];
        proof {
            let e = table@.entries[i as int];
            assert(is_unit(e.offset));
            assert(e.offset == gather.offset);
            assert(e.weight == weight);
        }
        let step = rotate(face, gather.offset);
        let nx: usize = shifted(x, step.x);
        let ny: usize = shifted(y, step.y);
        let neighbor = lattice.cell(nx, ny);
        let dest: usize = gather.direction as usize;
        let ghost before = block@;
        if own.is_reading(neighbor.wall) {
            let flux: u32 = scale_flux(weight, neighbor.radiance[base + gather.source as usize]);
            let sum: u32 = add_flux(block[dest], flux);
            block.set(dest, sum);
        }
        proof {
            assert forall|d: int| 0 <= d < directions implies #[trigger] block@[d] == clamp(
                gathered(lattice@, table@, x as int, y as int, face, d, i + 1),
            ) by {
                lemma_gathered_nonnegative(lattice@, table@, x as int, y as int, face, d, i as int);
                let term = entry_flux(lattice@, table@, x as int, y as int, face, i as int);
                lemma_scaled_nonnegative(
                    weight as int,
                    neighbor.radiance@[base + gather.source] as int,
                );
                if d == dest {
                    lemma_clamp_absorbs(
                        gathered(lattice@, table@, x as int, y as int, face, d, i as int),
                        term,
                    );
                } else {
                    assert(block@[d] == before[d]);
                }
            }
        }
        i = i + 1;
    }
    block
}

/// Gathers the flux of the interior cell `(x, y)`, bin by bin.
pub fn gather_light(lattice: &Lattice, table: &GatherData, x: usize, y: usize) -> (r: Vec<u32>)
    requires
        lattice.wf(),
        table.wf(),
        fitting(lattice@, table@),
        lattice@.interior(x as int, y as int),
    ensures
        r@ == light_bins(lattice@, table@, x as int, y as int),
        r@.len() == 4 * table@.directions(),
{
    let mut out: Vec<u32> = gather_face(lattice, table, x, y, Face::PlusX);
    let mut second: Vec<u32> = gather_face(lattice, table, x, y, Face::MinusY);
    let mut third: Vec<u32> = gather_face(lattice, table, x, y, Face::MinusX);
    let mut fourth: Vec<u32> = gather_face(lattice, table, x, y, Face::PlusY);
    proof {
        let value = light_of(lattice@, table@, x as int, y as int);
        let n = table@.directions();
        assert(blocks(value, n, 0) =~= Seq::<u32>::empty());
        assert forall|d: int| 0 <= d < n implies out@[d] == value(Face::PlusX, d) as u32 by {
            assert(out@[d] == light(lattice@, table@, x as int, y as int, Face::PlusX, d));
        }
        assert forall|d: int| 0 <= d < n implies second@[d] == value(Face::MinusY, d) as u32 by {
            assert(second@[d] == light(lattice@, table@, x as int, y as int, Face::MinusY, d));
        }
        assert forall|d: int| 0 <= d < n implies third@[d] == value(Face::MinusX, d) as u32 by {
            assert(third@[d] == light(lattice@, table@, x as int, y as int, Face::MinusX, d));
        }
        assert forall|d: int| 0 <= d < n implies fourth@[d] == value(Face::PlusY, d) as u32 by {
            assert(fourth@[d] == light(lattice@, table@, x as int, y as int, Face::PlusY, d));
        }
        assert(out@ =~= blocks(value, n, 1));
        assert(out@ + second@ =~= blocks(value, n, 2));
        assert(out@ + second@ + third@ =~= blocks(value, n, 3));
        assert(out@ + second@ + third@ + fourth@ =~= blocks(value, n, 4));
    }
    out.append(&mut second);
    out.append(&mut third);
    out.append(&mut fourth);
    out
}

/// How the flux that a wall returns is shared out among the bins.
#[derive(Debug)]
pub enum BouncePolicy {
    /// By the cosine of each bin's direction to the wall's normal.
    UniformBounce,
    /// By that cosine times the brightness of the bin's place in its face.
    WeightedBounce { brightness: Vec<u32> },
}

/// The settings of a step.
#[derive(Debug)]
pub struct StepConfig {
    /// The share of the gathered flux that a step keeps: at most one whole.
    pub step_diffuse: u32,
    /// How returned flux is shared out.
    pub bounce: BouncePolicy,
}

/// What the settings of a step hold: the share kept, and the brightness of
/// each bin of a face where returned flux is weighted by it.
pub struct StepRule {
    pub step_diffuse: int,
    pub brightness: Option<Seq<u32>>,
}

impl View for StepConfig {
    type V = StepRule;

    open spec fn view(&self) -> StepRule {
        StepRule {
            step_diffuse: self.step_diffuse as int,
            brightness: match self.bounce {
                BouncePolicy::UniformBounce => None,
                BouncePolicy::WeightedBounce { brightness } => Some(brightness@),
            },
        }
    }
}

impl StepRule {
    /// Whether a step keeps at most what it gathers, and there is a
    /// brightness for each bin of a face.
    pub open spec fn wf(self, directions: int) -> bool {
        &&& 0 <= self.step_diffuse <= UNIT
        &&& match self.brightness {
            Some(b) => b.len() == directions,
            None => true,
        }
    }
}

/// The cosine, in millionths, of the angle between a bin's direction and the
/// normal that points away from the wall across the face `toward`: the bin
/// has the angle `a` in the face `face`.
pub open spec fn cosine(a: Angle, face: Face, toward: Face) -> int {
    let turns = (face.spec_index() - toward.spec_index() + 6) % 4;
    if turns == 0 {
        a.cos as int
    } else if turns == 1 {
        -a.sin
    } else if turns == 2 {
        -a.cos
    } else {
        a.sin as int
    }
}

/// The weight with which the bin `d` of the face `face` takes part in what
/// the wall across `toward` returns: the positive part of its cosine, times
/// its brightness where the rule has one.
pub open spec fn emit_weight(
    t: GatherTable,
    rule: StepRule,
    toward: Face,
    face: Face,
    d: int,
) -> int {
    let c = cosine(t.angles[d], face, toward);
    if c <= 0 {
        0
    } else {
        match rule.brightness {
            None => c,
            Some(b) => scaled(c, b[d] as int),
        }
    }
}

/// The weights of the first `n` bins of a face, added up.
pub open spec fn norm_by(t: GatherTable, rule: StepRule, toward: Face, face: Face, n: int) -> int
    decreases n,
{
    if n <= 0 {
        0
    } else {
        norm_by(t, rule, toward, face, n - 1) + emit_weight(t, rule, toward, face, n - 1)
    }
}

/// The weights of all bins of the first `faces` faces, added up.
pub open spec fn norm_upto(t: GatherTable, rule: StepRule, toward: Face, faces: int) -> int
    decreases faces,
{
    if faces <= 0 {
        0
    } else {
        norm_upto(t, rule, toward, faces - 1) + norm_by(
            t,
            rule,
            toward,
            Face::spec_from_index(faces - 1),
            t.directions(),
        )
    }
}

/// The weights of all bins of a cell for the wall across `toward`, added up:
/// what the flux returned by that wall is divided by.
pub open spec fn norm(t: GatherTable, rule: StepRule, toward: Face) -> int {
    norm_upto(t, rule, toward, 4)
}

/// A bin's weight lies between nothing and the largest flux.
pub proof fn lemma_emit_weight_bounds(
    t: GatherTable,
    rule: StepRule,
    toward: Face,
    face: Face,
    d: int,
)
    requires
        t.wf(),
        rule.wf(t.directions()),
        0 <= d < t.directions(),
    ensures
        0 <= emit_weight(t, rule, toward, face, d) <= crate::fixed::FLUX_MAX,
{
    let a = t.angles[d];
    assert(a.in_view());
    let c = cosine(a, face, toward);
    if c > 0 {
        match rule.brightness {
            None => {},
            Some(b) => {
                crate::fixed::lemma_scaled_bounds(c, b[d] as int);
            },
        }
    }
}

/// The weights of a face add up to no less than each of them, and to no more
/// than the largest flux for each.
pub proof fn lemma_norm_by_bounds(
    t: GatherTable,
    rule: StepRule,
    toward: Face,
    face: Face,
    n: int,
)
    requires
        t.wf(),
        rule.wf(t.directions()),
        0 <= n <= t.directions(),
    ensures
        0 <= norm_by(t, rule, toward, face, n) <= n * crate::fixed::FLUX_MAX,
        forall|d: int|
            0 <= d < n ==> #[trigger] emit_weight(t, rule, toward, face, d) <= norm_by(
                t,
                rule,
                toward,
                face,
                n,
            ),
    decreases n,
{
    if n > 0 {
        lemma_norm_by_bounds(t, rule, toward, face, n - 1);
        lemma_emit_weight_bounds(t, rule, toward, face, n - 1);
    }
}

/// The weights of a cell add up to no less than each of them, and to less
/// than a `u64` holds.
pub proof fn lemma_norm_bounds(t: GatherTable, rule: StepRule, toward: Face)
    requires
        t.wf(),
        rule.wf(t.directions()),
    ensures
        0 <= norm_upto(t, rule, toward, 0) <= norm_upto(t, rule, toward, 1) <= norm_upto(
            t,
            rule,
            toward,
            2,
        ) <= norm_upto(t, rule, toward, 3) <= norm(t, rule, toward) <= 4 * t.directions()
            * crate::fixed::FLUX_MAX,
        forall|face: Face, d: int|
            0 <= d < t.directions() ==> #[trigger] emit_weight(t, rule, toward, face, d) <= norm(
                t,
                rule,
                toward,
            ),
{
    let n = t.directions();
    lemma_norm_by_bounds(t, rule, toward, Face::PlusX, n);
    lemma_norm_by_bounds(t, rule, toward, Face::MinusY, n);
    lemma_norm_by_bounds(t, rule, toward, Face::MinusX, n);
    lemma_norm_by_bounds(t, rule, toward, Face::PlusY, n);
    assert(norm_upto(t, rule, toward, 1) == norm_upto(t, rule, toward, 0) + norm_by(
        t,
        rule,
        toward,
        Face::PlusX,
        n,
    ));
    assert(norm_upto(t, rule, toward, 2) == norm_upto(t, rule, toward, 1) + norm_by(
        t,
        rule,
        toward,
        Face::MinusY,
        n,
    ));
    assert(norm_upto(t, rule, toward, 3) == norm_upto(t, rule, toward, 2) + norm_by(
        t,
        rule,
        toward,
        Face::MinusX,
        n,
    ));
    assert(norm_upto(t, rule, toward, 4) == norm_upto(t, rule, toward, 3) + norm_by(
        t,
        rule,
        toward,
        Face::PlusY,
        n,
    ));
    assert forall|face: Face, d: int| 0 <= d < n implies #[trigger] emit_weight(
        t,
        rule,
        toward,
        face,
        d,
    ) <= norm(t, rule, toward) by {
        assert(emit_weight(t, rule, toward, face, d) <= norm_by(t, rule, toward, face, n));
    }
}

/// Computes `cosine`.
pub fn cosine_of(a: Angle, face: Face, toward: Face) -> (r: i32)
    requires
        a.in_view(),
    ensures
        r == cosine(a, face, toward),
        -UNIT <= r <= UNIT,
{
    let turns: u32 = (face.index() + 6 - toward.index()) % 4;
    if turns == 0 {
        a.cos
    } else if turns == 1 {
        -a.sin
    } else if turns == 2 {
        -a.cos
    } else {
        a.sin
    }
}

impl StepConfig {
    /// Whether the settings fit a layout of `directions` bins to a face.
    pub open spec fn wf(&self, directions: int) -> bool {
        self@.wf(directions)
    }

    /// Computes `emit_weight`.
    pub fn emit_weight_of(&self, table: &GatherData, toward: Face, face: Face, d: u32) -> (r: u32)
        requires
            table.wf(),
            self.wf(table@.directions()),
            d < table@.directions(),
        ensures
            r == emit_weight(table@, self@, toward, face, d as int),
    {
        proof {
            lemma_emit_weight_bounds(table@, self@, toward, face, d as int);
        }
        assert(table@.angles[d as int].in_view());
        let c: i32 = cosine_of(table.angles[d as usize], face, toward);
        if c <= 0 {
            0
        } else {
            match &self.bounce {
                BouncePolicy::UniformBounce => c as u32,
                BouncePolicy::WeightedBounce { brightness } => scale_flux(
                    c as u32,
                    brightness[d as usize],
                ),
            }
        }
    }

    /// Computes `norm`.
    pub fn bounce_norm(&self, table: &GatherData, toward: Face) -> (r: u64)
        requires
            table.wf(),
            self.wf(table@.directions()),
        ensures
            r == norm(table@, self@, toward),
    {
        let directions: u32 = table.directions();
        let mut total: u64 = 0;
        let mut turns: u32 = 0;
        proof {
            lemma_norm_bounds(table@, self@, toward);
        }
        while turns < 4
            invariant
                turns <= 4,
                table.wf(),
                self.wf(table@.directions()),
                directions == table@.directions(),
                total == norm_upto(table@, self@, toward, turns as int),
                norm_upto(table@, self@, toward, 4) <= 4 * directions * crate::fixed::FLUX_MAX,
                0 <= norm_upto(table@, self@, toward, 0) <= norm_upto(table@, self@, toward, 1)
                    <= norm_upto(table@, self@, toward, 2) <= norm_upto(table@, self@, toward, 3)
                    <= norm_upto(table@, self@, toward, 4),
            decreases 4 - turns,
        {
            let face: Face = match Face::from_index(turns) {
                Some(f) => f,
                None => Face::PlusX,
            };
            let ghost start = total as int;
            let mut d: u32 = 0;
            proof {
                lemma_norm_by_bounds(table@, self@, toward, face, directions as int);
            }
            while d < directions
                invariant
                    d <= directions,
                    table.wf(),
                    self.wf(table@.directions()),
                    directions == table@.directions(),
                    total == start + norm_by(table@, self@, toward, face, d as int),
                    0 <= start,
                    start + norm_by(table@, self@, toward, face, directions as int) <= 4
                        * directions * crate::fixed::FLUX_MAX,
                decreases directions - d,
            {
                proof {
                    lemma_norm_by_grows(table@, self@, toward, face, d + 1, directions as int);
                }
                let w: u32 = self.emit_weight_of(table, toward, face, d);
                total = total + w as u64;
                d = d + 1;
            }
            turns = turns + 1;
        }
        total
    }
}

/// Adding more bins of a face never lowers the sum of their weights.
pub proof fn lemma_norm_by_grows(
    t: GatherTable,
    rule: StepRule,
    toward: Face,
    face: Face,
    n: int,
    m: int,
)
    requires
        t.wf(),
        rule.wf(t.directions()),
        0 <= n <= m <= t.directions(),
    ensures
        norm_by(t, rule, toward, face, n) <= norm_by(t, rule, toward, face, m),
    decreases m - n,
{
    if n < m {
        lemma_norm_by_grows(t, rule, toward, face, n, m - 1);
        lemma_emit_weight_bounds(t, rule, toward, face, m - 1);
    }
}

/// Four vectors that hold the values of the four faces make up the cell's
/// bins.
pub proof fn lemma_blocks_assemble(
    value: spec_fn(Face, int) -> int,
    directions: int,
    first: Seq<u32>,
    second: Seq<u32>,
    third: Seq<u32>,
    fourth: Seq<u32>,
)
    requires
        0 <= directions,
        first.len() == directions,
        second.len() == directions,
        third.len() == directions,
        fourth.len() == directions,
        forall|d: int| 0 <= d < directions ==> #[trigger] first[d] == value(Face::PlusX, d),
        forall|d: int| 0 <= d < directions ==> #[trigger] second[d] == value(Face::MinusY, d),
        forall|d: int| 0 <= d < directions ==> #[trigger] third[d] == value(Face::MinusX, d),
        forall|d: int| 0 <= d < directions ==> #[trigger] fourth[d] == value(Face::PlusY, d),
    ensures
        first + second + third + fourth == blocks(value, directions, 4),
{
    let n = directions;
    assert(blocks(value, n, 0) =~= Seq::<u32>::empty());
    assert(first =~= blocks(value, n, 1));
    assert(first + second =~= blocks(value, n, 2));
    assert(first + second + third =~= blocks(value, n, 3));
    assert(first + second + third + fourth =~= blocks(value, n, 4));
}

/// The flux that the cell, holding `lit`, would hand through entry `i` to the
/// neighbour across `toward`, if that neighbour read the cell's face `face`
/// through it: the entry's share of the bin that it reads, where the entry, on
/// that face, reads the cell that lies opposite to the step toward the
/// neighbour.
pub open spec fn sent_flux(t: GatherTable, lit: Seq<u32>, toward: Face, face: Face, i: int) -> int {
    let e = t.entries[i];
    if rotated(face, e.offset) == opposite(face_normal(toward)) {
        scaled(e.weight, lit[face_base(face, t.directions()) + e.source] as int)
    } else {
        0
    }
}

/// What the first `n` entries hand on of a face.
pub open spec fn sent_by(t: GatherTable, lit: Seq<u32>, toward: Face, face: Face, n: int) -> int
    decreases n,
{
    if n <= 0 {
        0
    } else {
        sent_by(t, lit, toward, face, n - 1) + sent_flux(t, lit, toward, face, n - 1)
    }
}

/// What all entries hand on of the first `faces` faces.
pub open spec fn sent_upto(t: GatherTable, lit: Seq<u32>, toward: Face, faces: int) -> int
    decreases faces,
{
    if faces <= 0 {
        0
    } else {
        sent_upto(t, lit, toward, faces - 1) + sent_by(
            t,
            lit,
            toward,
            Face::spec_from_index(faces - 1),
            t.entries.len() as int,
        )
    }
}

/// The flux that a cell holding `lit` would send into the neighbour across
/// `toward`.
pub open spec fn sent(t: GatherTable, lit: Seq<u32>, toward: Face) -> int {
    clamp(sent_upto(t, lit, toward, 4))
}

/// What entries hand on is no less than nothing.
pub proof fn lemma_sent_by_nonnegative(
    t: GatherTable,
    lit: Seq<u32>,
    toward: Face,
    face: Face,
    n: int,
)
    requires
        t.wf(),
        lit.len() == 4 * t.directions(),
        0 <= n <= t.entries.len(),
    ensures
        0 <= sent_by(t, lit, toward, face, n),
    decreases n,
{
    if n > 0 {
        lemma_sent_by_nonnegative(t, lit, toward, face, n - 1);
        let e = t.entries[n - 1];
        lemma_scaled_nonnegative(e.weight, lit[face_base(face, t.directions()) + e.source] as int);
    }
}

/// What faces hand on is no less than nothing.
pub proof fn lemma_sent_upto_nonnegative(t: GatherTable, lit: Seq<u32>, toward: Face, faces: int)
    requires
        t.wf(),
        lit.len() == 4 * t.directions(),
        0 <= faces,
    ensures
        0 <= sent_upto(t, lit, toward, faces),
    decreases faces,
{
    if faces > 0 {
        lemma_sent_upto_nonnegative(t, lit, toward, faces - 1);
        lemma_sent_by_nonnegative(
            t,
            lit,
            toward,
            Face::spec_from_index(faces - 1),
            t.entries.len() as int,
        );
    }
}

/// Computes `sent`.
pub fn sent_toward(table: &GatherData, lit: &Vec<u32>, toward: Face) -> (r: u32)
    requires
        table.wf(),
        lit@.len() == 4 * table@.directions(),
    ensures
        r == sent(table@, lit@, toward),
{
    let directions: u32 = table.directions();
    let normal: Offset = rotate(toward, Offset { x: 1, y: 0 });
    let mut total: u32 = 0;
    let mut turns: u32 = 0;
    while turns < 4
        invariant
            turns <= 4,
            table.wf(),
            lit@.len() == 4 * table@.directions(),
            directions == table@.directions(),
            normal == face_normal(toward),
            total == clamp(sent_upto(table@, lit@, toward, turns as int)),
        decreases 4 - turns,
    {
        let face: Face = match Face::from_index(turns) {
            Some(f) => f,
            None => Face::PlusX,
        };
        let base: usize = base_of(face, directions);
        let ghost start = sent_upto(table@, lit@, toward, turns as int);
        proof {
            lemma_sent_upto_nonnegative(table@, lit@, toward, turns as int);
        }
        let mut i: usize = 0;
        while i < table.gathers.len()
            invariant
                i <= table.gathers@.len(),
                table.wf(),
                lit@.len() == 4 * table@.directions(),
                directions == table@.directions(),
                normal == face_normal(toward),
                base == face_base(face, directions as int),
                0 <= start,
                total == clamp(start + sent_by(table@, lit@, toward, face, i as int)),
            decreases table.gathers@.len() - i,
        {
            let gather = table.gathers[i];
            let weight: u32 = table.transmissions[i];
            proof {
                let e = table@.entries[i as int];
                assert(is_unit(e.offset));
                assert(e.offset == gather.offset);
                assert(e.weight == weight);
                lemma_sent_by_nonnegative(table@, lit@, toward, face, i as int);
                lemma_scaled_nonnegative(weight as int, lit@[base + gather.source] as int);
                lemma_clamp_absorbs(
                    start + sent_by(table@, lit@, toward, face, i as int),
                    sent_flux(table@, lit@, toward, face, i as int),
                );
            }
            let from: Offset = rotate(face, gather.offset);
            if crate::geometry::cancels(from, normal) {
                let flux: u32 = scale_flux(weight, lit[base + gather.source as usize]);
                total = add_flux(total, flux);
            }
            i = i + 1;
        }
        turns = turns + 1;
    }
    total
}

/// The cell beside `(x, y)` across the face `toward`.
pub open spec fn beside(l: LatticeView, x: int, y: int, toward: Face) -> CellView {
    l.cells[y + face_normal(toward).y][x + face_normal(toward).x]
}

/// The gain with which the cells beside a wall send light back.
pub open spec fn tint(c: CellView) -> int {
    match c.wall_color {
        Some(gain) => gain as int,
        None => UNIT as int,
    }
}

/// The flux that the wall across `toward` returns to the cell `(x, y)`, which
/// holds `lit`: what the cell would send into it, tinted, where the
/// neighbour is such a wall, and nothing elsewhere.
pub open spec fn returned(
    l: LatticeView,
    t: GatherTable,
    lit: Seq<u32>,
    x: int,
    y: int,
    toward: Face,
) -> int {
    let wall = beside(l, x, y, toward);
    if wall.wall.reemits() {
        clamp(scaled(tint(wall), sent(t, lit, toward)))
    } else {
        0
    }
}

/// Computes `returned`.
pub fn returned_flux(
    lattice: &Lattice,
    table: &GatherData,
    lit: &Vec<u32>,
    x: usize,
    y: usize,
    toward: Face,
) -> (r: u32)
    requires
        lattice.wf(),
        table.wf(),
        fitting(lattice@, table@),
        lattice@.interior(x as int, y as int),
        lit@.len() == 4 * table@.directions(),
    ensures
        r == returned(lattice@, table@, lit@, x as int, y as int, toward),
{
    let normal: Offset = rotate(toward, Offset { x: 1, y: 0 });
    let wall = lattice.cell(shifted(x, normal.x), shifted(y, normal.y));
    if wall.wall.is_reemitting() {
        let gain: u32 = match wall.wall_color {
            Some(g) => g,
            None => UNIT,
        };
        scale_flux(gain, sent_toward(table, lit, toward))
    } else {
        0
    }
}

/// The first `n` values of a vector of flux, added up.
pub open spec fn flux_sum(v: Seq<u32>, n: int) -> int
    decreases n,
{
    if n <= 0 {
        0
    } else {
        flux_sum(v, n - 1) + v[n - 1]
    }
}

/// A sum of flux lies between nothing and the largest flux for each value.
pub proof fn lemma_flux_sum_bounds(v: Seq<u32>, n: int)
    requires
        0 <= n <= v.len(),
    ensures
        0 <= flux_sum(v, n) <= n * crate::fixed::FLUX_MAX,
    decreases n,
{
    if n > 0 {
        lemma_flux_sum_bounds(v, n - 1);
    }
}

/// The mean of a vector of flux, rounded down.
pub open spec fn mean(v: Seq<u32>) -> int {
    flux_sum(v, v.len() as int) / (v.len() as int)
}

/// Computes `mean`.
pub fn blur_mean(lit: &Vec<u32>) -> (r: u32)
    requires
        0 < lit@.len() <= 4 * crate::layout::MAX_DIRECTIONS,
    ensures
        r == mean(lit@),
{
    let mut total: u64 = 0;
    let mut i: usize = 0;
    while i < lit.len()
        invariant
            i <= lit@.len(),
            lit@.len() <= 4 * crate::layout::MAX_DIRECTIONS,
            total == flux_sum(lit@, i as int),
        decreases lit@.len() - i,
    {
        proof {
            lemma_flux_sum_bounds(lit@, i as int);
        }
        total = total + lit[i] as u64;
        i = i + 1;
    }
    proof {
        lemma_flux_sum_bounds(lit@, lit@.len() as int);
        crate::fixed::lemma_quotient_at_most(
            total as int,
            lit@.len() as int,
            crate::fixed::FLUX_MAX as int,
        );
    }
    (total / (lit.len() as u64)) as u32
}

/// A bin's share of returned flux: `back` times the bin's weight over the
/// sum of all weights, rounded down; nothing where the weights add up to
/// nothing.
pub open spec fn share(weight: int, back: int, norm: int) -> int {
    if norm > 0 {
        (weight * back) / norm
    } else {
        0
    }
}

/// A share of returned flux is at most all of it.
pub proof fn lemma_share_bounds(weight: int, back: int, norm: int)
    requires
        0 <= weight <= norm,
        0 <= back,
    ensures
        0 <= share(weight, back, norm) <= back,
{
    if norm > 0 {
        assert(0 <= weight * back <= back * norm) by (nonlinear_arith)
            requires
                0 <= weight <= norm,
                0 <= back,
        ;
        crate::fixed::lemma_quotient_at_most(weight * back, norm, back);
    }
}

/// Computes `share`.
pub fn share_flux(weight: u32, back: u32, norm: u64) -> (r: u32)
    requires
        weight <= norm,
    ensures
        r == share(weight as int, back as int, norm as int),
{
    proof {
        lemma_share_bounds(weight as int, back as int, norm as int);
    }
    if norm == 0 {
        0
    } else {
        assert(0 <= weight * back <= 0xffff_ffff * 0xffff_ffff) by (nonlinear_arith)
            requires
                0 <= weight <= 0xffff_ffff,
                0 <= back <= 0xffff_ffff,
        ;
        (((weight as u64) * (back as u64)) / norm) as u32
    }
}

/// What the bin `d` of the face `face` of the cell `(x, y)`, which holds
/// `lit`, gets of the flux that the wall across `toward` returns.
pub open spec fn bounce_share(
    l: LatticeView,
    t: GatherTable,
    rule: StepRule,
    lit: Seq<u32>,
    x: int,
    y: int,
    toward: Face,
    face: Face,
    d: int,
) -> int {
    share(
        emit_weight(t, rule, toward, face, d),
        returned(l, t, lit, x, y, toward),
        norm(t, rule, toward),
    )
}

/// What the bin `d` of the face `face` of the cell `(x, y)`, which holds
/// `lit`, gets back from the walls around the cell.
pub open spec fn delta(
    l: LatticeView,
    t: GatherTable,
    rule: StepRule,
    lit: Seq<u32>,
    x: int,
    y: int,
    face: Face,
    d: int,
) -> int {
    clamp(
        bounce_share(l, t, rule, lit, x, y, Face::PlusX, face, d) + bounce_share(
            l,
            t,
            rule,
            lit,
            x,
            y,
            Face::MinusY,
            face,
            d,
        ) + bounce_share(l, t, rule, lit, x, y, Face::MinusX, face, d) + bounce_share(
            l,
            t,
            rule,
            lit,
            x,
            y,
            Face::PlusY,
            face,
            d,
        ),
    )
}

/// What the cell `(x, y)` makes of the flux `lit` that it gathered, in the
/// bin `d` of the face `face`: a blurring cell the mean of all bins, any
/// other cell the bin's own flux.
pub open spec fn settled(l: LatticeView, lit: Seq<u32>, x: int, y: int, face: Face, d: int) -> int {
    if l.cells[y][x].wall == WallKind::Blur {
        mean(lit)
    } else {
        lit[face_base(face, l.directions) + d] as int
    }
}

/// The flux of the bin `d` of the face `face` of the interior cell `(x, y)`
/// after a step, before emitters are put back: nothing in an absorbing cell;
/// elsewhere the kept share of what the cell gathered and made of it, plus
/// what the walls around the cell return.
pub open spec fn next_flux(
    l: LatticeView,
    t: GatherTable,
    rule: StepRule,
    x: int,
    y: int,
    face: Face,
    d: int,
) -> int {
    let lit = light_bins(l, t, x, y);
    if l.cells[y][x].wall == WallKind::Absorb {
        0
    } else {
        clamp(
            scaled(rule.step_diffuse, settled(l, lit, x, y, face, d)) + delta(
                l,
                t,
                rule,
                lit,
                x,
                y,
                face,
                d,
            ),
        )
    }
}

/// `next_flux` as a function of the bin.
pub open spec fn next_flux_of(
    l: LatticeView,
    t: GatherTable,
    rule: StepRule,
    x: int,
    y: int,
) -> spec_fn(Face, int) -> int {
    |face: Face, d: int| next_flux(l, t, rule, x, y, face, d)
}

/// The flux of the interior cell `(x, y)` after a step, bin by bin, before
/// emitters are put back.
pub open spec fn next_radiance(
    l: LatticeView,
    t: GatherTable,
    rule: StepRule,
    x: int,
    y: int,
) -> Seq<u32> {
    blocks(next_flux_of(l, t, rule, x, y), t.directions(), 4)
}

/// A gather table with the settings of a step, and what depends on the two
/// alone.
#[derive(Debug)]
pub struct Stepper {
    pub table: GatherData,
    pub config: StepConfig,
    /// For each face, the sum of the weights with which the bins take part in
    /// what the wall across that face returns.
    pub norms: [u64; 4],
}

impl Stepper {
    /// Whether table and settings are well formed and go together, and the
    /// sums are those of the weights.
    pub open spec fn wf(&self) -> bool {
        &&& self.table.wf()
        &&& self.config.wf(self.table@.directions())
        &&& forall|k: int|
            0 <= k < 4 ==> #[trigger] self.norms@[k] == norm(
                self.table@,
                self.config@,
                Face::spec_from_index(k),
            )
    }

    /// Whether the stepper can step the lattice.
    pub open spec fn fits(&self, l: LatticeView) -> bool {
        self.wf() && fitting(l, self.table@)
    }

    /// Puts a table and settings together.
    pub fn new(table: GatherData, config: StepConfig) -> (r: Stepper)
        requires
            table.wf(),
            config.wf(table@.directions()),
        ensures
            r.wf(),
            r.table == table,
            r.config == config,
    {
        let n0: u64 = config.bounce_norm(&table, Face::PlusX);
        let n1: u64 = config.bounce_norm(&table, Face::MinusY);
        let n2: u64 = config.bounce_norm(&table, Face::MinusX);
        let n3: u64 = config.bounce_norm(&table, Face::PlusY);
        Stepper { table, config, norms: [n0, n1, n2, n3] }
    }

    /// What one bin gets back from the wall across `toward`, which returns
    /// `back`.
    fn bin_share(&self, toward: Face, face: Face, d: u32, back: u32) -> (r: u32)
        requires
            self.wf(),
            d < self.table@.directions(),
        ensures
            r == share(
                emit_weight(self.table@, self.config@, toward, face, d as int),
                back as int,
                norm(self.table@, self.config@, toward),
            ),
            r <= back,
    {
        proof {
            lemma_norm_bounds(self.table@, self.config@, toward);
            lemma_emit_weight_bounds(self.table@, self.config@, toward, face, d as int);
            crate::geometry::lemma_face_index_round_trip(toward);
            lemma_share_bounds(
                emit_weight(self.table@, self.config@, toward, face, d as int),
                back as int,
                norm(self.table@, self.config@, toward),
            );
        }
        let weight: u32 = self.config.emit_weight_of(&self.table, toward, face, d);
        let sum: u64 = self.norms[toward.index() as usize];
        share_flux(weight, back, sum)
    }

    /// The flux after a step of one face of the interior cell `(x, y)`, which
    /// is not absorbing and has gathered `lit`; `back` holds what the walls
    /// across the four faces return.
    fn combine_face(
        &self,
        lattice: &Lattice,
        lit: &Vec<u32>,
        back: &[u32; 4],
        x: usize,
        y: usize,
        face: Face,
    ) -> (r: Vec<u32>)
        requires
            self.fits(lattice@),
            lattice@.interior(x as int, y as int),
            lattice@.cells[y as int][x as int].wall != WallKind::Absorb,
            lit@ == light_bins(lattice@, self.table@, x as int, y as int),
            lit@.len() == 4 * self.table@.directions(),
            forall|k: int|
                0 <= k < 4 ==> #[trigger] back@[k] == returned(
                    lattice@,
                    self.table@,
                    lit@,
                    x as int,
                    y as int,
                    Face::spec_from_index(k),
                ),
        ensures
            r@.len() == self.table@.directions(),
            forall|d: int|
                0 <= d < self.table@.directions() ==> #[trigger] r@[d] == next_flux(
                    lattice@,
                    self.table@,
                    self.config@,
                    x as int,
                    y as int,
                    face,
                    d,
                ),
    {
        let directions: u32 = self.table.directions();
        let base: usize = base_of(face, directions);
        let blurring: bool = match lattice.cell(x, y).wall {
            WallKind::Blur => true,
            _ => false,
        };
        let even: u32 = if blurring {
            blur_mean(lit)
        } else {
            0
        };
        let mut block: Vec<u32> = Vec::new();
        let mut d: u32 = 0;
        while d < directions
            invariant
                d <= directions,
                self.fits(lattice@),
                lattice@.interior(x as int, y as int),
                lattice@.cells[y as int][x as int].wall != WallKind::Absorb,
                lit@ == light_bins(lattice@, self.table@, x as int, y as int),
                lit@.len() == 4 * self.table@.directions(),
                forall|k: int|
                    0 <= k < 4 ==> #[trigger] back@[k] == returned(
                        lattice@,
                        self.table@,
                        lit@,
                        x as int,
                        y as int,
                        Face::spec_from_index(k),
                    ),
                directions == self.table@.directions(),
                base == face_base(face, directions as int),
                blurring == (lattice@.cells[y as int][x as int].wall == WallKind::Blur),
                blurring ==> even == mean(lit@),
                block@.len() == d,
                forall|j: int|
                    0 <= j < d ==> #[trigger] block@[j] == next_flux(
                        lattice@,
                        self.table@,
                        self.config@,
                        x as int,
                        y as int,
                        face,
                        j,
                    ),
            decreases directions - d,
        {
            let own: u32 = if blurring {
                even
            } else {
                lit[base + d as usize]
            };
            let kept: u32 = scale_flux(self.config.step_diffuse, own);
            assert(back@[0] == returned(
                lattice@,
                self.table@,
                lit@,
                x as int,
                y as int,
                Face::PlusX,
            ));
            assert(back@[1] == returned(
                lattice@,
                self.table@,
                lit@,
                x as int,
                y as int,
                Face::MinusY,
            ));
            assert(back@[2] == returned(
                lattice@,
                self.table@,
                lit@,
                x as int,
                y as int,
                Face::MinusX,
            ));
            assert(back@[3] == returned(
                lattice@,
                self.table@,
                lit@,
                x as int,
                y as int,
                Face::PlusY,
            ));
            let s0: u32 = self.bin_share(Face::PlusX, face, d, back[0]);
            let s1: u32 = self.bin_share(Face::MinusY, face, d, back[1]);
            let s2: u32 = self.bin_share(Face::MinusX, face, d, back[2]);
            let s3: u32 = self.bin_share(Face::PlusY, face, d, back[3]);
            let got: u32 = add_flux(add_flux(add_flux(s0, s1), s2), s3);
            proof {
                lemma_clamp_absorbs(s0 + s1, s2 as int);
                lemma_clamp_absorbs(s0 + s1 + s2, s3 as int);
            }
            block.push(add_flux(kept, got));
            d = d + 1;
        }
        block
    }

    /// The flux of the interior cell `(x, y)` after a step, bin by bin,
    /// before emitters are put back.
    pub fn step_cell(&self, lattice: &Lattice, x: usize, y: usize) -> (r: Vec<u32>)
        requires
            self.fits(lattice@),
            lattice@.interior(x as int, y as int),
        ensures
            r@ == next_radiance(lattice@, self.table@, self.config@, x as int, y as int),
            r@.len() == 4 * lattice@.directions,
    {
        let directions: u32 = self.table.directions();
        let ghost value = next_flux_of(lattice@, self.table@, self.config@, x as int, y as int);
        match lattice.cell(x, y).wall {
            WallKind::Absorb => {
                let block: Vec<u32> = dark(4 * (directions as usize));
                proof {
                    lemma_blocks(value, directions as int);
                    assert forall|i: int| 0 <= i < 4 * directions implies block@[i] == blocks(
                        value,
                        directions as int,
                        4,
                    )[i] by {
                        let n = directions as int;
                        if i < n {
                            assert(i == face_base(Face::PlusX, n) + i);
                            assert(value(Face::PlusX, i) == 0);
                        } else if i < 2 * n {
                            assert(i == face_base(Face::MinusY, n) + (i - n));
                            assert(value(Face::MinusY, i - n) == 0);
                        } else if i < 3 * n {
                            assert(i == face_base(Face::MinusX, n) + (i - 2 * n));
                            assert(value(Face::MinusX, i - 2 * n) == 0);
                        } else {
                            assert(i == face_base(Face::PlusY, n) + (i - 3 * n));
                            assert(value(Face::PlusY, i - 3 * n) == 0);
                        }
                    }
                    assert(block@ =~= blocks(value, directions as int, 4));
                }
                block
            },
            _ => {
                let lit: Vec<u32> = gather_light(lattice, &self.table, x, y);
                let back: [u32; 4] = [
                    returned_flux(lattice, &self.table, &lit, x, y, Face::PlusX),
                    returned_flux(lattice, &self.table, &lit, x, y, Face::MinusY),
                    returned_flux(lattice, &self.table, &lit, x, y, Face::MinusX),
                    returned_flux(lattice, &self.table, &lit, x, y, Face::PlusY),
                ];
                let mut out: Vec<u32> = self.combine_face(lattice, &lit, &back, x, y, Face::PlusX);
                let mut second: Vec<u32> = self.combine_face(
                    lattice,
                    &lit,
                    &back,
                    x,
                    y,
                    Face::MinusY,
                );
                let mut third: Vec<u32> = self.combine_face(
                    lattice,
                    &lit,
                    &back,
                    x,
                    y,
                    Face::MinusX,
                );
                let mut fourth: Vec<u32> = self.combine_face(
                    lattice,
                    &lit,
                    &back,
                    x,
                    y,
                    Face::PlusY,
                );
                proof {
                    lemma_blocks_assemble(
                        value,
                        directions as int,
                        out@,
                        second@,
                        third@,
                        fourth@,
                    );
                }
                out.append(&mut second);
                out.append(&mut third);
                out.append(&mut fourth);
                out
            },
        }
    }
}

} // verus!
