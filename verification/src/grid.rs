//! A step of the whole lattice, and the two buffers that steps alternate
//! between.

use vstd::prelude::*;
use crate::light::{GatherData, GatherTable};
use crate::lattice::{copy_flux, Cell, CellView, Lattice, LatticeView};
use crate::transport::{
    fitting, lemma_blocks, next_flux_of, next_radiance, StepConfig, StepRule, Stepper,
};
use crate::wall::WallKind;

verus! {

/// The cell `(x, y)` after a step: an emitter holds its emission, another
/// interior cell what transport gives it, and a cell of the border what it
/// held. Wall, colour and emission stay.
pub open spec fn next_cell(
    l: LatticeView,
    t: GatherTable,
    rule: StepRule,
    x: int,
    y: int,
) -> CellView {
    let c = l.cells[y][x];
    CellView {
        wall: c.wall,
        wall_color: c.wall_color,
        radiance: match c.emission {
            Some(e) => e,
            None => if l.interior(x, y) {
                next_radiance(l, t, rule, x, y)
            } else {
                c.radiance
            },
        },
        emission: c.emission,
    }
}

/// The lattice after a step. Every cell is a function of the lattice before
/// the step alone.
pub open spec fn advanced(l: LatticeView, t: GatherTable, rule: StepRule) -> LatticeView {
    LatticeView {
        width: l.width,
        height: l.height,
        directions: l.directions,
        cells: Seq::new(
            l.height as nat,
            |y: int| Seq::new(l.width as nat, |x: int| next_cell(l, t, rule, x, y)),
        ),
    }
}

/// A step keeps a lattice well formed.
pub proof fn lemma_advanced_wf(l: LatticeView, t: GatherTable, rule: StepRule)
    requires
        fitting(l, t),
    ensures
        advanced(l, t, rule).wf(),
        fitting(advanced(l, t, rule), t),
{
    let next = advanced(l, t, rule);
    assert forall|x: int, y: int| 0 <= x < next.width && 0 <= y < next.height implies (
    #[trigger] next.cells[y][x]).wf(next.directions) by {
        assert(l.cells[y][x].wf(l.directions));
        assert(next.cells[y][x] == next_cell(l, t, rule, x, y));
        lemma_blocks(next_flux_of(l, t, rule, x, y), t.directions());
    }
}

impl Stepper {
    /// Steps the lattice: the result is the lattice after one step, and the
    /// lattice itself is left as it was.
    pub fn advance(&self, lattice: &Lattice) -> (r: Lattice)
        requires
            self.fits(lattice@),
        ensures
            r@ == advanced(lattice@, self.table@, self.config@),
            r.wf(),
            self.fits(r@),
    {
        let width: usize = lattice.width;
        let height: usize = lattice.height;
        let ghost l = lattice@;
        let ghost t = self.table@;
        let ghost rule = self.config@;
        let mut cells: Vec<Vec<Cell>> = Vec::new();
        let mut y: usize = 0;
        while y < height
            invariant
                y <= height,
                self.fits(lattice@),
                l == lattice@,
                t == self.table@,
                rule == self.config@,
                width == l.width,
                height == l.height,
                cells@.len() == y,
                forall|j: int| 0 <= j < y ==> (#[trigger] cells@[j])@.len() == width,
                forall|i: int, j: int|
                    0 <= i < width && 0 <= j < y ==> (#[trigger] cells@[j]@[i])@ == next_cell(
                        l,
                        t,
                        rule,
                        i,
                        j,
                    ),
            decreases height - y,
        {
            let mut row: Vec<Cell> = Vec::new();
            let mut x: usize = 0;
            while x < width
                invariant
                    x <= width,
                    y < height,
                    self.fits(lattice@),
                    l == lattice@,
                    t == self.table@,
                    rule == self.config@,
                    width == l.width,
                    height == l.height,
                    row@.len() == x,
                    forall|i: int|
                        0 <= i < x ==> (#[trigger] row@[i])@ == next_cell(l, t, rule, i, y as int),
                decreases width - x,
            {
                let cell = lattice.cell(x, y);
                let inside: bool = 1 <= x && x < width - 1 && 1 <= y && y < height - 1;
                let radiance: Vec<u32> = match &cell.emission {
                    Some(e) => copy_flux(e),
                    None => if inside {
                        self.step_cell(lattice, x, y)
                    } else {
                        copy_flux(&cell.radiance)
                    },
                };
                let emission: Option<Vec<u32>> = match &cell.emission {
                    Some(e) => Some(copy_flux(e)),
                    None => None,
                };
                row.push(Cell { wall: cell.wall, wall_color: cell.wall_color, radiance, emission });
                x = x + 1;
            }
            cells.push(row);
            y = y + 1;
        }
        let next = Lattice { cells, width, height, directions: lattice.directions };
        proof {
            let want = advanced(l, t, rule);
            assert(next@.cells.len() == want.cells.len());
            assert forall|j: int| 0 <= j < height implies #[trigger] next@.cells[j]
                =~= want.cells[j] by {
                assert(next.cells@[j]@.len() == width);
                assert forall|i: int| 0 <= i < width implies next@.cells[j][i]
                    == want.cells[j][i] by {
                    assert(next.cells@[j]@[i]@ == next_cell(l, t, rule, i, j));
                }
            }
            assert(next@.cells =~= want.cells);
            lemma_advanced_wf(l, t, rule);
        }
        next
    }
}

/// Why a lattice could not be made or edited.
#[derive(Debug, Clone, Copy, PartialEq, Eq, Structural)]
pub enum GridError {
    /// A lattice is at least three cells wide and three cells high.
    TooSmall,
    /// There is no cell at these coordinates.
    OutOfRange,
    /// The emission has not one value for each bin of a cell.
    LengthMismatch,
    /// No transport rule is settled for mirrors.
    NotYetSpecified,
}

/// A cell with a wall painted on it: the wall and its colour are set, and the
/// cell emits no longer. What it holds stays until the next step.
pub open spec fn walled(c: CellView, kind: WallKind, color: Option<u32>) -> CellView {
    CellView { wall: kind, wall_color: color, radiance: c.radiance, emission: None }
}

/// A cell with its emission set. A cell that is made an emitter becomes open
/// space.
pub open spec fn emitting(c: CellView, emission: Option<Seq<u32>>) -> CellView {
    CellView {
        wall: if emission.is_some() {
            WallKind::Empty
        } else {
            c.wall
        },
        wall_color: c.wall_color,
        radiance: c.radiance,
        emission,
    }
}

/// Two lattices with a stepper. Each step reads the current lattice and
/// writes the other, which then becomes the current one.
#[derive(Debug)]
pub struct DoubleBufferedGrid {
    pub stepper: Stepper,
    pub a: Lattice,
    pub b: Lattice,
    /// Whether `a` is the current lattice.
    pub parity: bool,
}

impl DoubleBufferedGrid {
    /// The current lattice.
    pub open spec fn current_view(&self) -> LatticeView {
        if self.parity {
            self.a@
        } else {
            self.b@
        }
    }

    /// The lattice that the next step writes.
    pub open spec fn other_view(&self) -> LatticeView {
        if self.parity {
            self.b@
        } else {
            self.a@
        }
    }

    /// Whether both lattices are well formed, of one size, and fit the
    /// stepper.
    pub open spec fn wf(&self) -> bool {
        &&& self.stepper.fits(self.a@)
        &&& self.stepper.fits(self.b@)
        &&& self.a@.width == self.b@.width
        &&& self.a@.height == self.b@.height
    }

    /// A dark grid of open cells for the given table and settings, or
    /// `TooSmall` where the lattice would be less than three cells wide or
    /// high.
    pub fn new(width: usize, height: usize, table: GatherData, config: StepConfig) -> (r: Result<
        DoubleBufferedGrid,
        GridError,
    >)
        requires
            table.wf(),
            config.wf(table@.directions()),
        ensures
            (width < 3 || height < 3) ==> r is Err && r->Err_0 == GridError::TooSmall,
            (3 <= width && 3 <= height) ==> {
                &&& r is Ok
                &&& r->Ok_0.wf()
                &&& r->Ok_0.stepper.table == table
                &&& r->Ok_0.stepper.config == config
                &&& !r->Ok_0.parity
                &&& r->Ok_0.other_view() == r->Ok_0.current_view()
                &&& r->Ok_0.current_view().width == width
                &&& r->Ok_0.current_view().height == height
                &&& forall|x: int, y: int|
                    0 <= x < width && 0 <= y < height ==> {
                        let c = #[trigger] r->Ok_0.current_view().cells[y][x];
                        &&& c.wall == WallKind::Empty
                        &&& c.wall_color.is_none()
                        &&& c.emission.is_none()
                        &&& forall|k: int|
                            0 <= k < 4 * table@.directions() ==> #[trigger] c.radiance[k] == 0
                    }
            },
    {
        let directions: u32 = table.directions();
        let a = Lattice::new(width, height, directions);
        let b = Lattice::new(width, height, directions);
        match (a, b) {
            (Some(a), Some(b)) => {
                let stepper = Stepper::new(table, config);
                proof {
                    assert forall|y: int| 0 <= y < height implies #[trigger] a@.cells[y]
                        =~= b@.cells[y] by {
                        assert(a@.cells[y].len() == width);
                        assert(b@.cells[y].len() == width);
                        assert forall|x: int| 0 <= x < width implies a@.cells[y][x]
                            == b@.cells[y][x] by {
                            let ca = a@.cells[y][x];
                            let cb = b@.cells[y][x];
                            assert(ca.wf(directions as int));
                            assert(cb.wf(directions as int));
                            assert(ca.radiance =~= cb.radiance);
                        }
                    }
                    assert(a@.cells =~= b@.cells);
                }
                Ok(DoubleBufferedGrid { stepper, a, b, parity: false })
            },
            _ => Err(GridError::TooSmall),
        }
    }

    /// The current lattice, for reading.
    pub fn current(&self) -> (r: &Lattice)
        requires
            self.wf(),
        ensures
            r@ == self.current_view(),
            r.wf(),
    {
        if self.parity {
            &self.a
        } else {
            &self.b
        }
    }

    /// Advances the grid by one step: the other lattice is overwritten with
    /// the step of the current one and becomes the current one. The lattice
    /// that was current is left as it was.
    pub fn step(&mut self)
        requires
            old(self).wf(),
        ensures
            final(self).wf(),
            final(self).current_view() == advanced(
                old(self).current_view(),
                old(self).stepper.table@,
                old(self).stepper.config@,
            ),
            final(self).other_view() == old(self).current_view(),
            final(self).parity == !old(self).parity,
            final(self).stepper == old(self).stepper,
    {
        if self.parity {
            let next = self.stepper.advance(&self.a);
            self.b = next;
        } else {
            let next = self.stepper.advance(&self.b);
            self.a = next;
        }
        self.parity = !self.parity;
    }

    /// Paints a wall on the cell `(x, y)` of the current lattice, and stops
    /// the cell from emitting. Coordinates outside the lattice and the kind
    /// `Reflect` are refused, and then nothing changes.
    pub fn set_wall(&mut self, x: usize, y: usize, kind: WallKind, color: Option<u32>) -> (r:
        Result<(), GridError>)
        requires
            old(self).wf(),
        ensures
            final(self).wf(),
            final(self).stepper == old(self).stepper,
            final(self).parity == old(self).parity,
            final(self).other_view() == old(self).other_view(),
            !old(self).current_view().contains(x as int, y as int) ==> r == Err::<(), GridError>(
                GridError::OutOfRange,
            ),
            old(self).current_view().contains(x as int, y as int) && kind == WallKind::Reflect
                ==> r == Err::<(), GridError>(GridError::NotYetSpecified),
            old(self).current_view().contains(x as int, y as int) && kind != WallKind::Reflect
                ==> r is Ok,
            r is Err ==> final(self).current_view() == old(self).current_view(),
            r is Ok ==> final(self).current_view() == old(self).current_view().with_cell(
                x as int,
                y as int,
                walled(old(self).current_view().cells[y as int][x as int], kind, color),
            ),
    {
        let current = self.current();
        if x >= current.width || y >= current.height {
            return Err(GridError::OutOfRange);
        }
        match kind {
            WallKind::Reflect => {
                return Err(GridError::NotYetSpecified);
            },
            _ => {},
        }
        let radiance: Vec<u32> = copy_flux(&current.cell(x, y).radiance);
        let cell = Cell { wall: kind, wall_color: color, radiance, emission: None };
        if self.parity {
            self.a.put(x, y, cell);
        } else {
            self.b.put(x, y, cell);
        }
        Ok(())
    }

    /// Sets or clears the emission of the cell `(x, y)` of the current
    /// lattice. A cell that is given an emission becomes open space, and
    /// holds the emission from the next step on. Coordinates outside the
    /// lattice and an emission that has not one value for each bin are
    /// refused, and then nothing changes.
    pub fn set_emission(&mut self, x: usize, y: usize, emission: Option<Vec<u32>>) -> (r: Result<
        (),
        GridError,
    >)
        requires
            old(self).wf(),
        ensures
            final(self).wf(),
            final(self).stepper == old(self).stepper,
            final(self).parity == old(self).parity,
            final(self).other_view() == old(self).other_view(),
            !old(self).current_view().contains(x as int, y as int) ==> r == Err::<(), GridError>(
                GridError::OutOfRange,
            ),
            old(self).current_view().contains(x as int, y as int) && emission_misfit(
                emission,
                old(self).current_view().directions,
            ) ==> r == Err::<(), GridError>(GridError::LengthMismatch),
            old(self).current_view().contains(x as int, y as int) && !emission_misfit(
                emission,
                old(self).current_view().directions,
            ) ==> r is Ok,
            r is Err ==> final(self).current_view() == old(self).current_view(),
            r is Ok ==> final(self).current_view() == old(self).current_view().with_cell(
                x as int,
                y as int,
                emitting(
                    old(self).current_view().cells[y as int][x as int],
                    emission_view(emission),
                ),
            ),
    {
        let current = self.current();
        if x >= current.width || y >= current.height {
            return Err(GridError::OutOfRange);
        }
        let bins: usize = 4 * (current.directions as usize);
        let old_cell = current.cell(x, y);
        let radiance: Vec<u32> = copy_flux(&old_cell.radiance);
        let cell = match emission {
            Some(e) => {
                if e.len() != bins {
                    return Err(GridError::LengthMismatch);
                }
                Cell {
                    wall: WallKind::Empty,
                    wall_color: old_cell.wall_color,
                    radiance,
                    emission: Some(e),
                }
            },
            None => Cell {
                wall: old_cell.wall,
                wall_color: old_cell.wall_color,
                radiance,
                emission: None,
            },
        };
        if self.parity {
            self.a.put(x, y, cell);
        } else {
            self.b.put(x, y, cell);
        }
        Ok(())
    }
}

/// Whether an emission has not one value for each bin of a cell.
pub open spec fn emission_misfit(emission: Option<Vec<u32>>, directions: int) -> bool {
    match emission {
        Some(e) => e@.len() != 4 * directions,
        None => false,
    }
}

/// What an emission holds.
pub open spec fn emission_view(emission: Option<Vec<u32>>) -> Option<Seq<u32>> {
    match emission {
        Some(e) => Some(e@),
        None => None,
    }
}

/// How bright an absorbing wall is drawn.
pub const ABSORB_SHADE: u32 = 200_000;

/// How much brighter than its flux a diffuse wall is drawn.
pub const DIFFUSE_SHADE: u32 = 100_000;

/// How bright a cell is drawn: an absorbing wall in `ABSORB_SHADE`, a diffuse
/// wall `DIFFUSE_SHADE` brighter than all its flux, any other cell as bright
/// as all its flux; never brighter than the largest flux.
pub open spec fn shade(c: CellView) -> int {
    let all = crate::transport::flux_sum(c.radiance, c.radiance.len() as int);
    match c.wall {
        WallKind::Absorb => ABSORB_SHADE as int,
        WallKind::Diffuse => crate::fixed::clamp(DIFFUSE_SHADE + all),
        _ => crate::fixed::clamp(all),
    }
}

/// Computes `shade`.
pub fn shade_of(cell: &Cell) -> (r: u32)
    ensures
        r == shade(cell@),
{
    let mut all: u32 = 0;
    let mut i: usize = 0;
    while i < cell.radiance.len()
        invariant
            i <= cell.radiance@.len(),
            all == crate::fixed::clamp(crate::transport::flux_sum(cell.radiance@, i as int)),
        decreases cell.radiance@.len() - i,
    {
        proof {
            crate::transport::lemma_flux_sum_bounds(cell.radiance@, i as int);
            crate::fixed::lemma_clamp_absorbs(
                crate::transport::flux_sum(cell.radiance@, i as int),
                cell.radiance@[i as int] as int,
            );
        }
        all = crate::fixed::add_flux(all, cell.radiance[i]);
        i = i + 1;
    }
    proof {
        crate::transport::lemma_flux_sum_bounds(cell.radiance@, cell.radiance@.len() as int);
        crate::fixed::lemma_clamp_absorbs(
            crate::transport::flux_sum(cell.radiance@, cell.radiance@.len() as int),
            DIFFUSE_SHADE as int,
        );
    }
    match cell.wall {
        WallKind::Absorb => ABSORB_SHADE,
        WallKind::Diffuse => crate::fixed::add_flux(all, DIFFUSE_SHADE),
        _ => all,
    }
}

} // verus!
