//! The lattice of cells.

use vstd::prelude::*;
use crate::layout::MAX_DIRECTIONS;
use crate::wall::WallKind;

verus! {

/// One cell of the lattice.
#[derive(Debug)]
pub struct Cell {
    /// The cell's surface.
    pub wall: WallKind,
    /// The gain with which the cells beside this wall send light back, in
    /// millionths; none stands for one whole.
    pub wall_color: Option<u32>,
    /// The flux in each bin: face by face, the bins of a face in order.
    pub radiance: Vec<u32>,
    /// The flux that the cell puts out at every step, if it is an emitter.
    pub emission: Option<Vec<u32>>,
}

/// What a cell holds.
pub struct CellView {
    pub wall: WallKind,
    pub wall_color: Option<u32>,
    pub radiance: Seq<u32>,
    pub emission: Option<Seq<u32>>,
}

impl View for Cell {
    type V = CellView;

    open spec fn view(&self) -> CellView {
        CellView {
            wall: self.wall,
            wall_color: self.wall_color,
            radiance: self.radiance@,
            emission: match self.emission {
                Some(e) => Some(e@),
                None => None,
            },
        }
    }
}

impl CellView {
    /// Whether the cell fits a lattice of `directions` bins to a face: it has
    /// a flux for every bin, so has its emission, only open cells emit, and
    /// no cell is a mirror.
    pub open spec fn wf(self, directions: int) -> bool {
        &&& self.radiance.len() == 4 * directions
        &&& self.wall != WallKind::Reflect
        &&& match self.emission {
            Some(e) => e.len() == 4 * directions && self.wall == WallKind::Empty,
            None => true,
        }
    }
}

/// A rectangle of cells, row by row.
#[derive(Debug)]
pub struct Lattice {
    pub cells: Vec<Vec<Cell>>,
    pub width: usize,
    pub height: usize,
    pub directions: u32,
}

/// What a lattice holds: `cells[y][x]` is the cell in column `x` of row `y`.
pub struct LatticeView {
    pub width: int,
    pub height: int,
    pub directions: int,
    pub cells: Seq<Seq<CellView>>,
}

impl LatticeView {
    /// Whether `(x, y)` is a cell of the lattice.
    pub open spec fn contains(self, x: int, y: int) -> bool {
        0 <= x < self.width && 0 <= y < self.height
    }

    /// Whether `(x, y)` is a cell with a neighbour on every side. The others
    /// form the border, which no step updates.
    pub open spec fn interior(self, x: int, y: int) -> bool {
        1 <= x < self.width - 1 && 1 <= y < self.height - 1
    }

    /// The number of bins of a cell.
    pub open spec fn total_bins(self) -> int {
        4 * self.directions
    }

    /// Whether the lattice is at least three cells wide and high, so that it
    /// has an interior, and every cell fits it.
    pub open spec fn wf(self) -> bool {
        &&& 3 <= self.width
        &&& 3 <= self.height
        &&& 1 <= self.directions <= MAX_DIRECTIONS
        &&& self.cells.len() == self.height
        &&& forall|y: int| 0 <= y < self.height ==> (#[trigger] self.cells[y]).len() == self.width
        &&& forall|x: int, y: int|
            0 <= x < self.width && 0 <= y < self.height ==> (#[trigger] self.cells[y][x]).wf(
                self.directions,
            )
    }
}

impl View for Lattice {
    type V = LatticeView;

    open spec fn view(&self) -> LatticeView {
        LatticeView {
            width: self.width as int,
            height: self.height as int,
            directions: self.directions as int,
            cells: Seq::new(
                self.cells@.len(),
                |y: int| Seq::new(self.cells@[y]@.len(), |x: int| self.cells@[y]@[x]@),
            ),
        }
    }
}

/// A vector of `n` zeros.
pub fn dark(n: usize) -> (r: Vec<u32>)
    ensures
        r@.len() == n,
        forall|i: int| 0 <= i < n ==> #[trigger] r@[i] == 0,
{
    let mut r: Vec<u32> = Vec::new();
    let mut i: usize = 0;
    while i < n
        invariant
            i <= n,
            r@.len() == i,
            forall|j: int| 0 <= j < i ==> #[trigger] r@[j] == 0,
        decreases n - i,
    {
        r.push(0);
        i = i + 1;
    }
    r
}

/// A copy of a vector of flux.
pub fn copy_flux(v: &Vec<u32>) -> (r: Vec<u32>)
    ensures
        r@ == v@,
{
    let mut r: Vec<u32> = Vec::new();
    let mut i: usize = 0;
    while i < v.len()
        invariant
            i <= v@.len(),
            r@.len() == i,
            forall|j: int| 0 <= j < i ==> #[trigger] r@[j] == v@[j],
        decreases v@.len() - i,
    {
        r.push(v[i]);
        i = i + 1;
    }
    assert(r@ =~= v@);
    r
}

impl Lattice {
    /// Whether the lattice is well formed.
    pub open spec fn wf(&self) -> bool {
        self@.wf()
    }

    /// A dark lattice of open cells, if the measures allow one: at least
    /// three cells each way, and between one and `MAX_DIRECTIONS` bins to a
    /// face.
    pub fn new(width: usize, height: usize, directions: u32) -> (r: Option<Lattice>)
        ensures
            r.is_some() <==> (3 <= width && 3 <= height && 1 <= directions <= MAX_DIRECTIONS),
            r matches Some(l) ==> {
                &&& l.wf()
                &&& l@.width == width
                &&& l@.height == height
                &&& l@.directions == directions
                &&& forall|x: int, y: int|
                    0 <= x < width && 0 <= y < height ==> {
                        let c = #[trigger] l@.cells[y][x];
                        &&& c.wall == WallKind::Empty
                        &&& c.wall_color.is_none()
                        &&& c.emission.is_none()
                        &&& forall|b: int| 0 <= b < 4 * directions ==> #[trigger] c.radiance[b] == 0
                    }
            },
    {
        if width < 3 || height < 3 || directions < 1 || directions > MAX_DIRECTIONS {
            return None;
        }
        let bins: usize = 4 * (directions as usize);
        let mut cells: Vec<Vec<Cell>> = Vec::new();
        let mut y: usize = 0;
        while y < height
            invariant
                y <= height,
                bins == 4 * directions,
                cells@.len() == y,
                forall|j: int| 0 <= j < y ==> (#[trigger] cells@[j])@.len() == width,
                forall|i: int, j: int|
                    0 <= i < width && 0 <= j < y ==> {
                        let c = #[trigger] cells@[j]@[i];
                        &&& c.wall == WallKind::Empty
                        &&& c.wall_color.is_none()
                        &&& c.emission.is_none()
                        &&& c.radiance@.len() == bins
                        &&& forall|b: int| 0 <= b < bins ==> #[trigger] c.radiance@[b] == 0
                    },
            decreases height - y,
        {
            let mut row: Vec<Cell> = Vec::new();
            let mut x: usize = 0;
            while x < width
                invariant
                    x <= width,
                    row@.len() == x,
                    forall|i: int|
                        0 <= i < x ==> {
                            let c = #[trigger] row@[i];
                            &&& c.wall == WallKind::Empty
                            &&& c.wall_color.is_none()
                            &&& c.emission.is_none()
                            &&& c.radiance@.len() == bins
                            &&& forall|b: int| 0 <= b < bins ==> #[trigger] c.radiance@[b] == 0
                        },
                decreases width - x,
            {
                row.push(
                    Cell {
                        wall: WallKind::Empty,
                        wall_color: None,
                        radiance: dark(bins),
                        emission: None,
                    },
                );
                x = x + 1;
            }
            cells.push(row);
            y = y + 1;
        }
        let l = Lattice { cells, width, height, directions };
        assert(l@.wf()) by {
            assert forall|x: int, y: int| 0 <= x < l@.width && 0 <= y < l@.height implies (
            #[trigger] l@.cells[y][x]).wf(l@.directions) by {
                assert(l@.cells[y][x] == l.cells@[y]@[x]@);
            }
        }
        assert forall|x: int, y: int| 0 <= x < width && 0 <= y < height implies {
            let c = #[trigger] l@.cells[y][x];
            &&& c.wall == WallKind::Empty
            &&& c.wall_color.is_none()
            &&& c.emission.is_none()
            &&& forall|b: int| 0 <= b < 4 * directions ==> #[trigger] c.radiance[b] == 0
        } by {
            assert(l@.cells[y][x] == l.cells@[y]@[x]@);
        }
        Some(l)
    }

    /// The cell in column `x` of row `y`.
    pub fn cell(&self, x: usize, y: usize) -> (r: &Cell)
        requires
            self.wf(),
            self@.contains(x as int, y as int),
        ensures
            r@ == self@.cells[y as int][x as int],
            r@.wf(self@.directions),
    {
        assert(self@.cells[y as int].len() == self@.width);
        assert(self@.cells[y as int][x as int].wf(self@.directions));
        &self.cells[y][x]
    }

    /// Puts `cell` in column `x` of row `y`.
    pub fn put(&mut self, x: usize, y: usize, cell: Cell)
        requires
            old(self).wf(),
            old(self)@.contains(x as int, y as int),
            cell@.wf(old(self)@.directions),
        ensures
            final(self).wf(),
            final(self)@ == old(self)@.with_cell(x as int, y as int, cell@),
    {
        assert(self@.cells[y as int].len() == self@.width);
        let ghost before = self@;
        self.cells[y][x] = cell;
        proof {
            let after = self@;
            let want = before.with_cell(x as int, y as int, cell@);
            assert(after.cells.len() == want.cells.len());
            assert forall|j: int| 0 <= j < after.cells.len() implies #[trigger] after.cells[j]
                =~= want.cells[j] by {
                if j != y {
                    assert(want.cells[j] == before.cells[j]);
                }
            }
            assert(after.cells =~= want.cells);
            assert forall|i: int, j: int|
                0 <= i < after.width && 0 <= j < after.height implies (
            #[trigger] after.cells[j][i]).wf(after.directions) by {
                if i == x && j == y {
                } else {
                    assert(after.cells[j][i] == before.cells[j][i]);
                }
            }
        }
    }
}

impl LatticeView {
    /// The lattice with `cell` in column `x` of row `y`.
    pub open spec fn with_cell(self, x: int, y: int, cell: CellView) -> LatticeView {
        LatticeView {
            width: self.width,
            height: self.height,
            directions: self.directions,
            cells: self.cells.update(y, self.cells[y].update(x, cell)),
        }
    }
}

} // verus!
