//! The editing tool: which wall it paints, how bright it lights, and what an
//! input makes of it.

use vstd::prelude::*;
use crate::fixed::UNIT;
use crate::grid::{DoubleBufferedGrid, GridError};
use crate::lattice::LatticeView;
use crate::wall::{WallKind, Writer};

verus! {

/// How much one key press changes the brightness of the light.
pub const LIGHT_STEP: u32 = 100_000;

/// A cell is `2^SCALE_POWER` pixels wide and high on the screen.
pub const SCALE_POWER: u32 = 5;

/// The brightness of the light when the tool is taken up.
pub const FIRST_EMISSION: u32 = 300_000;

/// The colour that painted walls get.
pub const PAINT_COLOR: u32 = 900_000;

/// What the keys are for at the moment.
#[derive(Debug, Clone, Copy, PartialEq, Eq, Structural)]
pub enum State {
    /// Keys choose the wall to paint.
    Normal,
    /// Keys change the brightness of the light.
    UpdatingLight,
}

/// The keys that the tool knows, and all others as one.
#[derive(Debug, Clone, Copy, PartialEq, Eq, Structural)]
pub enum Key {
    L,
    E,
    A,
    B,
    D,
    ArrowUp,
    ArrowDown,
    Escape,
    Other,
}

/// The editing tool.
#[derive(Debug, Clone, Copy, PartialEq, Eq, Structural)]
pub struct Editor {
    pub state: State,
    pub writer: Writer,
    /// The brightness of the light that the tool places, in millionths.
    pub emission: u32,
}

/// What the tool asks of the grid.
#[derive(Debug, Clone, Copy, PartialEq, Eq, Structural)]
pub enum Edit {
    /// Nothing.
    Idle,
    /// Make the cell an emitter of `level` in every bin.
    Emit { x: u32, y: u32, level: u32 },
    /// Paint the wall on the cell.
    Paint { x: u32, y: u32, wall: WallKind, color: u32 },
}

impl Editor {
    /// The tool after a key was pressed. In the state `Normal`, `L` turns to
    /// the light and `E`, `A`, `B`, `D` choose the wall. In the state
    /// `UpdatingLight`, the arrows change the brightness by `LIGHT_STEP`,
    /// never below nothing nor above what a `u32` holds, and `Escape` turns
    /// back. Every other key leaves the tool as it is.
    pub open spec fn after_key(self, key: Key) -> Editor {
        match self.state {
            State::Normal => match key {
                Key::L => Editor { state: State::UpdatingLight, ..self },
                Key::E => Editor { writer: Writer::Empty, ..self },
                Key::A => Editor { writer: Writer::Absorb, ..self },
                Key::B => Editor { writer: Writer::Blur, ..self },
                Key::D => Editor { writer: Writer::Diffuse, ..self },
                _ => self,
            },
            State::UpdatingLight => match key {
                Key::ArrowUp => Editor {
                    emission: if self.emission + LIGHT_STEP > u32::MAX {
                        u32::MAX
                    } else {
                        (self.emission + LIGHT_STEP) as u32
                    },
                    ..self
                },
                Key::ArrowDown => Editor {
                    emission: if self.emission < LIGHT_STEP {
                        0
                    } else {
                        (self.emission - LIGHT_STEP) as u32
                    },
                    ..self
                },
                Key::Escape => Editor { state: State::Normal, ..self },
                _ => self,
            },
        }
    }

    /// What the tool asks for when the pointer is at the pixel `(px, py)`
    /// with the given buttons held. The right button places a light, and
    /// comes first; the left button paints the chosen wall, open space in
    /// full colour and every wall in `PAINT_COLOR`.
    pub open spec fn edit_at(self, left: bool, right: bool, px: u32, py: u32) -> Edit {
        let x = px >> SCALE_POWER;
        let y = py >> SCALE_POWER;
        if right {
            Edit::Emit { x, y, level: self.emission }
        } else if left {
            Edit::Paint {
                x,
                y,
                wall: self.writer.spec_kind(),
                color: if self.writer == Writer::Empty {
                    UNIT
                } else {
                    PAINT_COLOR
                },
            }
        } else {
            Edit::Idle
        }
    }

    /// The tool as it is taken up: painting absorbing walls.
    pub fn new() -> (r: Editor)
        ensures
            r == (Editor {
                state: State::Normal,
                writer: Writer::Absorb,
                emission: FIRST_EMISSION,
            }),
    {
        Editor { state: State::Normal, writer: Writer::Absorb, emission: FIRST_EMISSION }
    }

    /// Takes a key press.
    pub fn press(&mut self, key: Key)
        ensures
            *final(self) == old(self).after_key(key),
    {
        match self.state {
            State::Normal => match key {
                Key::L => {
                    self.state = State::UpdatingLight;
                },
                Key::E => {
                    self.writer = Writer::Empty;
                },
                Key::A => {
                    self.writer = Writer::Absorb;
                },
                Key::B => {
                    self.writer = Writer::Blur;
                },
                Key::D => {
                    self.writer = Writer::Diffuse;
                },
                _ => {},
            },
            State::UpdatingLight => match key {
                Key::ArrowUp => {
                    self.emission = if self.emission > u32::MAX - LIGHT_STEP {
                        u32::MAX
                    } else {
                        self.emission + LIGHT_STEP
                    };
                },
                Key::ArrowDown => {
                    self.emission = if self.emission < LIGHT_STEP {
                        0
                    } else {
                        self.emission - LIGHT_STEP
                    };
                },
                Key::Escape => {
                    self.state = State::Normal;
                },
                _ => {},
            },
        }
    }

    /// Computes `edit_at`.
    pub fn edit(&self, left: bool, right: bool, px: u32, py: u32) -> (r: Edit)
        ensures
            r == self.edit_at(left, right, px, py),
    {
        let x: u32 = px >> SCALE_POWER;
        let y: u32 = py >> SCALE_POWER;
        if right {
            Edit::Emit { x, y, level: self.emission }
        } else if left {
            let color: u32 = match self.writer {
                Writer::Empty => UNIT,
                _ => PAINT_COLOR,
            };
            Edit::Paint { x, y, wall: self.writer.kind(), color }
        } else {
            Edit::Idle
        }
    }
}

/// A vector of `n` times `level`.
pub fn even_light(level: u32, n: usize) -> (r: Vec<u32>)
    ensures
        r@ == Seq::new(n as nat, |i: int| level),
{
    let mut r: Vec<u32> = Vec::new();
    let mut i: usize = 0;
    while i < n
        invariant
            i <= n,
            r@.len() == i,
            forall|j: int| 0 <= j < i ==> #[trigger] r@[j] == level,
        decreases n - i,
    {
        r.push(level);
        i = i + 1;
    }
    assert(r@ =~= Seq::new(n as nat, |i: int| level));
    r
}

/// The current lattice after an edit: a light in every bin of the cell, or a
/// wall on it.
pub open spec fn edited(l: LatticeView, edit: Edit) -> LatticeView {
    match edit {
        Edit::Idle => l,
        Edit::Emit { x, y, level } => l.with_cell(
            x as int,
            y as int,
            crate::grid::emitting(
                l.cells[y as int][x as int],
                Some(Seq::new((4 * l.directions) as nat, |i: int| level)),
            ),
        ),
        Edit::Paint { x, y, wall, color } => l.with_cell(
            x as int,
            y as int,
            crate::grid::walled(l.cells[y as int][x as int], wall, Some(color)),
        ),
    }
}

/// Why an edit cannot be done on a lattice, if it cannot: it names no cell of
/// the lattice, or it paints a mirror.
pub open spec fn edit_fault(l: LatticeView, edit: Edit) -> Option<GridError> {
    match edit {
        Edit::Idle => None,
        Edit::Emit { x, y, level } => if l.contains(x as int, y as int) {
            None
        } else {
            Some(GridError::OutOfRange)
        },
        Edit::Paint { x, y, wall, color } => if !l.contains(x as int, y as int) {
            Some(GridError::OutOfRange)
        } else if wall == WallKind::Reflect {
            Some(GridError::NotYetSpecified)
        } else {
            None
        },
    }
}

/// No edit that the tool asks for paints a mirror.
pub proof fn lemma_tool_paints_no_mirror(editor: Editor, left: bool, right: bool, px: u32, py: u32)
    ensures
        editor.edit_at(left, right, px, py) matches Edit::Paint { wall, .. } ==> wall
            != WallKind::Reflect,
{
}

/// Does to the current lattice what the tool asks for. An edit that cannot
/// be done is refused, and then nothing changes.
pub fn apply_edit(grid: &mut DoubleBufferedGrid, edit: Edit) -> (r: Result<(), GridError>)
    requires
        old(grid).wf(),
    ensures
        final(grid).wf(),
        final(grid).stepper == old(grid).stepper,
        final(grid).parity == old(grid).parity,
        final(grid).other_view() == old(grid).other_view(),
        match edit_fault(old(grid).current_view(), edit) {
            Some(e) => r == Err::<(), GridError>(e) && final(grid).current_view() == old(
                grid,
            ).current_view(),
            None => r is Ok && final(grid).current_view() == edited(
                old(grid).current_view(),
                edit,
            ),
        },
{
    match edit {
        Edit::Idle => Ok(()),
        Edit::Emit { x, y, level } => {
            let bins: usize = 4 * (grid.current().directions as usize);
            let light: Vec<u32> = even_light(level, bins);
            grid.set_emission(x as usize, y as usize, Some(light))
        },
        Edit::Paint { x, y, wall, color } => grid.set_wall(
            x as usize,
            y as usize,
            wall,
            Some(color),
        ),
    }
}

} // verus!
