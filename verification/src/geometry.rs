//! Lattice offsets and the four faces of a cell.

use vstd::prelude::*;

verus! {

/// A step between lattice cells, or the difference of two positions.
#[derive(Debug, Clone, Copy, PartialEq, Eq, Structural)]
pub struct Offset {
    pub x: i32,
    pub y: i32,
}

/// One of the four sides of a cell. The gather table is written for `PlusX`;
/// the other three are quarter turns of it.
#[derive(Debug, Clone, Copy, PartialEq, Eq, Structural)]
pub enum Face {
    PlusX,
    MinusY,
    MinusX,
    PlusY,
}

/// The offset `dir`, written for the face `PlusX`, as the face `face` sees it.
pub open spec fn rotated(face: Face, dir: Offset) -> Offset {
    match face {
        Face::PlusX => dir,
        Face::MinusY => Offset { x: dir.y, y: (-dir.x) as i32 },
        Face::MinusX => Offset { x: (-dir.x) as i32, y: (-dir.y) as i32 },
        Face::PlusY => Offset { x: (-dir.y) as i32, y: dir.x },
    }
}

/// The offset that undoes `dir`.
pub open spec fn opposite(dir: Offset) -> Offset {
    Offset { x: (-dir.x) as i32, y: (-dir.y) as i32 }
}

/// Whether `dir` leads to one of the four cells that share an edge with a cell.
pub open spec fn is_unit(dir: Offset) -> bool {
    ||| (dir.x == 1 && dir.y == 0)
    ||| (dir.x == -1 && dir.y == 0)
    ||| (dir.x == 0 && dir.y == 1)
    ||| (dir.x == 0 && dir.y == -1)
}

/// Negates an offset through glam: `IVec2::new` makes the vector of the two
/// components, and glam's `Neg` for `IVec2` negates each component with the
/// integer's own negation. The smallest `i32` has no negation and is left
/// out.
#[verifier::external_body]
fn negated(dir: Offset) -> (r: Offset)
    requires
        dir.x > i32::MIN,
        dir.y > i32::MIN,
    ensures
        r.x == -dir.x,
        r.y == -dir.y,
{
    let v = -glam::IVec2::new(dir.x, dir.y);
    Offset { x: v.x, y: v.y }
}

/// Adds two offsets through glam: `IVec2::new` makes the two vectors, and
/// glam's `Add` for `IVec2` adds them component by component with the
/// integer's own addition. Sums outside `i32` are left out.
#[verifier::external_body]
fn added(a: Offset, b: Offset) -> (r: Offset)
    requires
        i32::MIN <= a.x + b.x <= i32::MAX,
        i32::MIN <= a.y + b.y <= i32::MAX,
    ensures
        r.x == a.x + b.x,
        r.y == a.y + b.y,
{
    let v = glam::IVec2::new(a.x, a.y) + glam::IVec2::new(b.x, b.y);
    Offset { x: v.x, y: v.y }
}

impl Face {
    /// The number of quarter turns that take `PlusX` to this face.
    pub open spec fn spec_index(self) -> int {
        match self {
            Face::PlusX => 0,
            Face::MinusY => 1,
            Face::MinusX => 2,
            Face::PlusY => 3,
        }
    }

    /// The face that `turns` quarter turns take `PlusX` to.
    pub open spec fn spec_from_index(turns: int) -> Face {
        if turns == 0 {
            Face::PlusX
        } else if turns == 1 {
            Face::MinusY
        } else if turns == 2 {
            Face::MinusX
        } else {
            Face::PlusY
        }
    }

    /// The number of quarter turns that take `PlusX` to this face.
    pub fn index(self) -> (r: u32)
        ensures
            r == self.spec_index(),
            r < 4,
    {
        match self {
            Face::PlusX => 0,
            Face::MinusY => 1,
            Face::MinusX => 2,
            Face::PlusY => 3,
        }
    }

    /// The face with the given index, if there is one.
    pub fn from_index(turns: u32) -> (r: Option<Face>)
        ensures
            turns < 4 ==> r == Some(Face::spec_from_index(turns as int)),
            turns >= 4 ==> r.is_none(),
    {
        match turns {
            0 => Some(Face::PlusX),
            1 => Some(Face::MinusY),
            2 => Some(Face::MinusX),
            3 => Some(Face::PlusY),
            _ => None,
        }
    }
}

/// Every face is the face of its own index.
pub proof fn lemma_face_index_round_trip(face: Face)
    ensures
        0 <= face.spec_index() < 4,
        Face::spec_from_index(face.spec_index()) == face,
{
}

/// Turns the offset `dir`, written for the face `PlusX`, onto `face`.
pub fn rotate(face: Face, dir: Offset) -> (r: Offset)
    requires
        dir.x > i32::MIN,
        dir.y > i32::MIN,
    ensures
        r == rotated(face, dir),
{
    match face {
        Face::PlusX => dir,
        Face::MinusY => Offset { x: dir.y, y: -dir.x },
        Face::MinusX => negated(dir),
        Face::PlusY => Offset { x: -dir.y, y: dir.x },
    }
}

/// Whether stepping by `a` and then by `b` leads back to the start.
pub fn cancels(a: Offset, b: Offset) -> (r: bool)
    requires
        i32::MIN <= a.x + b.x <= i32::MAX,
        i32::MIN <= a.y + b.y <= i32::MAX,
    ensures
        r == (a.x + b.x == 0 && a.y + b.y == 0),
{
    let sum = added(a, b);
    sum.x == 0 && sum.y == 0
}

/// The step from a cell to the neighbour across `face`.
pub open spec fn face_normal(face: Face) -> Offset {
    rotated(face, Offset { x: 1, y: 0 })
}

} // verus!
