//! What a cell does to the light that reaches it.

use vstd::prelude::*;

verus! {

/// The surface of a cell.
#[derive(Debug, Clone, Copy, PartialEq, Eq, Structural)]
pub enum WallKind {
    /// Open space: light passes.
    Empty,
    /// Swallows all light.
    Absorb,
    /// Opaque to ordinary transport; the cells beside it send back, tinted,
    /// what they would have sent into it.
    Diffuse,
    /// Scatters what it gathers evenly over all bins.
    Blur,
    /// Lets light pass, and makes the cells beside it send back, tinted, what
    /// they send into it.
    Tint,
    /// A mirror. No transport rule is settled for it, so no cell can be given
    /// this kind.
    Reflect,
}

/// The code of an absorbing wall.
pub const WALL_ABSORB: u32 = 0b01;

/// The code of a blurring wall.
pub const WALL_BLUR: u32 = 0b100;

/// The code of a diffuse wall.
pub const WALL_DIFFUSE: u32 = 0b10000;

impl WallKind {
    /// Whether the cells beside a wall of this kind send light back from it.
    pub open spec fn reemits(self) -> bool {
        self == WallKind::Diffuse || self == WallKind::Tint
    }

    /// Decides `reemits`.
    pub fn is_reemitting(self) -> (r: bool)
        ensures
            r == self.reemits(),
    {
        match self {
            WallKind::Diffuse => true,
            WallKind::Tint => true,
            _ => false,
        }
    }

    /// Whether a cell of this kind reads a neighbour of the kind `neighbor` in
    /// ordinary transport. Only a diffuse neighbour is left out, and only by
    /// cells that are not diffuse themselves.
    pub open spec fn reads(self, neighbor: WallKind) -> bool {
        self == WallKind::Diffuse || neighbor != WallKind::Diffuse
    }

    /// Decides `reads`.
    pub fn is_reading(self, neighbor: WallKind) -> (r: bool)
        ensures
            r == self.reads(neighbor),
    {
        match self {
            WallKind::Diffuse => true,
            _ => match neighbor {
                WallKind::Diffuse => false,
                _ => true,
            },
        }
    }
}

/// The wall that the editing tool paints.
#[derive(Debug, Clone, Copy, PartialEq, Eq, Structural)]
pub enum Writer {
    Empty,
    Absorb,
    Blur,
    Diffuse,
}

impl Writer {
    /// The code of the wall that the tool paints.
    pub open spec fn spec_wall(&self) -> u32 {
        match self {
            Writer::Empty => 0,
            Writer::Absorb => WALL_ABSORB,
            Writer::Blur => WALL_BLUR,
            Writer::Diffuse => WALL_DIFFUSE,
        }
    }

    /// The kind of the wall that the tool paints.
    pub open spec fn spec_kind(&self) -> WallKind {
        match self {
            Writer::Empty => WallKind::Empty,
            Writer::Absorb => WallKind::Absorb,
            Writer::Blur => WallKind::Blur,
            Writer::Diffuse => WallKind::Diffuse,
        }
    }

    /// The code of the wall that the tool paints.
    pub fn wall(&self) -> (r: u32)
        ensures
            r == self.spec_wall(),
    {
        match self {
            Self::Empty => 0,
            Self::Absorb => WALL_ABSORB,
            Self::Blur => WALL_BLUR,
            Self::Diffuse => WALL_DIFFUSE,
        }
    }

    /// The kind of the wall that the tool paints.
    pub fn kind(&self) -> (r: WallKind)
        ensures
            r == self.spec_kind(),
    {
        match self {
            Self::Empty => WallKind::Empty,
            Self::Absorb => WallKind::Absorb,
            Self::Blur => WallKind::Blur,
            Self::Diffuse => WallKind::Diffuse,
        }
    }
}

/// The kind of wall that a code stands for.
pub open spec fn kind_of_code(code: u32) -> Option<WallKind> {
    if code == 0 {
        Some(WallKind::Empty)
    } else if code == WALL_ABSORB {
        Some(WallKind::Absorb)
    } else if code == WALL_BLUR {
        Some(WallKind::Blur)
    } else if code == WALL_DIFFUSE {
        Some(WallKind::Diffuse)
    } else {
        None
    }
}

/// The kind of wall that a code stands for, if it stands for one.
pub fn wall_kind(code: u32) -> (r: Option<WallKind>)
    ensures
        r == kind_of_code(code),
{
    if code == 0 {
        Some(WallKind::Empty)
    } else if code == WALL_ABSORB {
        Some(WallKind::Absorb)
    } else if code == WALL_BLUR {
        Some(WallKind::Blur)
    } else if code == WALL_DIFFUSE {
        Some(WallKind::Diffuse)
    } else {
        None
    }
}

/// The code that a tool paints stands for the kind that it paints.
pub proof fn lemma_writer_code_is_kind(writer: Writer)
    ensures
        kind_of_code(writer.spec_wall()) == Some(writer.spec_kind()),
{
}

} // verus!
