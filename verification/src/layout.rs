//! The discretization of directions: how many bins a face has, and the
//! nominal angle and blur of each.

use vstd::prelude::*;
use crate::fixed::{lemma_quotient_below, UNIT};

verus! {

/// The most bins a face can have: four faces of them must still be counted in
/// a `u32`.
pub const MAX_DIRECTIONS: u32 = 0x3fff_ffff;

/// A quarter of a half turn, in millionths of a radian.
pub const EIGHTH_TURN: i64 = 785_398;

/// A direction relative to a face's normal, held as the cosine and the sine of
/// its angle, both in millionths. Tangent and quarter turns of the angle are
/// then integer arithmetic.
#[derive(Debug, Clone, Copy, PartialEq, Eq, Structural)]
pub struct Angle {
    pub cos: i32,
    pub sin: i32,
}

impl Angle {
    /// Whether the angle lies within 45 degrees of the face's normal.
    pub open spec fn in_view(self) -> bool {
        &&& 0 < self.cos <= UNIT
        &&& -self.cos <= self.sin <= self.cos
    }

    /// Whether `self` is a strictly smaller angle than `next`, for two angles
    /// in view: the turn from `self` to `next` is counter-clockwise.
    pub open spec fn precedes(self, next: Angle) -> bool {
        self.cos * next.sin - self.sin * next.cos > 0
    }

    /// Decides `in_view`.
    pub fn is_in_view(&self) -> (r: bool)
        ensures
            r == self.in_view(),
    {
        0 < self.cos && self.cos <= UNIT as i32 && -self.cos <= self.sin && self.sin <= self.cos
    }

    /// Decides `precedes`.
    pub fn is_before(&self, next: &Angle) -> (r: bool)
        ensures
            r == self.precedes(*next),
    {
        let a: i64 = self.cos as i64;
        let b: i64 = next.sin as i64;
        let c: i64 = self.sin as i64;
        let d: i64 = next.cos as i64;
        assert(-0x4000_0000_0000_0000 <= a * b <= 0x4000_0000_0000_0000) by (nonlinear_arith)
            requires
                -0x8000_0000 <= a <= 0x8000_0000,
                -0x8000_0000 <= b <= 0x8000_0000,
        ;
        assert(-0x4000_0000_0000_0000 <= c * d <= 0x4000_0000_0000_0000) by (nonlinear_arith)
            requires
                -0x8000_0000 <= c <= 0x8000_0000,
                -0x8000_0000 <= d <= 0x8000_0000,
        ;
        a * b > c * d
    }
}

/// Why a set of bins is no layout.
#[derive(Debug, Clone, Copy, PartialEq, Eq, Structural)]
pub enum LayoutError {
    /// A face needs at least one bin.
    NoDirections,
    /// More bins than `MAX_DIRECTIONS`.
    TooManyDirections,
    /// The angles or the blurs are not one per bin.
    LengthMismatch,
    /// The angle of this bin lies outside the face's field of view.
    OutOfView { bin: u32 },
    /// The blur of this bin is a half or more.
    BlurOutOfRange { bin: u32 },
    /// The angle of this bin is not larger than that of the bin before it.
    NotIncreasing { bin: u32 },
}

/// What is wrong with bin `i`, taken with the bin before it.
pub open spec fn bin_fault(angles: Seq<Angle>, blurs: Seq<u32>, i: int) -> Option<LayoutError> {
    if !angles[i].in_view() {
        Some(LayoutError::OutOfView { bin: i as u32 })
    } else if blurs[i] >= UNIT / 2 {
        Some(LayoutError::BlurOutOfRange { bin: i as u32 })
    } else if i > 0 && !angles[i - 1].precedes(angles[i]) {
        Some(LayoutError::NotIncreasing { bin: i as u32 })
    } else {
        None
    }
}

/// The fault of the first faulty bin among the first `n`.
pub open spec fn first_bin_fault(angles: Seq<Angle>, blurs: Seq<u32>, n: int) -> Option<
    LayoutError,
>
    decreases n,
{
    if n <= 0 {
        None
    } else {
        match first_bin_fault(angles, blurs, n - 1) {
            Some(e) => Some(e),
            None => bin_fault(angles, blurs, n - 1),
        }
    }
}

/// What is wrong with a layout of `directions` bins, if anything.
pub open spec fn layout_fault(directions: int, angles: Seq<Angle>, blurs: Seq<u32>) -> Option<
    LayoutError,
> {
    if directions == 0 {
        Some(LayoutError::NoDirections)
    } else if directions > MAX_DIRECTIONS {
        Some(LayoutError::TooManyDirections)
    } else if angles.len() != directions || blurs.len() != directions {
        Some(LayoutError::LengthMismatch)
    } else {
        first_bin_fault(angles, blurs, directions)
    }
}

/// The bins of one face: strictly increasing angles within the field of view,
/// each with the fraction of its flux that leaks sideways.
pub open spec fn valid_layout(angles: Seq<Angle>, blurs: Seq<u32>) -> bool {
    &&& 1 <= angles.len() <= MAX_DIRECTIONS
    &&& blurs.len() == angles.len()
    &&& forall|i: int| 0 <= i < angles.len() ==> (#[trigger] angles[i]).in_view()
    &&& forall|i: int| 0 <= i < blurs.len() ==> #[trigger] blurs[i] < UNIT / 2
    &&& forall|i: int| 0 < i < angles.len() ==> angles[i - 1].precedes(#[trigger] angles[i])
}

/// A layout has no fault exactly when it is valid.
pub proof fn lemma_fault_free_is_valid(angles: Seq<Angle>, blurs: Seq<u32>)
    ensures
        layout_fault(angles.len() as int, angles, blurs).is_none() <==> valid_layout(
            angles,
            blurs,
        ),
{
    if 1 <= angles.len() <= MAX_DIRECTIONS && blurs.len() == angles.len() {
        let n = angles.len() as int;
        lemma_no_bin_fault(angles, blurs, n);
        if first_bin_fault(angles, blurs, n).is_none() {
            assert forall|i: int| 0 <= i < n implies (#[trigger] angles[i]).in_view() by {
                assert(bin_fault(angles, blurs, i).is_none());
            }
            assert forall|i: int| 0 <= i < n implies #[trigger] blurs[i] < UNIT / 2 by {
                assert(bin_fault(angles, blurs, i).is_none());
            }
            assert forall|i: int| 0 < i < n implies angles[i - 1].precedes(
                #[trigger] angles[i],
            ) by {
                assert(bin_fault(angles, blurs, i).is_none());
            }
        }
        if valid_layout(angles, blurs) {
            assert forall|i: int| 0 <= i < n implies (#[trigger] bin_fault(
                angles,
                blurs,
                i,
            )).is_none() by {
                assert(angles[i].in_view());
                assert(blurs[i] < UNIT / 2);
            }
        }
    }
}

/// The first `n` bins are free of faults exactly when each of them is.
pub proof fn lemma_no_bin_fault(angles: Seq<Angle>, blurs: Seq<u32>, n: int)
    requires
        0 <= n <= angles.len(),
        angles.len() == blurs.len(),
    ensures
        first_bin_fault(angles, blurs, n).is_none() <==> (forall|i: int|
            0 <= i < n ==> (#[trigger] bin_fault(angles, blurs, i)).is_none()),
    decreases n,
{
    if n > 0 {
        lemma_no_bin_fault(angles, blurs, n - 1);
    }
}

/// A fault found among the first bins is the fault of every longer scan.
pub proof fn lemma_first_fault_persists(angles: Seq<Angle>, blurs: Seq<u32>, n: int, m: int)
    requires
        0 <= n <= m,
        first_bin_fault(angles, blurs, n).is_some(),
    ensures
        first_bin_fault(angles, blurs, m) == first_bin_fault(angles, blurs, n),
    decreases m - n,
{
    if n < m {
        lemma_first_fault_persists(angles, blurs, n, m - 1);
    }
}

/// The direction bins of a face.
#[derive(Debug)]
pub struct DirectionLayout {
    pub angles: Vec<Angle>,
    pub blurs: Vec<u32>,
}

impl DirectionLayout {
    /// Whether the layout's bins are valid.
    pub open spec fn wf(&self) -> bool {
        valid_layout(self.angles@, self.blurs@)
    }

    /// The number of bins of a face.
    pub open spec fn spec_directions(&self) -> int {
        self.angles@.len() as int
    }

    /// Makes the layout of `directions` bins with the given angles and blurs,
    /// or says which bin is wrong.
    pub fn new(directions: u32, angles: Vec<Angle>, blurs: Vec<u32>) -> (r: Result<
        DirectionLayout,
        LayoutError,
    >)
        ensures
            match layout_fault(directions as int, angles@, blurs@) {
                Some(e) => r == Err::<DirectionLayout, LayoutError>(e),
                None => r.is_ok() && r.unwrap().angles@ == angles@ && r.unwrap().blurs@ == blurs@
                    && r.unwrap().wf(),
            },
    {
        if directions == 0 {
            return Err(LayoutError::NoDirections);
        }
        if directions > MAX_DIRECTIONS {
            return Err(LayoutError::TooManyDirections);
        }
        if angles.len() != directions as usize || blurs.len() != directions as usize {
            return Err(LayoutError::LengthMismatch);
        }
        let mut i: u32 = 0;
        while i < directions
            invariant
                i <= directions,
                directions <= MAX_DIRECTIONS,
                angles.len() == directions,
                blurs.len() == directions,
                first_bin_fault(angles@, blurs@, i as int).is_none(),
            decreases directions - i,
        {
            let at: usize = i as usize;
            proof {
                if bin_fault(angles@, blurs@, i as int).is_some() {
                    lemma_first_fault_persists(angles@, blurs@, i + 1, directions as int);
                }
            }
            if !angles[at].is_in_view() {
                return Err(LayoutError::OutOfView { bin: i });
            }
            if blurs[at] >= UNIT / 2 {
                return Err(LayoutError::BlurOutOfRange { bin: i });
            }
            if i > 0 && !angles[at - 1].is_before(&angles[at]) {
                return Err(LayoutError::NotIncreasing { bin: i });
            }
            i = i + 1;
        }
        proof {
            lemma_fault_free_is_valid(angles@, blurs@);
        }
        Ok(DirectionLayout { angles, blurs })
    }

    /// The number of bins of a face.
    pub fn directions(&self) -> (r: u32)
        requires
            self.wf(),
        ensures
            r == self.spec_directions(),
            1 <= r <= MAX_DIRECTIONS,
    {
        self.angles.len() as u32
    }
}

/// The angle of bin `dir` among `directions` evenly spaced bins that fill the
/// field of view, in millionths of a radian: the middle of the bin's share of
/// the quarter turn, rounded toward the normal.
pub open spec fn uniform_angle(dir: int, directions: int) -> int {
    let twice = 2 * dir + 1 - directions;
    if twice >= 0 {
        (twice * EIGHTH_TURN) / directions
    } else {
        -((-twice * EIGHTH_TURN) / directions)
    }
}

/// Computes `uniform_angle`.
pub fn uniform_angle_of(dir: u32, directions: u32) -> (r: i32)
    requires
        dir < directions,
    ensures
        r == uniform_angle(dir as int, directions as int),
        -EIGHTH_TURN < r < EIGHTH_TURN,
{
    let twice: i64 = 2 * (dir as i64) + 1 - (directions as i64);
    let count: i64 = directions as i64;
    if twice >= 0 {
        assert(0 <= twice * EIGHTH_TURN < EIGHTH_TURN * count) by (nonlinear_arith)
            requires
                0 <= twice < count,
        ;
        proof {
            lemma_quotient_below(twice * EIGHTH_TURN, count as int, EIGHTH_TURN as int);
        }
        ((twice * EIGHTH_TURN) / count) as i32
    } else {
        let back: i64 = -twice;
        assert(0 <= back * EIGHTH_TURN < EIGHTH_TURN * count) by (nonlinear_arith)
            requires
                0 <= back < count,
        ;
        proof {
            lemma_quotient_below(back * EIGHTH_TURN, count as int, EIGHTH_TURN as int);
        }
        (-((back * EIGHTH_TURN) / count)) as i32
    }
}

/// The blur that the evenly spaced layout gives bin `dir`: a tenth for bin 4,
/// a twenty-fifth for its two neighbours, none elsewhere.
pub open spec fn uniform_blur(dir: int) -> int {
    if dir == 4 {
        100_000
    } else if dir == 3 || dir == 5 {
        40_000
    } else {
        0
    }
}

/// Computes `uniform_blur`.
pub fn uniform_blur_of(dir: u32) -> (r: u32)
    ensures
        r == uniform_blur(dir as int),
        r < UNIT / 2,
{
    if dir == 4 {
        100_000
    } else if dir == 3 || dir == 5 {
        40_000
    } else {
        0
    }
}

} // verus!
