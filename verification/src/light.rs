//! The gather table: for each direction bin of a face, the neighbouring cells
//! and bins that feed it, and with what weight.

use vstd::prelude::*;
use crate::fixed::{lemma_quotient_at_most, UNIT};
use crate::geometry::{is_unit, Offset};
use crate::layout::{
    uniform_blur, uniform_blur_of, valid_layout, Angle, DirectionLayout, LayoutError,
    layout_fault,
};

verus! {

/// One contribution to a bin of the face `PlusX`: the bin `direction` reads
/// the bin `source` of the cell at `offset`.
#[derive(Debug, Clone, Copy, PartialEq, Eq, Structural)]
pub struct Gather {
    pub offset: Offset,
    pub source: u32,
    pub direction: u32,
}

/// A gather table with the layout it was made from. `transmissions[i]` is the
/// weight of `gathers[i]`.
#[derive(Debug)]
pub struct GatherData {
    pub gathers: Vec<Gather>,
    pub angles: Vec<Angle>,
    pub blurs: Vec<u32>,
    pub transmissions: Vec<u32>,
}

/// A gather with its weight.
pub struct GatherEntry {
    pub offset: Offset,
    pub source: int,
    pub dest: int,
    pub weight: int,
}

/// What a `GatherData` holds: its weighted entries in order, and the layout.
pub struct GatherTable {
    pub entries: Seq<GatherEntry>,
    pub angles: Seq<Angle>,
    pub blurs: Seq<u32>,
}

/// The weights of those among the first `n` entries that feed `dest`, added
/// up.
pub open spec fn weight_into(entries: Seq<GatherEntry>, dest: int, n: int) -> int
    decreases n,
{
    if n <= 0 {
        0
    } else {
        weight_into(entries, dest, n - 1) + if entries[n - 1].dest == dest {
            entries[n - 1].weight
        } else {
            0
        }
    }
}

/// The weights of those among the first `n` entries that read `source`, added
/// up.
pub open spec fn weight_from(entries: Seq<GatherEntry>, source: int, n: int) -> int
    decreases n,
{
    if n <= 0 {
        0
    } else {
        weight_from(entries, source, n - 1) + if entries[n - 1].source == source {
            entries[n - 1].weight
        } else {
            0
        }
    }
}

/// Two sequences of entries that agree on their first `n` entries give the
/// same sums over them.
pub proof fn lemma_weight_prefix(a: Seq<GatherEntry>, b: Seq<GatherEntry>, bin: int, n: int)
    requires
        0 <= n <= a.len(),
        n <= b.len(),
        forall|i: int| 0 <= i < n ==> a[i] == b[i],
    ensures
        weight_into(a, bin, n) == weight_into(b, bin, n),
        weight_from(a, bin, n) == weight_from(b, bin, n),
    decreases n,
{
    if n > 0 {
        lemma_weight_prefix(a, b, bin, n - 1);
    }
}

/// The gather entries that parallel vectors of gathers and weights stand for.
pub open spec fn entries_of(gathers: Seq<Gather>, transmissions: Seq<u32>) -> Seq<GatherEntry> {
    Seq::new(
        gathers.len(),
        |i: int|
            GatherEntry {
                offset: gathers[i].offset,
                source: gathers[i].source as int,
                dest: gathers[i].direction as int,
                weight: transmissions[i] as int,
            },
    )
}

impl GatherTable {
    /// The number of bins of a face.
    pub open spec fn directions(self) -> int {
        self.angles.len() as int
    }

    /// The number of bins of a cell.
    pub open spec fn total_bins(self) -> int {
        4 * self.directions()
    }

    /// Whether the layout is valid and every entry reads a neighbouring cell,
    /// names bins of the layout and weighs at most one whole.
    pub open spec fn wf(self) -> bool {
        &&& valid_layout(self.angles, self.blurs)
        &&& forall|i: int|
            0 <= i < self.entries.len() ==> {
                let e = #[trigger] self.entries[i];
                &&& is_unit(e.offset)
                &&& 0 <= e.source < self.directions()
                &&& 0 <= e.dest < self.directions()
                &&& 0 <= e.weight <= UNIT
            }
    }

    /// Whether the weights that feed each bin add up to one whole.
    pub open spec fn normalized(self) -> bool {
        forall|dest: int|
            0 <= dest < self.directions() ==> #[trigger] weight_into(
                self.entries,
                dest,
                self.entries.len() as int,
            ) == UNIT
    }

    /// Whether no bin hands on more than it holds: the weights that read each
    /// bin add up to at most one whole.
    pub open spec fn conserving(self) -> bool {
        forall|source: int|
            0 <= source < self.directions() ==> #[trigger] weight_from(
                self.entries,
                source,
                self.entries.len() as int,
            ) <= UNIT
    }
}

impl View for GatherData {
    type V = GatherTable;

    open spec fn view(&self) -> GatherTable {
        GatherTable {
            entries: entries_of(self.gathers@, self.transmissions@),
            angles: self.angles@,
            blurs: self.blurs@,
        }
    }
}

impl GatherData {
    /// Whether every gather has its weight and the table is well formed.
    pub open spec fn wf(&self) -> bool {
        &&& self.gathers@.len() == self.transmissions@.len()
        &&& self@.wf()
    }

    /// The number of bins of a face.
    pub fn directions(&self) -> (r: u32)
        requires
            self.wf(),
        ensures
            r == self@.directions(),
            1 <= r <= crate::layout::MAX_DIRECTIONS,
    {
        self.angles.len() as u32
    }

    /// For each bin, the weights of the entries that feed it, added up.
    pub fn weights_into(&self) -> (r: Vec<u128>)
        requires
            self.wf(),
        ensures
            r@.len() == self@.directions(),
            forall|bin: int|
                0 <= bin < self@.directions() ==> #[trigger] r@[bin] == weight_into(
                    self@.entries,
                    bin,
                    self@.entries.len() as int,
                ),
    {
        let count: usize = self.angles.len();
        let mut sums: Vec<u128> = Vec::new();
        while sums.len() < count
            invariant
                sums@.len() <= count,
                forall|bin: int| 0 <= bin < sums@.len() ==> #[trigger] sums@[bin] == 0,
            decreases count - sums@.len(),
        {
            sums.push(0);
        }
        let mut i: usize = 0;
        while i < self.gathers.len()
            invariant
                i <= self.gathers@.len(),
                self.wf(),
                count == self@.directions(),
                sums@.len() == count,
                forall|bin: int|
                    0 <= bin < count ==> #[trigger] sums@[bin] == weight_into(
                        self@.entries,
                        bin,
                        i as int,
                    ),
                forall|bin: int| 0 <= bin < count ==> #[trigger] sums@[bin] <= i * UNIT,
            decreases self.gathers@.len() - i,
        {
            let dest: usize = self.gathers[i].direction as usize;
            let weight: u32 = self.transmissions[i];
            proof {
                let e = self@.entries[i as int];
                assert(0 <= e.dest < count && 0 <= e.weight <= UNIT);
                assert(e.dest == dest && e.weight == weight);
                assert(sums@[dest as int] <= i * UNIT);
                assert(i * UNIT <= 0xffff_ffff_ffff_ffff * 1_000_000) by (nonlinear_arith)
                    requires
                        0 <= i <= 0xffff_ffff_ffff_ffff,
                ;
            }
            let ghost before = sums@;
            let sum: u128 = sums[dest] + weight as u128;
            sums.set(dest, sum);
            proof {
                assert forall|bin: int| 0 <= bin < count implies #[trigger] sums@[bin]
                    == weight_into(self@.entries, bin, i + 1) by {
                    if bin != dest {
                        assert(sums@[bin] == before[bin]);
                    }
                }
                assert forall|bin: int| 0 <= bin < count implies #[trigger] sums@[bin] <= (i + 1)
                    * UNIT by {
                    assert(before[bin] <= i * UNIT);
                    assert((i + 1) * UNIT == i * UNIT + UNIT) by (nonlinear_arith);
                }
            }
            i = i + 1;
        }
        sums
    }

    /// For each bin, the weights of the entries that read it, added up.
    pub fn weights_from(&self) -> (r: Vec<u128>)
        requires
            self.wf(),
        ensures
            r@.len() == self@.directions(),
            forall|bin: int|
                0 <= bin < self@.directions() ==> #[trigger] r@[bin] == weight_from(
                    self@.entries,
                    bin,
                    self@.entries.len() as int,
                ),
    {
        let count: usize = self.angles.len();
        let mut sums: Vec<u128> = Vec::new();
        while sums.len() < count
            invariant
                sums@.len() <= count,
                forall|bin: int| 0 <= bin < sums@.len() ==> #[trigger] sums@[bin] == 0,
            decreases count - sums@.len(),
        {
            sums.push(0);
        }
        let mut i: usize = 0;
        while i < self.gathers.len()
            invariant
                i <= self.gathers@.len(),
                self.wf(),
                count == self@.directions(),
                sums@.len() == count,
                forall|bin: int|
                    0 <= bin < count ==> #[trigger] sums@[bin] == weight_from(
                        self@.entries,
                        bin,
                        i as int,
                    ),
                forall|bin: int| 0 <= bin < count ==> #[trigger] sums@[bin] <= i * UNIT,
            decreases self.gathers@.len() - i,
        {
            let source: usize = self.gathers[i].source as usize;
            let weight: u32 = self.transmissions[i];
            proof {
                let e = self@.entries[i as int];
                assert(0 <= e.source < count && 0 <= e.weight <= UNIT);
                assert(e.source == source && e.weight == weight);
                assert(sums@[source as int] <= i * UNIT);
                assert(i * UNIT <= 0xffff_ffff_ffff_ffff * 1_000_000) by (nonlinear_arith)
                    requires
                        0 <= i <= 0xffff_ffff_ffff_ffff,
                ;
            }
            let ghost before = sums@;
            let sum: u128 = sums[source] + weight as u128;
            sums.set(source, sum);
            proof {
                assert forall|bin: int| 0 <= bin < count implies #[trigger] sums@[bin]
                    == weight_from(self@.entries, bin, i + 1) by {
                    if bin != source {
                        assert(sums@[bin] == before[bin]);
                    }
                }
                assert forall|bin: int| 0 <= bin < count implies #[trigger] sums@[bin] <= (i + 1)
                    * UNIT by {
                    assert(before[bin] <= i * UNIT);
                    assert((i + 1) * UNIT == i * UNIT + UNIT) by (nonlinear_arith);
                }
            }
            i = i + 1;
        }
        sums
    }

    /// Decides whether the weights that feed each bin add up to one whole.
    pub fn is_normalized(&self) -> (r: bool)
        requires
            self.wf(),
        ensures
            r == self@.normalized(),
    {
        let sums: Vec<u128> = self.weights_into();
        let mut bin: usize = 0;
        while bin < sums.len()
            invariant
                bin <= sums@.len(),
                sums@.len() == self@.directions(),
                forall|k: int|
                    0 <= k < self@.directions() ==> #[trigger] sums@[k] == weight_into(
                        self@.entries,
                        k,
                        self@.entries.len() as int,
                    ),
                forall|k: int|
                    0 <= k < bin ==> #[trigger] weight_into(
                        self@.entries,
                        k,
                        self@.entries.len() as int,
                    ) == UNIT,
            decreases sums@.len() - bin,
        {
            if sums[bin] != UNIT as u128 {
                assert(weight_into(self@.entries, bin as int, self@.entries.len() as int)
                    != UNIT);
                return false;
            }
            bin = bin + 1;
        }
        true
    }

    /// Decides whether the weights that read each bin add up to at most one
    /// whole.
    pub fn is_conserving(&self) -> (r: bool)
        requires
            self.wf(),
        ensures
            r == self@.conserving(),
    {
        let sums: Vec<u128> = self.weights_from();
        let mut bin: usize = 0;
        while bin < sums.len()
            invariant
                bin <= sums@.len(),
                sums@.len() == self@.directions(),
                forall|k: int|
                    0 <= k < self@.directions() ==> #[trigger] sums@[k] == weight_from(
                        self@.entries,
                        k,
                        self@.entries.len() as int,
                    ),
                forall|k: int|
                    0 <= k < bin ==> #[trigger] weight_from(
                        self@.entries,
                        k,
                        self@.entries.len() as int,
                    ) <= UNIT,
            decreases sums@.len() - bin,
        {
            if sums[bin] > UNIT as u128 {
                assert(weight_from(self@.entries, bin as int, self@.entries.len() as int)
                    > UNIT);
                return false;
            }
            bin = bin + 1;
        }
        true
    }
}

/// The three cells that feed a bin of the face `PlusX`: the cell behind the
/// face, then the cell on the side of positive angles, then the cell on the
/// side of negative angles.
pub open spec fn canonical_offset(k: int) -> Offset {
    if k == 0 {
        Offset { x: -1i32, y: 0 }
    } else if k == 1 {
        Offset { x: 0, y: 1 }
    } else {
        Offset { x: 0, y: -1i32 }
    }
}

/// The size of the sine of `a`.
pub open spec fn sine_size(a: Angle) -> int {
    if a.sin >= 0 {
        a.sin as int
    } else {
        -a.sin
    }
}

/// The share of a bin's flux that arrives sideways, before blur: with the
/// slope the tangent of the bin's angle, `|slope| / (1 + |slope|)`, rounded
/// down.
pub open spec fn lateral_share(a: Angle) -> int {
    (UNIT * sine_size(a)) / (a.cos + sine_size(a))
}

/// Three times the product of a lateral share and a blur, rounded down.
pub open spec fn blur_overlap(share: int, blur: int) -> int {
    (3 * share * blur) / (UNIT as int)
}

/// The weight of the cell on the side that the bin's angle leans to: with the
/// lateral share `t` and the blur `b`, `t * (1 - 3b) + b`.
pub open spec fn toward_weight(a: Angle, blur: int) -> int {
    lateral_share(a) + blur - blur_overlap(lateral_share(a), blur)
}

/// The weight of the cell behind the face: what the two lateral weights
/// leave of one whole, which is `(1 - t) * (1 - 3b) + b` for the lateral
/// share `t` and the blur `b`.
pub open spec fn straight_weight(a: Angle, blur: int) -> int {
    UNIT - toward_weight(a, blur) - blur
}

/// The weights of the three cells that feed a bin, in the order of
/// `canonical_offset`. The side that the angle leans away from gets the blur
/// alone.
pub open spec fn slope_weights(a: Angle, blur: int) -> Seq<int> {
    if a.sin >= 0 {
        seq![straight_weight(a, blur), toward_weight(a, blur), blur]
    } else {
        seq![straight_weight(a, blur), blur, toward_weight(a, blur)]
    }
}

/// The three weights of a bin lie between nothing and one whole and add up to
/// one whole; a lateral share is at most a half.
pub proof fn lemma_slope_weights(a: Angle, blur: int)
    requires
        a.in_view(),
        0 <= blur < UNIT / 2,
    ensures
        0 <= lateral_share(a) <= UNIT / 2,
        0 <= blur_overlap(lateral_share(a), blur) <= lateral_share(a) + blur,
        0 <= toward_weight(a, blur) <= UNIT,
        0 < straight_weight(a, blur) <= UNIT,
        slope_weights(a, blur).len() == 3,
        slope_weights(a, blur)[0] + slope_weights(a, blur)[1] + slope_weights(a, blur)[2] == UNIT,
{
    let s = sine_size(a);
    let c = a.cos as int;
    let t = lateral_share(a);
    let q = blur_overlap(t, blur);
    assert(0 <= UNIT * s <= 500_000 * (c + s)) by (nonlinear_arith)
        requires
            0 <= s <= c,
    ;
    lemma_quotient_at_most(UNIT * s, c + s, 500_000);
    assert(0 <= 3 * t * blur <= (t + blur) * UNIT) by (nonlinear_arith)
        requires
            0 <= t <= 500_000,
            0 <= blur <= 500_000,
    ;
    lemma_quotient_at_most(3 * t * blur, UNIT as int, t + blur);
    assert(UNIT * q > 3 * t * blur - UNIT) by (nonlinear_arith)
        requires
            q == (3 * t * blur) / (UNIT as int),
    ;
    assert((UNIT - t) * (UNIT - 2 * blur) >= UNIT) by (nonlinear_arith)
        requires
            UNIT - t >= 500_000,
            UNIT - 2 * blur >= 2,
    ;
    assert((UNIT - t) * (UNIT - 2 * blur) == UNIT * UNIT - UNIT * t - 2 * UNIT * blur + 2 * t
        * blur) by (nonlinear_arith);
    assert(0 <= t * blur) by (nonlinear_arith)
        requires
            0 <= t,
            0 <= blur,
    ;
    assert(UNIT * (UNIT - t - 2 * blur + q) > 0) by (nonlinear_arith)
        requires
            UNIT * q > 3 * t * blur - UNIT,
            UNIT * UNIT - UNIT * t - 2 * UNIT * blur + 2 * t * blur >= UNIT,
            0 <= t * blur,
    ;
    assert(UNIT - t - 2 * blur + q > 0) by (nonlinear_arith)
        requires
            UNIT * (UNIT - t - 2 * blur + q) > 0,
    ;
}

/// The weights with which the three neighbouring cells feed a bin of the given
/// angle and blur, by splitting the bin's slope between the cell behind the
/// face and the cell that the angle leans to.
pub fn compute_index_transmissions(angle: Angle, blur: u32) -> (r: [u32; 3])
    requires
        angle.in_view(),
        blur < UNIT / 2,
    ensures
        r[0] == slope_weights(angle, blur as int)[0],
        r[1] == slope_weights(angle, blur as int)[1],
        r[2] == slope_weights(angle, blur as int)[2],
        r[0] + r[1] + r[2] == UNIT,
{
    proof {
        lemma_slope_weights(angle, blur as int);
    }
    let size: u64 = if angle.sin >= 0 {
        angle.sin as u64
    } else {
        (-angle.sin) as u64
    };
    let share: u64 = ((UNIT as u64) * size) / (angle.cos as u64 + size);
    assert(3 * share * blur <= 3 * 500_000 * 500_000) by (nonlinear_arith)
        requires
            0 <= share <= 500_000,
            0 <= blur <= 500_000,
    ;
    let overlap: u64 = (3 * share * (blur as u64)) / (UNIT as u64);
    let toward: u64 = share + blur as u64 - overlap;
    let straight: u64 = UNIT as u64 - toward - blur as u64;
    if angle.sin >= 0 {
        [straight as u32, toward as u32, blur]
    } else {
        [straight as u32, blur, toward as u32]
    }
}

/// Entry `i` of the table that splits each bin's slope: three entries for
/// each bin, one for each cell of `canonical_offset`, all reading the bin of
/// the same index.
pub open spec fn slope_entry(angles: Seq<Angle>, blurs: Seq<u32>, i: int) -> GatherEntry {
    GatherEntry {
        offset: canonical_offset(i % 3),
        source: i / 3,
        dest: i / 3,
        weight: slope_weights(angles[i / 3], blurs[i / 3] as int)[i % 3],
    }
}

/// The first `n` entries of the table that splits each bin's slope.
pub open spec fn slope_entries(angles: Seq<Angle>, blurs: Seq<u32>, n: int) -> Seq<GatherEntry> {
    Seq::new(n as nat, |i: int| slope_entry(angles, blurs, i))
}

/// The table that splits each bin's slope.
pub open spec fn slope_table(angles: Seq<Angle>, blurs: Seq<u32>) -> GatherTable {
    GatherTable { entries: slope_entries(angles, blurs, 3 * (angles.len() as int)), angles, blurs }
}

/// The three entries of the bin `bin` stand one after the other.
pub proof fn lemma_slope_entry(angles: Seq<Angle>, blurs: Seq<u32>, bin: int, k: int)
    requires
        0 <= bin,
        0 <= k < 3,
    ensures
        slope_entry(angles, blurs, 3 * bin + k) == (GatherEntry {
            offset: canonical_offset(k),
            source: bin,
            dest: bin,
            weight: slope_weights(angles[bin], blurs[bin] as int)[k],
        }),
{
    assert((3 * bin + k) / 3 == bin);
    assert((3 * bin + k) % 3 == k);
}

/// The entries of one more bin extend the entries of the bins before it.
pub proof fn lemma_slope_entries_step(angles: Seq<Angle>, blurs: Seq<u32>, bin: int)
    requires
        0 <= bin,
    ensures
        slope_entries(angles, blurs, 3 * bin + 3) == slope_entries(angles, blurs, 3 * bin).push(
            slope_entry(angles, blurs, 3 * bin),
        ).push(slope_entry(angles, blurs, 3 * bin + 1)).push(
            slope_entry(angles, blurs, 3 * bin + 2),
        ),
{
    assert(slope_entries(angles, blurs, 3 * bin + 3) =~= slope_entries(angles, blurs, 3 * bin).push(
        slope_entry(angles, blurs, 3 * bin),
    ).push(slope_entry(angles, blurs, 3 * bin + 1)).push(
        slope_entry(angles, blurs, 3 * bin + 2),
    ));
}

/// Pushing a gather and its weight pushes the entry that they stand for.
pub proof fn lemma_entries_push(
    gathers: Seq<Gather>,
    transmissions: Seq<u32>,
    gather: Gather,
    weight: u32,
)
    requires
        gathers.len() == transmissions.len(),
    ensures
        entries_of(gathers.push(gather), transmissions.push(weight)) == entries_of(
            gathers,
            transmissions,
        ).push(
            GatherEntry {
                offset: gather.offset,
                source: gather.source as int,
                dest: gather.direction as int,
                weight: weight as int,
            },
        ),
{
    assert(entries_of(gathers.push(gather), transmissions.push(weight)) =~= entries_of(
        gathers,
        transmissions,
    ).push(
        GatherEntry {
            offset: gather.offset,
            source: gather.source as int,
            dest: gather.direction as int,
            weight: weight as int,
        },
    ));
}

/// In the table that splits each bin's slope, the entries of the first `k`
/// bins give each of those bins one whole and take one whole from it, and
/// leave the other bins alone.
pub proof fn lemma_slope_table_sums(angles: Seq<Angle>, blurs: Seq<u32>, bin: int, k: int)
    requires
        valid_layout(angles, blurs),
        0 <= k <= angles.len(),
        0 <= bin < angles.len(),
    ensures
        weight_into(slope_table(angles, blurs).entries, bin, 3 * k) == (if bin < k {
            UNIT as int
        } else {
            0
        }),
        weight_from(slope_table(angles, blurs).entries, bin, 3 * k) == (if bin < k {
            UNIT as int
        } else {
            0
        }),
    decreases k,
{
    if k > 0 {
        lemma_slope_table_sums(angles, blurs, bin, k - 1);
        let t = slope_table(angles, blurs);
        let w = slope_weights(angles[k - 1], blurs[k - 1] as int);
        assert(angles[k - 1].in_view());
        assert(blurs[k - 1] < UNIT / 2);
        lemma_slope_weights(angles[k - 1], blurs[k - 1] as int);
        assert(t.entries[3 * k - 3] == slope_entry(angles, blurs, 3 * k - 3));
        assert(t.entries[3 * k - 2] == slope_entry(angles, blurs, 3 * k - 2));
        assert(t.entries[3 * k - 1] == slope_entry(angles, blurs, 3 * k - 1));
        assert(weight_into(t.entries, bin, 3 * k - 2) == weight_into(t.entries, bin, 3 * k - 3)
            + if k - 1 == bin {
            w[0]
        } else {
            0
        });
        assert(weight_into(t.entries, bin, 3 * k - 1) == weight_into(t.entries, bin, 3 * k - 2)
            + if k - 1 == bin {
            w[1]
        } else {
            0
        });
        assert(weight_into(t.entries, bin, 3 * k) == weight_into(t.entries, bin, 3 * k - 1)
            + if k - 1 == bin {
            w[2]
        } else {
            0
        });
        assert(weight_from(t.entries, bin, 3 * k - 2) == weight_from(t.entries, bin, 3 * k - 3)
            + if k - 1 == bin {
            w[0]
        } else {
            0
        });
        assert(weight_from(t.entries, bin, 3 * k - 1) == weight_from(t.entries, bin, 3 * k - 2)
            + if k - 1 == bin {
            w[1]
        } else {
            0
        });
        assert(weight_from(t.entries, bin, 3 * k) == weight_from(t.entries, bin, 3 * k - 1)
            + if k - 1 == bin {
            w[2]
        } else {
            0
        });
    }
}

/// Splitting slopes gives a well-formed table in which the weights that feed
/// each bin add up to exactly one whole, whatever the number of bins and
/// their blurs, and so do the weights that read each bin.
pub proof fn lemma_slope_table_normalized(angles: Seq<Angle>, blurs: Seq<u32>)
    requires
        valid_layout(angles, blurs),
    ensures
        slope_table(angles, blurs).wf(),
        slope_table(angles, blurs).normalized(),
        slope_table(angles, blurs).conserving(),
{
    let t = slope_table(angles, blurs);
    let n = angles.len() as int;
    assert forall|i: int| 0 <= i < t.entries.len() implies {
        let e = #[trigger] t.entries[i];
        &&& is_unit(e.offset)
        &&& 0 <= e.source < t.directions()
        &&& 0 <= e.dest < t.directions()
        &&& 0 <= e.weight <= UNIT
    } by {
        assert(angles[i / 3].in_view());
        assert(blurs[i / 3] < UNIT / 2);
        lemma_slope_weights(angles[i / 3], blurs[i / 3] as int);
    }
    assert forall|dest: int| 0 <= dest < n implies #[trigger] weight_into(
        t.entries,
        dest,
        t.entries.len() as int,
    ) == UNIT by {
        lemma_slope_table_sums(angles, blurs, dest, n);
    }
    assert forall|source: int| 0 <= source < n implies #[trigger] weight_from(
        t.entries,
        source,
        t.entries.len() as int,
    ) <= UNIT by {
        lemma_slope_table_sums(angles, blurs, source, n);
    }
}

/// Makes the gather table of a layout by splitting each bin's slope.
pub fn compute_slope_gathers(layout: DirectionLayout) -> (table: GatherData)
    requires
        layout.wf(),
    ensures
        table.wf(),
        table@ == slope_table(layout.angles@, layout.blurs@),
        table@.normalized(),
        table@.conserving(),
{
    let count: u32 = layout.directions();
    let mut gathers: Vec<Gather> = Vec::new();
    let mut transmissions: Vec<u32> = Vec::new();
    let mut dir: u32 = 0;
    assert(entries_of(gathers@, transmissions@) =~= slope_entries(
        layout.angles@,
        layout.blurs@,
        0,
    ));
    while dir < count
        invariant
            dir <= count,
            count == layout.angles@.len(),
            layout.wf(),
            gathers@.len() == transmissions@.len(),
            entries_of(gathers@, transmissions@) == slope_entries(
                layout.angles@,
                layout.blurs@,
                3 * dir,
            ),
        decreases count - dir,
    {
        let at: usize = dir as usize;
        assert(layout.angles@[at as int].in_view());
        assert(layout.blurs@[at as int] < UNIT / 2);
        let tr = compute_index_transmissions(layout.angles[at], layout.blurs[at]);
        let ahead = Gather { offset: Offset { x: -1, y: 0 }, source: dir, direction: dir };
        let plus = Gather { offset: Offset { x: 0, y: 1 }, source: dir, direction: dir };
        let minus = Gather { offset: Offset { x: 0, y: -1 }, source: dir, direction: dir };
        proof {
            let g0 = gathers@;
            let t0 = transmissions@;
            lemma_entries_push(g0, t0, ahead, tr[0]);
            lemma_entries_push(g0.push(ahead), t0.push(tr[0]), plus, tr[1]);
            lemma_entries_push(
                g0.push(ahead).push(plus),
                t0.push(tr[0]).push(tr[1]),
                minus,
                tr[2],
            );
            lemma_slope_entry(layout.angles@, layout.blurs@, dir as int, 0);
            lemma_slope_entry(layout.angles@, layout.blurs@, dir as int, 1);
            lemma_slope_entry(layout.angles@, layout.blurs@, dir as int, 2);
            lemma_slope_entries_step(layout.angles@, layout.blurs@, dir as int);
        }
        gathers.push(ahead);
        transmissions.push(tr[0]);
        gathers.push(plus);
        transmissions.push(tr[1]);
        gathers.push(minus);
        transmissions.push(tr[2]);
        dir = dir + 1;
    }
    let table = GatherData {
        gathers,
        angles: layout.angles,
        blurs: layout.blurs,
        transmissions,
    };
    proof {
        lemma_slope_table_normalized(table.angles@, table.blurs@);
    }
    table
}

/// The angles of the calibrated layout of nine bins.
pub open spec fn precomputed_angles() -> Seq<Angle> {
    seq![
        Angle { cos: 766_044, sin: -642_788i32 },
        Angle { cos: 866_025, sin: -500_000i32 },
        Angle { cos: 925_264, sin: -379_324i32 },
        Angle { cos: 977_076, sin: -212_891i32 },
        Angle { cos: 1_000_000, sin: 0 },
        Angle { cos: 977_076, sin: 212_891 },
        Angle { cos: 925_264, sin: 379_324 },
        Angle { cos: 866_025, sin: 500_000 },
        Angle { cos: 766_044, sin: 642_788 },
    ]
}

/// The blurs of the calibrated layout of nine bins.
pub open spec fn precomputed_blurs() -> Seq<u32> {
    seq![0u32, 0u32, 70_000u32, 120_000u32, 200_000u32, 120_000u32, 70_000u32, 0u32, 0u32]
}

/// The calibrated layout is valid.
pub proof fn lemma_precomputed_layout_valid()
    ensures
        valid_layout(precomputed_angles(), precomputed_blurs()),
{
    let a = precomputed_angles();
    assert(a.len() == 9);
    assert(a[0].precedes(a[1]));
    assert(a[1].precedes(a[2]));
    assert(a[2].precedes(a[3]));
    assert(a[3].precedes(a[4]));
    assert(a[4].precedes(a[5]));
    assert(a[5].precedes(a[6]));
    assert(a[6].precedes(a[7]));
    assert(a[7].precedes(a[8]));
}

/// The brightness of each of the nine calibrated bins, as a share of the
/// brightness of the outer bins.
pub fn precomputed_lights() -> (r: [u32; 9])
    ensures
        r@ == seq![
            1_000_000u32,
            1_000_000u32,
            1_000_000u32,
            950_000u32,
            1_250_000u32,
            950_000u32,
            1_000_000u32,
            1_000_000u32,
            1_000_000u32,
        ],
{
    let r: [u32; 9] = [
        1_000_000,
        1_000_000,
        1_000_000,
        950_000,
        1_250_000,
        950_000,
        1_000_000,
        1_000_000,
        1_000_000,
    ];
    assert(r@ =~= seq![
        1_000_000u32,
        1_000_000u32,
        1_000_000u32,
        950_000u32,
        1_250_000u32,
        950_000u32,
        1_000_000u32,
        1_000_000u32,
        1_000_000u32,
    ]);
    r
}

/// The gather table of the calibrated layout of nine bins, by splitting
/// slopes.
pub fn precomputed_slope_gathers(directions: u32) -> (table: GatherData)
    requires
        directions == 9,
    ensures
        table.wf(),
        table@ == slope_table(precomputed_angles(), precomputed_blurs()),
        table@.normalized(),
        table@.conserving(),
{
    let angles: Vec<Angle> = vec![
        Angle { cos: 766_044, sin: -642_788 },
        Angle { cos: 866_025, sin: -500_000 },
        Angle { cos: 925_264, sin: -379_324 },
        Angle { cos: 977_076, sin: -212_891 },
        Angle { cos: 1_000_000, sin: 0 },
        Angle { cos: 977_076, sin: 212_891 },
        Angle { cos: 925_264, sin: 379_324 },
        Angle { cos: 866_025, sin: 500_000 },
        Angle { cos: 766_044, sin: 642_788 },
    ];
    let blurs: Vec<u32> = vec![0, 0, 70_000, 120_000, 200_000, 120_000, 70_000, 0, 0];
    proof {
        assert(angles@ =~= precomputed_angles());
        assert(blurs@ =~= precomputed_blurs());
        lemma_precomputed_layout_valid();
    }
    compute_slope_gathers(DirectionLayout { angles, blurs })
}

/// The blurs that the evenly spaced layout gives its bins.
pub open spec fn uniform_blurs(directions: int) -> Seq<u32> {
    Seq::new(directions as nat, |dir: int| uniform_blur(dir) as u32)
}

/// Makes the gather table of `directions` bins with the given angles and the
/// blurs of the evenly spaced layout, by splitting slopes; or says what is
/// wrong with the angles.
pub fn compute_slope_gathers_n(directions: u32, angles: Vec<Angle>) -> (r: Result<
    GatherData,
    LayoutError,
>)
    ensures
        match layout_fault(directions as int, angles@, uniform_blurs(directions as int)) {
            Some(e) => r is Err && r->Err_0 == e,
            None => r is Ok && r->Ok_0.wf() && r->Ok_0@ == slope_table(
                angles@,
                uniform_blurs(directions as int),
            ) && r->Ok_0@.normalized() && r->Ok_0@.conserving(),
        },
{
    if directions == 0 {
        return Err(LayoutError::NoDirections);
    }
    if directions > crate::layout::MAX_DIRECTIONS {
        return Err(LayoutError::TooManyDirections);
    }
    if angles.len() != directions as usize {
        return Err(LayoutError::LengthMismatch);
    }
    let mut blurs: Vec<u32> = Vec::new();
    let mut dir: u32 = 0;
    while dir < directions
        invariant
            dir <= directions,
            blurs@.len() == dir,
            forall|i: int| 0 <= i < dir ==> #[trigger] blurs@[i] == uniform_blur(i),
        decreases directions - dir,
    {
        blurs.push(uniform_blur_of(dir));
        dir = dir + 1;
    }
    assert(blurs@ =~= uniform_blurs(directions as int));
    match DirectionLayout::new(directions, angles, blurs) {
        Ok(layout) => Ok(compute_slope_gathers(layout)),
        Err(e) => Err(e),
    }
}

} // verus!
