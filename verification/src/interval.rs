//! Gather tables from the interval of source bins that each destination bin
//! sees through each neighbouring cell.
//!
//! An interval is measured in bins: the whole part of a position names a
//! source bin, the fraction a place within it. Positions are counted in
//! millionths of a bin.

use vstd::prelude::*;
use crate::fixed::UNIT;
use crate::light::{
    canonical_offset, entries_of, lemma_weight_prefix, weight_into, Gather, GatherData,
    GatherEntry, GatherTable,
};
use crate::geometry::Offset;
use crate::layout::{valid_layout, Angle, DirectionLayout, MAX_DIRECTIONS};

verus! {

/// How close to a bin boundary an end of an interval may lie before it is
/// moved: a thousandth of a bin.
pub const EPSILON: i64 = 1_000;

/// The half-open range of source positions from `start` to `end`, in
/// millionths of a bin.
#[derive(Debug, Clone, Copy, PartialEq, Eq, Structural)]
pub struct Interval {
    pub start: i64,
    pub end: i64,
}

/// Why an interval gives no gather entries.
#[derive(Debug, Clone, Copy, PartialEq, Eq, Structural)]
pub enum IntervalFault {
    /// The interval starts before the first bin.
    BelowRange,
    /// The interval does not start before it ends.
    NotIncreasing,
    /// The interval ends at or after the end of the last bin.
    AboveRange,
    /// The interval covers parts of more than two bins, or of two bins that do
    /// not follow each other.
    TooWide,
}

/// Why a set of intervals gives no gather table.
#[derive(Debug, Clone, Copy, PartialEq, Eq, Structural)]
pub enum GatherError {
    /// There are not three intervals for each bin.
    LengthMismatch,
    /// The interval of bin `bin` through the neighbour `neighbor` (an index
    /// into the canonical offsets) is faulty.
    BadInterval { bin: u32, neighbor: u32, fault: IntervalFault },
}

/// Whether `x` lies within `EPSILON` of a whole number of bins.
pub open spec fn near_boundary(x: int) -> bool {
    let r = x % (UNIT as int);
    r < EPSILON || r > UNIT - EPSILON
}

/// The start of an interval, moved up by `EPSILON` if it lies near a boundary.
pub open spec fn nudged_start(x: int) -> int {
    if near_boundary(x) {
        x + EPSILON
    } else {
        x
    }
}

/// The end of an interval, moved down by `EPSILON` if it lies near a boundary.
pub open spec fn nudged_end(x: int) -> int {
    if near_boundary(x) {
        x - EPSILON
    } else {
        x
    }
}

/// The bin that holds the position `x`.
pub open spec fn bucket(x: int) -> int {
    x / (UNIT as int)
}

/// The first bin that starts at or after the position `x`.
pub open spec fn bucket_above(x: int) -> int {
    (x + UNIT - 1) / (UNIT as int)
}

/// What is wrong with an interval over `directions` bins, after nudging.
pub open spec fn interval_fault(iv: Interval, directions: int) -> Option<IntervalFault> {
    let s = nudged_start(iv.start as int);
    let e = nudged_end(iv.end as int);
    if s < 0 {
        Some(IntervalFault::BelowRange)
    } else if !(s < e) {
        Some(IntervalFault::NotIncreasing)
    } else if e >= directions * UNIT {
        Some(IntervalFault::AboveRange)
    } else if bucket(s) != bucket(e) && bucket_above(s) != bucket(e) {
        Some(IntervalFault::TooWide)
    } else {
        None
    }
}

/// The length of an interval after nudging.
pub open spec fn nudged_width(iv: Interval) -> int {
    nudged_end(iv.end as int) - nudged_start(iv.start as int)
}

/// The source bins that a faultless interval covers, each with the length of
/// the part covered: one bin, or two that follow each other.
pub open spec fn interval_parts(iv: Interval) -> Seq<(int, int)> {
    let s = nudged_start(iv.start as int);
    let e = nudged_end(iv.end as int);
    if bucket(s) == bucket(e) {
        seq![(bucket(s), e - s)]
    } else {
        seq![(bucket(s), bucket_above(s) * UNIT - s), (bucket(e), e - bucket(e) * UNIT)]
    }
}

/// The parts of a faultless interval name bins of the layout, weigh at most
/// one whole each, and together weigh the interval's nudged length.
pub proof fn lemma_interval_parts(iv: Interval, directions: int)
    requires
        interval_fault(iv, directions).is_none(),
    ensures
        1 <= interval_parts(iv).len() <= 2,
        forall|j: int|
            0 <= j < interval_parts(iv).len() ==> {
                let part = #[trigger] interval_parts(iv)[j];
                0 <= part.0 < directions && 0 < part.1 <= UNIT
            },
        interval_parts(iv).len() == 1 ==> interval_parts(iv)[0].1 == nudged_width(iv),
        interval_parts(iv).len() == 2 ==> interval_parts(iv)[0].1 + interval_parts(iv)[1].1
            == nudged_width(iv),
{
    let s = nudged_start(iv.start as int);
    let e = nudged_end(iv.end as int);
    assert(0 <= s < e < directions * UNIT);
    let r = iv.end as int % (UNIT as int);
    if bucket(s) != bucket(e) {
        assert(e % (UNIT as int) != 0);
    }
}

/// A source bin and the weight with which it is read.
#[derive(Debug, Clone, Copy, PartialEq, Eq, Structural)]
pub struct Part {
    pub source: u32,
    pub weight: u32,
}

/// The source bins that an interval covers: one, or two that follow each
/// other.
#[derive(Debug, Clone, Copy, PartialEq, Eq)]
pub struct Parts {
    pub first: Part,
    pub second: Option<Part>,
}

impl View for Parts {
    type V = Seq<(int, int)>;

    open spec fn view(&self) -> Seq<(int, int)> {
        match self.second {
            None => seq![(self.first.source as int, self.first.weight as int)],
            Some(second) => seq![
                (self.first.source as int, self.first.weight as int),
                (second.source as int, second.weight as int),
            ],
        }
    }
}

/// Nudges the ends of an interval off the bin boundaries and splits it into
/// the source bins it covers, each with the length covered as its weight; or
/// says what is wrong with the interval.
pub fn split_interval(iv: Interval, directions: u32) -> (r: Result<Parts, IntervalFault>)
    requires
        directions <= MAX_DIRECTIONS,
    ensures
        match interval_fault(iv, directions as int) {
            Some(fault) => r == Err::<Parts, IntervalFault>(fault),
            None => r is Ok && r->Ok_0@ == interval_parts(iv),
        },
{
    let unit: i64 = UNIT as i64;
    if iv.start <= -EPSILON {
        return Err(IntervalFault::BelowRange);
    }
    if iv.end <= 0 || iv.end <= iv.start {
        return Err(IntervalFault::NotIncreasing);
    }
    let limit: i64 = (directions as i64) * unit;
    let s: i128 = if iv.start < 0 {
        iv.start as i128 + EPSILON as i128
    } else {
        let s_rem: i64 = iv.start % unit;
        if s_rem < EPSILON || s_rem > unit - EPSILON {
            iv.start as i128 + EPSILON as i128
        } else {
            iv.start as i128
        }
    };
    let e_rem: i64 = iv.end % unit;
    let e: i128 = if e_rem < EPSILON || e_rem > unit - EPSILON {
        iv.end as i128 - EPSILON as i128
    } else {
        iv.end as i128
    };
    assert(s == nudged_start(iv.start as int));
    assert(e == nudged_end(iv.end as int));
    if !(s < e) {
        return Err(IntervalFault::NotIncreasing);
    }
    if e >= limit as i128 {
        return Err(IntervalFault::AboveRange);
    }
    let s: i64 = s as i64;
    let e: i64 = e as i64;
    let low: i64 = s / unit;
    let high: i64 = e / unit;
    let above: i64 = (s + unit - 1) / unit;
    assert(0 <= low <= high < directions);
    if low == high {
        Ok(Parts { first: Part { source: low as u32, weight: (e - s) as u32 }, second: None })
    } else if above == high {
        Ok(
            Parts {
                first: Part { source: low as u32, weight: (above * unit - s) as u32 },
                second: Some(Part { source: high as u32, weight: (e - high * unit) as u32 }),
            },
        )
    } else {
        Err(IntervalFault::TooWide)
    }
}

/// The gather entries that the interval of the pair `pair` gives: the pair of
/// bin `pair / 3` with the neighbour `pair % 3` of `canonical_offset`.
pub open spec fn pair_entries(iv: Interval, pair: int) -> Seq<GatherEntry> {
    Seq::new(
        interval_parts(iv).len(),
        |j: int|
            GatherEntry {
                offset: canonical_offset(pair % 3),
                source: interval_parts(iv)[j].0,
                dest: pair / 3,
                weight: interval_parts(iv)[j].1,
            },
    )
}

/// The gather entries of the first `n` pairs, in order.
pub open spec fn interval_entries(intervals: Seq<Interval>, n: int) -> Seq<GatherEntry>
    decreases n,
{
    if n <= 0 {
        Seq::empty()
    } else {
        interval_entries(intervals, n - 1) + pair_entries(intervals[n - 1], n - 1)
    }
}

/// The fault of the first faulty interval among the first `n` pairs.
pub open spec fn first_interval_fault(intervals: Seq<Interval>, directions: int, n: int) -> Option<
    GatherError,
>
    decreases n,
{
    if n <= 0 {
        None
    } else {
        match first_interval_fault(intervals, directions, n - 1) {
            Some(e) => Some(e),
            None => match interval_fault(intervals[n - 1], directions) {
                Some(fault) => Some(
                    GatherError::BadInterval {
                        bin: ((n - 1) / 3) as u32,
                        neighbor: ((n - 1) % 3) as u32,
                        fault,
                    },
                ),
                None => None,
            },
        }
    }
}

/// What is wrong with the intervals for a layout of `directions` bins, if
/// anything: there must be three for each bin, bin by bin, in the order of
/// `canonical_offset`.
pub open spec fn interval_table_fault(directions: int, intervals: Seq<Interval>) -> Option<
    GatherError,
> {
    if intervals.len() != 3 * directions {
        Some(GatherError::LengthMismatch)
    } else {
        first_interval_fault(intervals, directions, 3 * directions)
    }
}

/// The table that the intervals give.
pub open spec fn interval_table(
    angles: Seq<Angle>,
    blurs: Seq<u32>,
    intervals: Seq<Interval>,
) -> GatherTable {
    GatherTable { entries: interval_entries(intervals, intervals.len() as int), angles, blurs }
}

/// The nudged lengths of the three intervals of the bin `dest`, added up.
pub open spec fn bin_width(intervals: Seq<Interval>, dest: int) -> int {
    nudged_width(intervals[3 * dest]) + nudged_width(intervals[3 * dest + 1]) + nudged_width(
        intervals[3 * dest + 2],
    )
}

/// A fault found among the first pairs is the fault of every longer scan.
pub proof fn lemma_first_interval_fault_persists(
    intervals: Seq<Interval>,
    directions: int,
    n: int,
    m: int,
)
    requires
        0 <= n <= m,
        first_interval_fault(intervals, directions, n).is_some(),
    ensures
        first_interval_fault(intervals, directions, m) == first_interval_fault(
            intervals,
            directions,
            n,
        ),
    decreases m - n,
{
    if n < m {
        lemma_first_interval_fault_persists(intervals, directions, n, m - 1);
    }
}

/// A scan without fault has no fault in any shorter scan.
pub proof fn lemma_no_interval_fault_before(
    intervals: Seq<Interval>,
    directions: int,
    n: int,
    m: int,
)
    requires
        0 <= n <= m,
        first_interval_fault(intervals, directions, m).is_none(),
    ensures
        first_interval_fault(intervals, directions, n).is_none(),
        n < m ==> interval_fault(intervals[n], directions).is_none(),
    decreases m - n,
{
    if n < m {
        lemma_no_interval_fault_before(intervals, directions, n + 1, m);
    }
}

/// Appending the entries of one faultless interval adds the interval's nudged
/// length to the weights that feed its bin, and nothing to the others.
pub proof fn lemma_pair_weight(
    prev: Seq<GatherEntry>,
    iv: Interval,
    pair: int,
    directions: int,
    dest: int,
)
    requires
        interval_fault(iv, directions).is_none(),
    ensures
        ({
            let all = prev + pair_entries(iv, pair);
            weight_into(all, dest, all.len() as int) == weight_into(prev, dest, prev.len() as int)
                + if pair / 3 == dest {
                nudged_width(iv)
            } else {
                0
            }
        }),
{
    lemma_interval_parts(iv, directions);
    let added = pair_entries(iv, pair);
    let all = prev + added;
    let base = prev.len() as int;
    lemma_weight_prefix(all, prev, dest, base);
    assert(all[base] == added[0]);
    assert(weight_into(all, dest, base + 1) == weight_into(all, dest, base) + if pair / 3 == dest {
        interval_parts(iv)[0].1
    } else {
        0
    });
    if added.len() == 2 {
        assert(all[base + 1] == added[1]);
        assert(weight_into(all, dest, base + 2) == weight_into(all, dest, base + 1) + if pair / 3
            == dest {
            interval_parts(iv)[1].1
        } else {
            0
        });
    }
}

/// In the table that faultless intervals give, the weights that feed a bin add
/// up to the nudged lengths of the bin's three intervals.
pub proof fn lemma_interval_table_widths(
    intervals: Seq<Interval>,
    directions: int,
    dest: int,
    bins: int,
)
    requires
        0 <= bins,
        3 * bins <= intervals.len(),
        0 <= dest,
        first_interval_fault(intervals, directions, 3 * bins).is_none(),
    ensures
        ({
            let entries = interval_entries(intervals, 3 * bins);
            weight_into(entries, dest, entries.len() as int) == if dest < bins {
                bin_width(intervals, dest)
            } else {
                0
            }
        }),
    decreases bins,
{
    if bins > 0 {
        let n = 3 * bins;
        lemma_no_interval_fault_before(intervals, directions, n - 3, n);
        lemma_no_interval_fault_before(intervals, directions, n - 2, n);
        lemma_no_interval_fault_before(intervals, directions, n - 1, n);
        lemma_interval_table_widths(intervals, directions, dest, bins - 1);
        let e0 = interval_entries(intervals, n - 3);
        let e1 = interval_entries(intervals, n - 2);
        let e2 = interval_entries(intervals, n - 1);
        lemma_pair_weight(e0, intervals[n - 3], n - 3, directions, dest);
        lemma_pair_weight(e1, intervals[n - 2], n - 2, directions, dest);
        lemma_pair_weight(e2, intervals[n - 1], n - 1, directions, dest);
    }
}

/// The entries of faultless intervals read neighbouring cells, name bins of
/// the layout and weigh at most one whole each.
pub proof fn lemma_interval_entries_wf(intervals: Seq<Interval>, directions: int, n: int)
    requires
        0 <= n <= intervals.len(),
        n <= 3 * directions,
        first_interval_fault(intervals, directions, n).is_none(),
    ensures
        forall|i: int|
            0 <= i < interval_entries(intervals, n).len() ==> {
                let e = #[trigger] interval_entries(intervals, n)[i];
                &&& crate::geometry::is_unit(e.offset)
                &&& 0 <= e.source < directions
                &&& 0 <= e.dest < directions
                &&& 0 <= e.weight <= UNIT
            },
    decreases n,
{
    if n > 0 {
        lemma_no_interval_fault_before(intervals, directions, n - 1, n);
        lemma_interval_entries_wf(intervals, directions, n - 1);
        lemma_interval_parts(intervals[n - 1], directions);
        let prev = interval_entries(intervals, n - 1);
        let added = pair_entries(intervals[n - 1], n - 1);
        let all = interval_entries(intervals, n);
        assert forall|i: int| 0 <= i < all.len() implies {
            let e = #[trigger] all[i];
            &&& crate::geometry::is_unit(e.offset)
            &&& 0 <= e.source < directions
            &&& 0 <= e.dest < directions
            &&& 0 <= e.weight <= UNIT
        } by {
            if i < prev.len() {
                assert(all[i] == prev[i]);
            } else {
                let j = i - prev.len();
                assert(all[i] == added[j]);
                let part = interval_parts(intervals[n - 1])[j];
                assert(0 <= part.0 < directions && 0 < part.1 <= UNIT);
            }
        }
    }
}

/// Makes the gather table of a layout from the interval of source bins that
/// each bin sees through each of its three neighbouring cells: three intervals
/// for each bin, bin by bin, in the order of `canonical_offset`. Or says which
/// interval is wrong.
pub fn compute_interval_gathers(layout: DirectionLayout, intervals: &Vec<Interval>) -> (r: Result<
    GatherData,
    GatherError,
>)
    requires
        layout.wf(),
    ensures
        match interval_table_fault(layout.spec_directions(), intervals@) {
            Some(e) => r is Err && r->Err_0 == e,
            None => {
                &&& r is Ok
                &&& r->Ok_0.wf()
                &&& r->Ok_0@ == interval_table(layout.angles@, layout.blurs@, intervals@)
                &&& forall|dest: int|
                    0 <= dest < layout.spec_directions() ==> #[trigger] weight_into(
                        r->Ok_0@.entries,
                        dest,
                        r->Ok_0@.entries.len() as int,
                    ) == bin_width(intervals@, dest)
            },
        },
{
    let count: u32 = layout.directions();
    let pairs: usize = 3 * (count as usize);
    if intervals.len() != pairs {
        return Err(GatherError::LengthMismatch);
    }
    let mut gathers: Vec<Gather> = Vec::new();
    let mut transmissions: Vec<u32> = Vec::new();
    let mut pair: usize = 0;
    while pair < pairs
        invariant
            pair <= pairs,
            pairs == 3 * count,
            count == layout.spec_directions(),
            count <= MAX_DIRECTIONS,
            intervals@.len() == pairs,
            gathers@.len() == transmissions@.len(),
            first_interval_fault(intervals@, count as int, pair as int).is_none(),
            entries_of(gathers@, transmissions@) == interval_entries(intervals@, pair as int),
        decreases pairs - pair,
    {
        let bin: u32 = (pair / 3) as u32;
        let neighbor: u32 = (pair % 3) as u32;
        let offset = if neighbor == 0 {
            Offset { x: -1, y: 0 }
        } else if neighbor == 1 {
            Offset { x: 0, y: 1 }
        } else {
            Offset { x: 0, y: -1 }
        };
        let ghost before = entries_of(gathers@, transmissions@);
        match split_interval(intervals[pair], count) {
            Err(fault) => {
                proof {
                    lemma_first_interval_fault_persists(
                        intervals@,
                        count as int,
                        pair + 1,
                        pairs as int,
                    );
                }
                return Err(GatherError::BadInterval { bin, neighbor, fault });
            },
            Ok(parts) => {
                gathers.push(Gather { offset, source: parts.first.source, direction: bin });
                transmissions.push(parts.first.weight);
                match parts.second {
                    Some(second) => {
                        gathers.push(Gather { offset, source: second.source, direction: bin });
                        transmissions.push(second.weight);
                    },
                    None => {},
                }
                proof {
                    assert(entries_of(gathers@, transmissions@) =~= before + pair_entries(
                        intervals@[pair as int],
                        pair as int,
                    ));
                }
            },
        }
        pair = pair + 1;
    }
    let table = GatherData {
        gathers,
        angles: layout.angles,
        blurs: layout.blurs,
        transmissions,
    };
    proof {
        lemma_interval_entries_wf(intervals@, count as int, pairs as int);
        assert forall|dest: int| 0 <= dest < count implies #[trigger] weight_into(
            table@.entries,
            dest,
            table@.entries.len() as int,
        ) == bin_width(intervals@, dest) by {
            lemma_interval_table_widths(intervals@, count as int, dest, count as int);
        }
    }
    Ok(table)
}

/// Where the nudged lengths of each bin's three intervals add up to one
/// whole, the weights that feed each bin add up to one whole.
pub proof fn lemma_interval_table_normalized(
    angles: Seq<Angle>,
    blurs: Seq<u32>,
    intervals: Seq<Interval>,
)
    requires
        valid_layout(angles, blurs),
        interval_table_fault(angles.len() as int, intervals).is_none(),
        forall|dest: int|
            0 <= dest < angles.len() ==> #[trigger] bin_width(intervals, dest) == UNIT,
    ensures
        interval_table(angles, blurs, intervals).wf(),
        interval_table(angles, blurs, intervals).normalized(),
{
    let t = interval_table(angles, blurs, intervals);
    let n = angles.len() as int;
    lemma_interval_entries_wf(intervals, n, 3 * n);
    assert forall|dest: int| 0 <= dest < n implies #[trigger] weight_into(
        t.entries,
        dest,
        t.entries.len() as int,
    ) == UNIT by {
        lemma_interval_table_widths(intervals, n, dest, n);
        assert(bin_width(intervals, dest) == UNIT);
    }
}

} // verus!
