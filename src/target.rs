//! The kinds of echo source that the sweep simulator places, and the cells
//! of a sweep that one source's echo spreads to.

use vstd::prelude::*;

verus! {

/// The kind of a simulated echo source.
#[derive(Clone, Copy, Debug, PartialEq, Eq, Structural)]
pub enum TargetType {
    Aircraft,
    Weather,
    GroundClutter,
}

impl TargetType {
    /// Whether the simulator draws sources of this kind into a sweep: it
    /// draws weather only.
    pub fn is_rendered(&self) -> (r: bool)
        ensures
            r == (*self is Weather),
    {
        match self {
            TargetType::Weather => true,
            _ => false,
        }
    }
}

/// Azimuth bins an echo spreads to on each side of its source.
pub const SPREAD_AZIMUTH: usize = 2;

/// Range bins an echo spreads to on each side of its source.
pub const SPREAD_RANGE: usize = 3;

/// Number of offsets tried around a source: 5 azimuths by 7 ranges.
pub const SPREAD_OFFSETS: usize = 35;

/// One cell of a sweep that a source's echo reaches.
#[derive(Clone, Copy, Debug, PartialEq, Eq, Structural)]
pub struct SpreadCell {
    pub azimuth: usize,
    pub range: usize,
    /// Squared distance from the source, in bins.
    pub distance_sq: u32,
}

/// Azimuth offset of the `k`-th offset tried (azimuth outer, range inner).
pub open spec fn offset_azimuth(k: int) -> int {
    k / 7 - 2
}

/// Range offset of the `k`-th offset tried.
pub open spec fn offset_range(k: int) -> int {
    k % 7 - 3
}

/// The range bin that offset `k` reaches from range bin `range`: below the
/// first bin it falls on the first bin.
pub open spec fn spread_range(range: int, k: int) -> int {
    if range + offset_range(k) < 0 {
        0
    } else {
        range + offset_range(k)
    }
}

/// The cell that offset `k` reaches from the source at `(az, range)`; the
/// azimuth wraps around the full circle.
pub open spec fn spread_cell(az: int, range: int, k: int) -> SpreadCell {
    SpreadCell {
        azimuth: ((az + offset_azimuth(k) + 360) % 360) as usize,
        range: spread_range(range, k) as usize,
        distance_sq: (offset_azimuth(k) * offset_azimuth(k) + offset_range(k) * offset_range(
            k,
        )) as u32,
    }
}

/// The cells that the first `k` offsets reach, in the order they are tried,
/// keeping those within `bins` range bins.
pub open spec fn spread_upto(az: int, range: int, bins: int, k: int) -> Seq<SpreadCell> {
    Seq::new(k as nat, |i: int| spread_cell(az, range, i)).filter(
        |c: SpreadCell| (c.range as int) < bins,
    )
}

proof fn lemma_spread_step(az: int, range: int, bins: int, k: int)
    requires
        0 <= k,
        0 <= range,
        range + SPREAD_RANGE <= usize::MAX,
    ensures
        spread_upto(az, range, bins, k + 1) == if spread_range(range, k) < bins {
            spread_upto(az, range, bins, k).push(spread_cell(az, range, k))
        } else {
            spread_upto(az, range, bins, k)
        },
{
    let all = Seq::new((k + 1) as nat, |i: int| spread_cell(az, range, i));
    assert(all.drop_last() =~= Seq::new(k as nat, |i: int| spread_cell(az, range, i)));
    assert(all.last() == spread_cell(az, range, k));
    assert(spread_cell(az, range, k).range as int == spread_range(range, k));
    reveal(Seq::filter);
}

/// The cells of a sweep with `range_bins` range bins that the echo of a
/// source at azimuth bin `az_idx` and range bin `range_idx` spreads to: two
/// azimuths either side (wrapping around), three ranges either side (those
/// before the first bin fall on it, those past the last are dropped).
pub fn target_footprint(az_idx: usize, range_idx: usize, range_bins: usize) -> (r: Vec<SpreadCell>)
    requires
        az_idx < 360,
        range_idx < range_bins,
        range_bins <= usize::MAX - SPREAD_RANGE,
    ensures
        r@ == spread_upto(az_idx as int, range_idx as int, range_bins as int, SPREAD_OFFSETS as int),
{
    let mut out: Vec<SpreadCell> = Vec::new();
    let mut k: usize = 0;
    while k < SPREAD_OFFSETS
        invariant
            k <= SPREAD_OFFSETS,
            az_idx < 360,
            range_idx < range_bins <= usize::MAX - SPREAD_RANGE,
            out@ == spread_upto(az_idx as int, range_idx as int, range_bins as int, k as int),
        decreases SPREAD_OFFSETS - k,
    {
        let a = k / 7;
        let b = k % 7;
        assert(a < 5 && b < 7);
        let azimuth = (az_idx + 360 + a - SPREAD_AZIMUTH) % 360;
        let range = if b >= SPREAD_RANGE {
            range_idx + (b - SPREAD_RANGE)
        } else if range_idx < SPREAD_RANGE - b {
            0
        } else {
            range_idx - (SPREAD_RANGE - b)
        };
        let da: u32 = if a >= SPREAD_AZIMUTH {
            (a - SPREAD_AZIMUTH) as u32
        } else {
            (SPREAD_AZIMUTH - a) as u32
        };
        let dr: u32 = if b >= SPREAD_RANGE {
            (b - SPREAD_RANGE) as u32
        } else {
            (SPREAD_RANGE - b) as u32
        };
        proof {
            assert(da * da <= 4 && dr * dr <= 9) by (nonlinear_arith)
                requires
                    da <= 2,
                    dr <= 3,
            ;
            assert(offset_azimuth(k as int) == a - 2);
            assert(offset_range(k as int) == b - 3);
            assert(da * da == offset_azimuth(k as int) * offset_azimuth(k as int)) by (
            nonlinear_arith)
                requires
                    da == a - 2 || da == 2 - a,
                    offset_azimuth(k as int) == a - 2,
            ;
            assert(dr * dr == offset_range(k as int) * offset_range(k as int)) by (nonlinear_arith)
                requires
                    dr == b - 3 || dr == 3 - b,
                    offset_range(k as int) == b - 3,
            ;
        }
        proof {
            lemma_spread_step(az_idx as int, range_idx as int, range_bins as int, k as int);
        }
        if range < range_bins {
            out.push(SpreadCell { azimuth, range, distance_sq: da * da + dr * dr });
        }
        k = k + 1;
    }
    out
}

} // verus!
