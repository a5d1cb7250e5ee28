//! One sweep of the antenna, and the split of a complete sweep into the two
//! portions that travel over separate links.

use vstd::prelude::*;

verus! {

/// Number of one-degree azimuth bins in a complete sweep.
pub const AZIMUTH_BINS: usize = 360;

/// First azimuth bin of the seam that both portions carry.
pub const OVERLAP_START: usize = 170;

/// One past the last azimuth bin of the seam that both portions carry.
pub const OVERLAP_END: usize = 190;

/// A sweep as it travels over one link: a complete frame, or one portion of it.
///
/// `S` is the sample type of the intensity grid and of the range bins.
/// Azimuths are whole degrees.
#[derive(Clone, Debug)]
pub struct RadarSweep<S> {
    /// Microseconds since the epoch.
    pub timestamp: u64,
    pub sequence_id: u64,
    pub azimuth_start: u32,
    pub azimuth_end: u32,
    /// Distance of each range gate.
    pub range_bins: Vec<S>,
    /// Intensity, indexed `[azimuth][range]`.
    pub data: Vec<Vec<S>>,
    /// The seam rows, indexed `[angle][range]`.
    pub overlap_region: Vec<Vec<S>>,
    /// The portion this sweep belongs to.
    pub client_id: usize,
}

/// The rows of a grid, each seen as a sequence.
pub open spec fn row_views<S>(rows: Seq<Vec<S>>) -> Seq<Seq<S>> {
    rows.map_values(|r: Vec<S>| r@)
}

/// First azimuth bin that portion `id` covers.
pub open spec fn portion_start(id: usize) -> int {
    if id == 1 {
        OVERLAP_START as int
    } else {
        0
    }
}

/// One past the last azimuth bin that portion `id` covers.
pub open spec fn portion_end(id: usize) -> int {
    if id == 0 {
        OVERLAP_END as int
    } else {
        AZIMUTH_BINS as int
    }
}

/// Portions 0 and 1 carry the seam; any other id gets the whole sweep and no seam.
pub open spec fn portion_has_overlap(id: usize) -> bool {
    id == 0 || id == 1
}

/// The rows of a complete frame that portion `id` carries as its data.
pub open spec fn portion_rows<S>(frame: Seq<Seq<S>>, id: usize) -> Seq<Seq<S>> {
    frame.subrange(portion_start(id), portion_end(id))
}

/// The rows of a complete frame that portion `id` carries as its seam.
pub open spec fn overlap_rows<S>(frame: Seq<Seq<S>>, id: usize) -> Seq<Seq<S>> {
    if portion_has_overlap(id) {
        frame.subrange(OVERLAP_START as int, OVERLAP_END as int)
    } else {
        Seq::empty()
    }
}

/// Whether portion `id` carries azimuth bin `a`.
pub open spec fn portion_covers(id: usize, a: int) -> bool {
    portion_start(id) <= a < portion_end(id)
}

/// Both portions of one complete frame carry the same seam, and that seam is
/// the same rows as portion 0's data at `[170, 190)` and portion 1's data at
/// its first twenty rows.
pub proof fn lemma_seam_identical<S>(frame: Seq<Seq<S>>)
    requires
        frame.len() == AZIMUTH_BINS,
    ensures
        overlap_rows(frame, 0) == overlap_rows(frame, 1),
        overlap_rows(frame, 0) == portion_rows(frame, 0).subrange(
            OVERLAP_START as int,
            OVERLAP_END as int,
        ),
        overlap_rows(frame, 1) == portion_rows(frame, 1).subrange(
            0,
            (OVERLAP_END - OVERLAP_START) as int,
        ),
{
    assert(overlap_rows(frame, 0) =~= portion_rows(frame, 0).subrange(
        OVERLAP_START as int,
        OVERLAP_END as int,
    ));
    assert(overlap_rows(frame, 1) =~= portion_rows(frame, 1).subrange(
        0,
        (OVERLAP_END - OVERLAP_START) as int,
    ));
}

/// Portion 0 is azimuths `[0, 190)` and portion 1 is `[170, 360)` of the
/// complete frame, row for row; together they cover every azimuth, and the
/// bins that both cover are exactly the seam `[170, 190)`.
pub proof fn lemma_portions_cover<S>(frame: Seq<Seq<S>>)
    requires
        frame.len() == AZIMUTH_BINS,
    ensures
        portion_rows(frame, 0).len() == OVERLAP_END,
        portion_rows(frame, 1).len() == AZIMUTH_BINS - OVERLAP_START,
        forall|a: int| 0 <= a < OVERLAP_END ==> #[trigger] portion_rows(frame, 0)[a] == frame[a],
        forall|a: int|
            OVERLAP_START <= a < AZIMUTH_BINS ==> #[trigger] portion_rows(frame, 1)[a
                - OVERLAP_START] == frame[a],
        forall|a: int| 0 <= a < AZIMUTH_BINS ==> portion_covers(0, a) || portion_covers(1, a),
        forall|a: int|
            (portion_covers(0, a) && portion_covers(1, a)) <==> OVERLAP_START <= a < OVERLAP_END,
{
}

/// Copies one row.
pub fn copy_row<S: Copy>(row: &Vec<S>) -> (r: Vec<S>)
    ensures
        r@ == row@,
{
    let mut out: Vec<S> = Vec::new();
    let mut k: usize = 0;
    while k < row.len()
        invariant
            k <= row.len(),
            out@ == row@.subrange(0, k as int),
        decreases row.len() - k,
    {
        out.push(row[k]);
        k = k + 1;
        assert(out@ =~= row@.subrange(0, k as int));
    }
    assert(out@ =~= row@);
    out
}

/// Copies the rows `lo..hi` of a grid.
pub fn copy_rows<S: Copy>(rows: &Vec<Vec<S>>, lo: usize, hi: usize) -> (r: Vec<Vec<S>>)
    requires
        lo <= hi <= rows@.len(),
    ensures
        row_views(r@) == row_views(rows@).subrange(lo as int, hi as int),
{
    let mut out: Vec<Vec<S>> = Vec::new();
    let mut k: usize = lo;
    while k < hi
        invariant
            lo <= k <= hi <= rows@.len(),
            row_views(out@) =~= row_views(rows@).subrange(lo as int, k as int),
        decreases hi - k,
    {
        let row = copy_row(&rows[k]);
        let ghost before = out@;
        out.push(row);
        assert(row_views(out@) =~= row_views(before).push(rows@[k as int]@));
        k = k + 1;
        assert(row_views(out@) =~= row_views(rows@).subrange(lo as int, k as int));
    }
    out
}

/// Cuts portion `client_id` out of a complete sweep.
///
/// Portion 0 carries azimuths `[0, 190)`, portion 1 carries `[170, 360)`, and
/// both carry the seam `[170, 190)` taken from the same rows of the complete
/// sweep. Any other id gets the whole sweep and no seam. The complete sweep is
/// left as it was.
pub fn extract_client_portion<S: Copy>(complete_sweep: &RadarSweep<S>, client_id: usize) -> (r:
    RadarSweep<S>)
    requires
        complete_sweep.data@.len() == AZIMUTH_BINS,
    ensures
        r.timestamp == complete_sweep.timestamp,
        r.sequence_id == complete_sweep.sequence_id,
        r.azimuth_start == portion_start(client_id),
        r.azimuth_end == portion_end(client_id),
        r.range_bins@ == complete_sweep.range_bins@,
        row_views(r.data@) == portion_rows(row_views(complete_sweep.data@), client_id),
        row_views(r.overlap_region@) == overlap_rows(row_views(complete_sweep.data@), client_id),
        r.client_id == client_id,
{
    let (start, end): (usize, usize) = if client_id == 0 {
        (0, OVERLAP_END)
    } else if client_id == 1 {
        (OVERLAP_START, AZIMUTH_BINS)
    } else {
        (0, AZIMUTH_BINS)
    };
    let data = copy_rows(&complete_sweep.data, start, end);
    let overlap_region = if client_id == 0 || client_id == 1 {
        copy_rows(&complete_sweep.data, OVERLAP_START, OVERLAP_END)
    } else {
        Vec::new()
    };
    proof {
        if !portion_has_overlap(client_id) {
            assert(row_views(overlap_region@) =~= Seq::<Seq<S>>::empty());
        }
    }
    RadarSweep {
        timestamp: complete_sweep.timestamp,
        sequence_id: complete_sweep.sequence_id,
        azimuth_start: start as u32,
        azimuth_end: end as u32,
        range_bins: copy_row(&complete_sweep.range_bins),
        data,
        overlap_region,
        client_id,
    }
}

} // verus!
