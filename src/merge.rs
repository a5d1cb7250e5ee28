//! The client's merge engine: a bounded window of portions per link, pairing
//! of the two portions of one sweep, and their merge into one complete frame.

use vstd::prelude::*;
use std::collections::VecDeque;
use crate::double_buffer::{bounded_push, push_bounded, DoubleBuffer};
use crate::sweep::{
    copy_row, copy_rows, overlap_rows, portion_rows, row_views, RadarSweep, AZIMUTH_BINS,
    OVERLAP_END, OVERLAP_START,
};

verus! {

/// Largest timestamp gap, in microseconds, below which two portions with the
/// same sequence id count as one sweep.
pub const SYNC_TOLERANCE_US: u64 = 100_000;

/// A complete sweep put back together from its two portions.
#[derive(Clone, Debug)]
pub struct MergedRadarFrame<S> {
    pub sequence_id: u64,
    pub timestamp: u64,
    pub range_bins: Vec<S>,
    /// Intensity, indexed `[azimuth][range]`.
    pub complete_data: Vec<Vec<S>>,
    /// Degrees per azimuth bin.
    pub azimuth_resolution: u32,
}

/// Whether `m` is the seam reconciled from the seams `o1` and `o2`: row by
/// row, where both have a row, the element-wise average (over the shorter
/// row's length); where only one has it, that row as it is.
pub open spec fn seam_merged<S, F: Fn(S, S) -> S>(
    o1: Seq<Seq<S>>,
    o2: Seq<Seq<S>>,
    m: Seq<Seq<S>>,
    avg: F,
) -> bool {
    &&& m.len() == if o1.len() >= o2.len() {
        o1.len()
    } else {
        o2.len()
    }
    &&& forall|i: int|
        0 <= i < m.len() ==> if i < o1.len() && i < o2.len() {
            &&& m[i].len() == if o1[i].len() <= o2[i].len() {
                o1[i].len()
            } else {
                o2[i].len()
            }
            &&& forall|k: int|
                0 <= k < m[i].len() ==> call_ensures(avg, (o1[i][k], o2[i][k]), #[trigger] m[i][k])
        } else if i < o1.len() {
            m[i] == o1[i]
        } else {
            m[i] == o2[i]
        }
}

/// The rows of portion 0 before the seam.
pub open spec fn lead_rows<S>(d: Seq<Seq<S>>) -> Seq<Seq<S>> {
    if d.len() <= OVERLAP_START {
        d
    } else {
        d.subrange(0, OVERLAP_START as int)
    }
}

/// The rows of portion 1 after the seam.
pub open spec fn trail_rows<S>(d: Seq<Seq<S>>) -> Seq<Seq<S>> {
    if d.len() > OVERLAP_END - OVERLAP_START {
        d.subrange((OVERLAP_END - OVERLAP_START) as int, d.len() as int)
    } else {
        Seq::empty()
    }
}

/// Whether `f` is the frame merged from portion `portion0` and portion `portion1`: the
/// rows of `portion0` before the seam, the reconciled seam, then the rows of `portion1`
/// after the seam; id, timestamp and range bins from `portion0`.
pub open spec fn merge_of<S, F: Fn(S, S) -> S>(
    f: MergedRadarFrame<S>,
    portion0: RadarSweep<S>,
    portion1: RadarSweep<S>,
    avg: F,
) -> bool {
    let lead = lead_rows(row_views(portion0.data@));
    let trail = trail_rows(row_views(portion1.data@));
    let rows = row_views(f.complete_data@);
    let seam_len = rows.len() - lead.len() - trail.len();
    &&& f.sequence_id == portion0.sequence_id
    &&& f.timestamp == portion0.timestamp
    &&& f.range_bins@ == portion0.range_bins@
    &&& f.azimuth_resolution == 1
    &&& rows.len() >= lead.len() + trail.len()
    &&& rows.subrange(0, lead.len() as int) == lead
    &&& seam_merged(
        row_views(portion0.overlap_region@),
        row_views(portion1.overlap_region@),
        rows.subrange(lead.len() as int, lead.len() + seam_len),
        avg,
    )
    &&& rows.subrange(lead.len() + seam_len, rows.len() as int) == trail
}

/// Averages two rows element by element, over the shorter one's length.
fn average_rows<S: Copy, F: Fn(S, S) -> S>(r1: &Vec<S>, r2: &Vec<S>, avg: &F) -> (r: Vec<S>)
    requires
        forall|a: S, b: S| call_requires(*avg, (a, b)),
    ensures
        r@.len() == if r1@.len() <= r2@.len() {
            r1@.len()
        } else {
            r2@.len()
        },
        forall|k: int| 0 <= k < r@.len() ==> call_ensures(*avg, (r1@[k], r2@[k]), #[trigger] r@[k]),
{
    let n = if r1.len() <= r2.len() {
        r1.len()
    } else {
        r2.len()
    };
    let mut out: Vec<S> = Vec::new();
    let mut k: usize = 0;
    while k < n
        invariant
            k <= n,
            n <= r1@.len(),
            n <= r2@.len(),
            out@.len() == k,
            forall|a: S, b: S| call_requires(*avg, (a, b)),
            forall|j: int| 0 <= j < k ==> call_ensures(*avg, (r1@[j], r2@[j]), #[trigger] out@[j]),
        decreases n - k,
    {
        let v = avg(r1[k], r2[k]);
        out.push(v);
        k = k + 1;
    }
    out
}

/// Reconciles the two seams row by row: the average where both sides have a
/// row, the row that is there where only one side has it.
pub fn merge_overlap_region<S: Copy, F: Fn(S, S) -> S>(
    overlap1: &Vec<Vec<S>>,
    overlap2: &Vec<Vec<S>>,
    avg: &F,
) -> (r: Vec<Vec<S>>)
    requires
        forall|a: S, b: S| call_requires(*avg, (a, b)),
    ensures
        seam_merged(row_views(overlap1@), row_views(overlap2@), row_views(r@), *avg),
{
    let n = if overlap1.len() >= overlap2.len() {
        overlap1.len()
    } else {
        overlap2.len()
    };
    let mut merged: Vec<Vec<S>> = Vec::new();
    let mut i: usize = 0;
    let ghost o1 = row_views(overlap1@);
    let ghost o2 = row_views(overlap2@);
    while i < n
        invariant
            i <= n,
            n == if overlap1@.len() >= overlap2@.len() {
                overlap1@.len()
            } else {
                overlap2@.len()
            },
            o1 == row_views(overlap1@),
            o2 == row_views(overlap2@),
            merged@.len() == i,
            forall|a: S, b: S| call_requires(*avg, (a, b)),
            forall|j: int|
                0 <= j < i ==> if j < o1.len() && j < o2.len() {
                    &&& (#[trigger] merged@[j])@.len() == if o1[j].len() <= o2[j].len() {
                        o1[j].len()
                    } else {
                        o2[j].len()
                    }
                    &&& forall|k: int|
                        0 <= k < merged@[j]@.len() ==> call_ensures(
                            *avg,
                            (o1[j][k], o2[j][k]),
                            #[trigger] merged@[j]@[k],
                        )
                } else if j < o1.len() {
                    merged@[j]@ == o1[j]
                } else {
                    merged@[j]@ == o2[j]
                },
        decreases n - i,
    {
        let row = if i < overlap1.len() && i < overlap2.len() {
            average_rows(&overlap1[i], &overlap2[i], avg)
        } else if i < overlap1.len() {
            copy_row(&overlap1[i])
        } else {
            copy_row(&overlap2[i])
        };
        merged.push(row);
        i = i + 1;
    }
    let ghost m = row_views(merged@);
    assert forall|j: int| 0 <= j < m.len() implies m[j] == merged@[j]@ by {}
    merged
}

/// Appends the rows of `src` to `dst`.
fn append_rows<S: Copy>(dst: &mut Vec<Vec<S>>, src: &Vec<Vec<S>>)
    ensures
        row_views(final(dst)@) == row_views(old(dst)@) + row_views(src@),
{
    let mut k: usize = 0;
    while k < src.len()
        invariant
            k <= src@.len(),
            row_views(dst@) == row_views(old(dst)@) + row_views(src@).subrange(0, k as int),
        decreases src@.len() - k,
    {
        let row = copy_row(&src[k]);
        let ghost before = dst@;
        dst.push(row);
        assert(row_views(dst@) =~= row_views(before).push(src@[k as int]@));
        k = k + 1;
        assert(row_views(dst@) =~= row_views(old(dst)@) + row_views(src@).subrange(0, k as int));
    }
    assert(row_views(src@).subrange(0, src@.len() as int) =~= row_views(src@));
}

/// Merges portion 0 and portion 1 of one sweep into a complete frame: the
/// rows of portion 0 before the seam, the seams averaged, then the rows of
/// portion 1 after the seam.
pub fn merge_sweeps<S: Copy, F: Fn(S, S) -> S>(
    client1: RadarSweep<S>,
    client2: RadarSweep<S>,
    avg: &F,
) -> (r: MergedRadarFrame<S>)
    requires
        forall|a: S, b: S| call_requires(*avg, (a, b)),
    ensures
        merge_of(r, client1, client2, *avg),
{
    let lead_end = if client1.data.len() <= OVERLAP_START {
        client1.data.len()
    } else {
        OVERLAP_START
    };
    let mut complete_data = copy_rows(&client1.data, 0, lead_end);
    let seam = merge_overlap_region(&client1.overlap_region, &client2.overlap_region, avg);
    append_rows(&mut complete_data, &seam);
    let skip = OVERLAP_END - OVERLAP_START;
    let trail = if client2.data.len() > skip {
        copy_rows(&client2.data, skip, client2.data.len())
    } else {
        Vec::new()
    };
    append_rows(&mut complete_data, &trail);
    let ghost lead_v = lead_rows(row_views(client1.data@));
    let ghost trail_v = trail_rows(row_views(client2.data@));
    let ghost seam_v = row_views(seam@);
    proof {
        assert(row_views(client1.data@).subrange(0, lead_end as int) =~= lead_v);
        assert(row_views(trail@) =~= trail_v);
        let rows = row_views(complete_data@);
        assert(rows =~= lead_v + seam_v + trail_v);
        assert(rows.subrange(0, lead_v.len() as int) =~= lead_v);
        assert(rows.subrange(lead_v.len() as int, (lead_v.len() + seam_v.len()) as int) =~= seam_v);
        assert(rows.subrange((lead_v.len() + seam_v.len()) as int, rows.len() as int) =~= trail_v);
    }
    MergedRadarFrame {
        sequence_id: client1.sequence_id,
        timestamp: client1.timestamp,
        range_bins: client1.range_bins,
        complete_data,
        azimuth_resolution: 1,
    }
}

/// The distance between two timestamps.
pub open spec fn abs_diff(a: u64, b: u64) -> int {
    if a >= b {
        a - b
    } else {
        b - a
    }
}

/// Whether two portions belong to one sweep: the same sequence id, and
/// timestamps less than `tol` microseconds apart.
pub open spec fn in_sync<S>(a: RadarSweep<S>, b: RadarSweep<S>, tol: u64) -> bool {
    a.sequence_id == b.sequence_id && abs_diff(a.timestamp, b.timestamp) < tol
}

/// Whether some entry of `w1` and some entry of `w2` are in sync.
pub open spec fn has_pair<S>(w1: Seq<RadarSweep<S>>, w2: Seq<RadarSweep<S>>, tol: u64) -> bool {
    exists|i: int, j: int|
        0 <= i < w1.len() && 0 <= j < w2.len() && #[trigger] in_sync(w1[i], w2[j], tol)
}

/// Whether `(i, j)` is the first pair in sync, scanning `w1` in order and,
/// for each of its entries, `w2` in order.
pub open spec fn first_pair<S>(
    w1: Seq<RadarSweep<S>>,
    w2: Seq<RadarSweep<S>>,
    tol: u64,
    i: int,
    j: int,
) -> bool {
    &&& 0 <= i < w1.len()
    &&& 0 <= j < w2.len()
    &&& in_sync(w1[i], w2[j], tol)
    &&& forall|a: int, b: int|
        0 <= a < w1.len() && 0 <= b < w2.len() && (a < i || (a == i && b < j)) ==> !(
        #[trigger] in_sync(w1[a], w2[b], tol))
}

/// Whether `(n1, n2)` are the windows `(w1, w2)` after the first pair in sync
/// was taken out, and `(portion0, portion1)` is that pair.
pub open spec fn take_step<S>(
    w1: Seq<RadarSweep<S>>,
    w2: Seq<RadarSweep<S>>,
    tol: u64,
    n1: Seq<RadarSweep<S>>,
    n2: Seq<RadarSweep<S>>,
    portion0: RadarSweep<S>,
    portion1: RadarSweep<S>,
) -> bool {
    exists|i: int, j: int|
        #[trigger] first_pair(w1, w2, tol, i, j) && portion0 == w1[i] && portion1 == w2[j] && n1 == w1.remove(i)
            && n2 == w2.remove(j)
}

/// Whether `(n1, n2)` are the windows `(w1, w2)` after the first pair in sync
/// was taken out and merged into `f`.
pub open spec fn merge_step<S, F: Fn(S, S) -> S>(
    w1: Seq<RadarSweep<S>>,
    w2: Seq<RadarSweep<S>>,
    tol: u64,
    avg: F,
    n1: Seq<RadarSweep<S>>,
    n2: Seq<RadarSweep<S>>,
    f: MergedRadarFrame<S>,
) -> bool {
    exists|portion0: RadarSweep<S>, portion1: RadarSweep<S>|
        #[trigger] take_step(w1, w2, tol, n1, n2, portion0, portion1) && merge_of(f, portion0, portion1, avg)
}

/// A bounded window of received portions per link, and the pairing of the
/// two links' portions.
pub struct SlidingWindowProcessor<S> {
    window_size: usize,
    tolerance_us: u64,
    client1_data: VecDeque<RadarSweep<S>>,
    client2_data: VecDeque<RadarSweep<S>>,
}

impl<S> SlidingWindowProcessor<S> {
    /// The window of link 0 (portion 0), oldest first.
    pub closed spec fn window0(&self) -> Seq<RadarSweep<S>> {
        self.client1_data@
    }

    /// The window of link 1 (portion 1), oldest first.
    pub closed spec fn window1(&self) -> Seq<RadarSweep<S>> {
        self.client2_data@
    }

    /// How many portions each window keeps.
    pub closed spec fn capacity(&self) -> usize {
        self.window_size
    }

    /// The timestamp tolerance, in microseconds.
    pub closed spec fn tolerance(&self) -> u64 {
        self.tolerance_us
    }

    /// Empty windows that keep `window_size` portions each, pairing with the
    /// standard tolerance.
    pub fn new(window_size: usize) -> (r: Self)
        ensures
            r.window0() == Seq::<RadarSweep<S>>::empty(),
            r.window1() == Seq::<RadarSweep<S>>::empty(),
            r.capacity() == window_size,
            r.tolerance() == SYNC_TOLERANCE_US,
    {
        Self::with_tolerance(window_size, SYNC_TOLERANCE_US)
    }

    /// Empty windows that keep `window_size` portions each, pairing portions
    /// whose timestamps are less than `tolerance_us` apart.
    pub fn with_tolerance(window_size: usize, tolerance_us: u64) -> (r: Self)
        ensures
            r.window0() == Seq::<RadarSweep<S>>::empty(),
            r.window1() == Seq::<RadarSweep<S>>::empty(),
            r.capacity() == window_size,
            r.tolerance() == tolerance_us,
    {
        SlidingWindowProcessor {
            window_size,
            tolerance_us,
            client1_data: VecDeque::new(),
            client2_data: VecDeque::new(),
        }
    }

    /// How many portions wait in the window of `link`; zero for a link other
    /// than 0 and 1.
    pub fn pending(&self, link: usize) -> (r: usize)
        ensures
            r == if link == 0 {
                self.window0().len()
            } else if link == 1 {
                self.window1().len()
            } else {
                0
            },
    {
        if link == 0 {
            self.client1_data.len()
        } else if link == 1 {
            self.client2_data.len()
        } else {
            0
        }
    }

    /// Appends a portion to the window of link `client_id`, dropping that
    /// window's oldest portion if it then holds more than the capacity. A
    /// portion for any other link is dropped.
    pub fn add_client_data(&mut self, client_id: usize, sweep: RadarSweep<S>)
        ensures
            final(self).capacity() == old(self).capacity(),
            final(self).tolerance() == old(self).tolerance(),
            final(self).window0() == if client_id == 0 {
                bounded_push(old(self).window0(), sweep, old(self).capacity())
            } else {
                old(self).window0()
            },
            final(self).window1() == if client_id == 1 {
                bounded_push(old(self).window1(), sweep, old(self).capacity())
            } else {
                old(self).window1()
            },
    {
        if client_id == 0 {
            push_bounded(&mut self.client1_data, sweep, self.window_size);
        } else if client_id == 1 {
            push_bounded(&mut self.client2_data, sweep, self.window_size);
        }
    }

    /// Takes out of the windows the first pair in sync, scanning link 0's
    /// window in order and, for each of its portions, link 1's window in
    /// order. Leaves the windows as they are when no pair is in sync.
    pub fn find_synchronized_pair(&mut self) -> (r: Option<(RadarSweep<S>, RadarSweep<S>)>)
        ensures
            final(self).capacity() == old(self).capacity(),
            final(self).tolerance() == old(self).tolerance(),
            r is None <==> !has_pair(old(self).window0(), old(self).window1(), old(self).tolerance()),
            r is None ==> final(self).window0() == old(self).window0() && final(self).window1()
                == old(self).window1(),
            r is Some ==> final(self).window0().len() == old(self).window0().len() - 1,
            r matches Some((portion0, portion1)) ==> take_step(
                old(self).window0(),
                old(self).window1(),
                old(self).tolerance(),
                final(self).window0(),
                final(self).window1(),
                portion0,
                portion1,
            ),
    {
        let ghost w1 = self.client1_data@;
        let ghost w2 = self.client2_data@;
        let tol = self.tolerance_us;
        let mut i: usize = 0;
        while i < self.client1_data.len()
            invariant
                *self == *old(self),
                w1 == self.client1_data@,
                w2 == self.client2_data@,
                tol == self.tolerance_us,
                i <= w1.len(),
                forall|a: int, b: int|
                    0 <= a < i && 0 <= b < w2.len() ==> !(#[trigger] in_sync(w1[a], w2[b], tol)),
            decreases w1.len() - i,
        {
            let mut j: usize = 0;
            while j < self.client2_data.len()
                invariant
                    *self == *old(self),
                    w1 == self.client1_data@,
                    w2 == self.client2_data@,
                    tol == self.tolerance_us,
                    i < w1.len(),
                    j <= w2.len(),
                    forall|a: int, b: int|
                        0 <= a < i && 0 <= b < w2.len() ==> !(#[trigger] in_sync(
                            w1[a],
                            w2[b],
                            tol,
                        )),
                    forall|b: int| 0 <= b < j ==> !(#[trigger] in_sync(w1[i as int], w2[b], tol)),
                decreases w2.len() - j,
            {
                let a = &self.client1_data[i];
                let b = &self.client2_data[j];
                let gap = if a.timestamp >= b.timestamp {
                    a.timestamp - b.timestamp
                } else {
                    b.timestamp - a.timestamp
                };
                if a.sequence_id == b.sequence_id && gap < tol {
                    proof {
                        assert(first_pair(w1, w2, tol, i as int, j as int));
                    }
                    let s2 = self.client2_data.remove(j);
                    let s1 = self.client1_data.remove(i);
                    match (s1, s2) {
                        (Some(portion0), Some(portion1)) => {
                            proof {
                                assert(first_pair(w1, w2, tol, i as int, j as int) && portion0 == w1[i as int]
                                    && portion1 == w2[j as int] && self.client1_data@ == w1.remove(i as int)
                                    && self.client2_data@ == w2.remove(j as int));
                            }
                            return Some((portion0, portion1));
                        },
                        _ => {
                            proof {
                                assert(false);
                            }
                            return None;
                        },
                    }
                }
                j = j + 1;
            }
            i = i + 1;
        }
        None
    }

    /// Takes out the first pair in sync, if any, and merges it into a
    /// complete frame.
    pub fn try_merge_next_frame<F: Fn(S, S) -> S>(&mut self, avg: &F) -> (r: Option<
        MergedRadarFrame<S>,
    >) where S: Copy
        requires
            forall|a: S, b: S| call_requires(*avg, (a, b)),
        ensures
            final(self).capacity() == old(self).capacity(),
            final(self).tolerance() == old(self).tolerance(),
            r is None <==> !has_pair(old(self).window0(), old(self).window1(), old(self).tolerance()),
            r is None ==> final(self).window0() == old(self).window0() && final(self).window1()
                == old(self).window1(),
            r is Some ==> final(self).window0().len() == old(self).window0().len() - 1,
            r matches Some(f) ==> merge_step(
                old(self).window0(),
                old(self).window1(),
                old(self).tolerance(),
                *avg,
                final(self).window0(),
                final(self).window1(),
                f,
            ),
    {
        match self.find_synchronized_pair() {
            Some((portion0, portion1)) => {
                let ghost g0 = portion0;
                let ghost g1 = portion1;
                let f = merge_sweeps(portion0, portion1, avg);
                proof {
                    assert(take_step(
                        old(self).window0(),
                        old(self).window1(),
                        old(self).tolerance(),
                        self.window0(),
                        self.window1(),
                        g0,
                        g1,
                    ) && merge_of(f, g0, g1, *avg));
                }
                Some(f)
            },
            None => None,
        }
    }
}

/// The window `w` after `items` were appended one by one, each append
/// dropping the oldest portion beyond `cap`.
pub open spec fn push_all<T>(w: Seq<T>, items: Seq<T>, cap: usize) -> Seq<T>
    decreases items.len(),
{
    if items.len() == 0 {
        w
    } else {
        bounded_push(push_all(w, items.drop_last(), cap), items.last(), cap)
    }
}

/// Whether `states` are the windows before each of `frames` was merged and
/// after the last: each frame came from the first pair in sync of the
/// windows before it.
pub open spec fn merge_chain<S, F: Fn(S, S) -> S>(
    states: Seq<(Seq<RadarSweep<S>>, Seq<RadarSweep<S>>)>,
    frames: Seq<MergedRadarFrame<S>>,
    tol: u64,
    avg: F,
) -> bool {
    &&& states.len() == frames.len() + 1
    &&& forall|k: int|
        0 <= k < frames.len() ==> merge_step(
            states[k].0,
            states[k].1,
            tol,
            avg,
            states[k + 1].0,
            states[k + 1].1,
            #[trigger] frames[k],
        )
}

/// The side of a double buffer that takes writes after a processing tick:
/// swapped if it held something, as it was if it was empty.
pub open spec fn front_after_tick<T>(b: DoubleBuffer<T>) -> bool {
    if b.active().len() > 0 {
        !b.front_active()
    } else {
        b.front_active()
    }
}

impl<S> SlidingWindowProcessor<S> {
    /// Drains a batch into the window of `link`, oldest first.
    fn ingest(&mut self, link: usize, batch: VecDeque<RadarSweep<S>>)
        requires
            link == 0 || link == 1,
        ensures
            final(self).capacity() == old(self).capacity(),
            final(self).tolerance() == old(self).tolerance(),
            final(self).window0() == if link == 0 {
                push_all(old(self).window0(), batch@, old(self).capacity())
            } else {
                old(self).window0()
            },
            final(self).window1() == if link == 1 {
                push_all(old(self).window1(), batch@, old(self).capacity())
            } else {
                old(self).window1()
            },
    {
        let ghost items = batch@;
        let mut rest = batch;
        let ghost mut k: int = 0;
        while rest.len() > 0
            invariant
                link == 0 || link == 1,
                0 <= k <= items.len(),
                rest@ == items.subrange(k, items.len() as int),
                self.capacity() == old(self).capacity(),
                self.tolerance() == old(self).tolerance(),
                self.window0() == if link == 0 {
                    push_all(old(self).window0(), items.subrange(0, k), old(self).capacity())
                } else {
                    old(self).window0()
                },
                self.window1() == if link == 1 {
                    push_all(old(self).window1(), items.subrange(0, k), old(self).capacity())
                } else {
                    old(self).window1()
                },
            decreases rest@.len(),
        {
            match rest.pop_front() {
                Some(sweep) => {
                    proof {
                        assert(items.subrange(0, k + 1).drop_last() =~= items.subrange(0, k));
                        assert(items.subrange(0, k + 1).last() == sweep);
                    }
                    self.add_client_data(link, sweep);
                    proof {
                        k = k + 1;
                        assert(rest@ =~= items.subrange(k, items.len() as int));
                    }
                },
                None => {},
            }
        }
        assert(items.subrange(0, items.len() as int) =~= items);
    }

    /// One processing tick: takes what each link's double buffer gathered
    /// (swapping only a buffer that holds something), appends it to that
    /// link's window, then merges pairs in sync until none is left. Gives the
    /// merged frames in the order they were made.
    pub fn process_tick<F: Fn(S, S) -> S>(
        &mut self,
        buffer0: &mut DoubleBuffer<RadarSweep<S>>,
        buffer1: &mut DoubleBuffer<RadarSweep<S>>,
        avg: &F,
    ) -> (r: Vec<MergedRadarFrame<S>>) where S: Copy
        requires
            old(buffer0).wf(),
            old(buffer1).wf(),
            forall|a: S, b: S| call_requires(*avg, (a, b)),
        ensures
            final(buffer0).wf(),
            final(buffer1).wf(),
            final(buffer0).active() == Seq::<RadarSweep<S>>::empty(),
            final(buffer1).active() == Seq::<RadarSweep<S>>::empty(),
            final(buffer0).capacity() == old(buffer0).capacity(),
            final(buffer1).capacity() == old(buffer1).capacity(),
            final(buffer0).front_active() == front_after_tick(*old(buffer0)),
            final(buffer1).front_active() == front_after_tick(*old(buffer1)),
            final(self).capacity() == old(self).capacity(),
            final(self).tolerance() == old(self).tolerance(),
            !has_pair(final(self).window0(), final(self).window1(), final(self).tolerance()),
            exists|states: Seq<(Seq<RadarSweep<S>>, Seq<RadarSweep<S>>)>|
                #[trigger] merge_chain(states, r@, old(self).tolerance(), *avg) && states[0] == (
                    push_all(old(self).window0(), old(buffer0).active(), old(self).capacity()),
                    push_all(old(self).window1(), old(buffer1).active(), old(self).capacity()),
                ) && states.last() == (final(self).window0(), final(self).window1()),
    {
        let batch0 = if buffer0.front_buffer_size() > 0 {
            buffer0.swap_buffers()
        } else {
            VecDeque::new()
        };
        let batch1 = if buffer1.front_buffer_size() > 0 {
            buffer1.swap_buffers()
        } else {
            VecDeque::new()
        };
        proof {
            assert(push_all(self.window0(), Seq::<RadarSweep<S>>::empty(), self.capacity())
                == self.window0());
            assert(push_all(self.window1(), Seq::<RadarSweep<S>>::empty(), self.capacity())
                == self.window1());
        }
        self.ingest(0, batch0);
        self.ingest(1, batch1);
        let ghost tol = self.tolerance();
        let ghost start = (self.window0(), self.window1());
        let ghost mut states: Seq<(Seq<RadarSweep<S>>, Seq<RadarSweep<S>>)> = seq![start];
        let mut frames: Vec<MergedRadarFrame<S>> = Vec::new();
        loop
            invariant
                forall|a: S, b: S| call_requires(*avg, (a, b)),
                self.capacity() == old(self).capacity(),
                self.tolerance() == tol,
                tol == old(self).tolerance(),
                merge_chain(states, frames@, tol, *avg),
                states[0] == start,
                states.last() == (self.window0(), self.window1()),
            ensures
                !has_pair(self.window0(), self.window1(), tol),
                merge_chain(states, frames@, tol, *avg),
                states[0] == start,
                states.last() == (self.window0(), self.window1()),
            decreases self.window0().len(),
        {
            let ghost before = (self.window0(), self.window1());
            match self.try_merge_next_frame(avg) {
                Some(f) => {
                    proof {
                        let old_states = states;
                        let old_frames = frames@;
                        states = states.push((self.window0(), self.window1()));
                        assert forall|k: int| 0 <= k < old_frames.len() + 1 implies merge_step(
                            states[k].0,
                            states[k].1,
                            tol,
                            *avg,
                            states[k + 1].0,
                            states[k + 1].1,
                            #[trigger] old_frames.push(f)[k],
                        ) by {
                            if k < old_frames.len() {
                                assert(old_frames.push(f)[k] == old_frames[k]);
                                assert(merge_step(
                                    old_states[k].0,
                                    old_states[k].1,
                                    tol,
                                    *avg,
                                    old_states[k + 1].0,
                                    old_states[k + 1].1,
                                    old_frames[k],
                                ));
                            } else {
                                assert(states[k] == before);
                            }
                        };
                    }
                    frames.push(f);
                },
                None => {
                    break ;
                },
            }
        }
        proof {
            assert(merge_chain(states, frames@, tol, *avg));
        }
        frames
    }
}

/// A merged frame always comes from a pair in sync: the two portions have
/// the frame's sequence id, and timestamps less than the tolerance apart.
pub proof fn lemma_merge_needs_sync<S, F: Fn(S, S) -> S>(
    w1: Seq<RadarSweep<S>>,
    w2: Seq<RadarSweep<S>>,
    tol: u64,
    avg: F,
    n1: Seq<RadarSweep<S>>,
    n2: Seq<RadarSweep<S>>,
    f: MergedRadarFrame<S>,
)
    requires
        merge_step(w1, w2, tol, avg, n1, n2, f),
    ensures
        exists|i: int, j: int|
            0 <= i < w1.len() && 0 <= j < w2.len() && w1[i].sequence_id == f.sequence_id
                && w2[j].sequence_id == f.sequence_id && abs_diff(w1[i].timestamp, w2[j].timestamp)
                < tol,
{
    let (portion0, portion1) = choose|portion0: RadarSweep<S>, portion1: RadarSweep<S>|
        #[trigger] take_step(w1, w2, tol, n1, n2, portion0, portion1) && merge_of(f, portion0, portion1, avg);
    let (i, j) = choose|i: int, j: int|
        #[trigger] first_pair(w1, w2, tol, i, j) && portion0 == w1[i] && portion1 == w2[j] && n1 == w1.remove(
            i,
        ) && n2 == w2.remove(j);
    assert(0 <= i < w1.len() && 0 <= j < w2.len() && w1[i].sequence_id == f.sequence_id
        && w2[j].sequence_id == f.sequence_id && abs_diff(w1[i].timestamp, w2[j].timestamp) < tol);
}

/// Two portions, one waiting on each link, can be merged exactly when they
/// have the same sequence id and timestamps less than the tolerance apart.
pub proof fn lemma_single_pair<S>(a: RadarSweep<S>, b: RadarSweep<S>, tol: u64)
    ensures
        has_pair(seq![a], seq![b], tol) <==> (a.sequence_id == b.sequence_id && abs_diff(
            a.timestamp,
            b.timestamp,
        ) < tol),
{
    if a.sequence_id == b.sequence_id && abs_diff(a.timestamp, b.timestamp) < tol {
        assert(in_sync(seq![a][0], seq![b][0], tol));
    }
}

/// Splitting a complete frame into its two portions and merging them gives
/// the frame back, provided the average of a value with itself is that value.
pub proof fn lemma_split_then_merge<S, F: Fn(S, S) -> S>(
    frame: Seq<Seq<S>>,
    portion0: RadarSweep<S>,
    portion1: RadarSweep<S>,
    avg: F,
    f: MergedRadarFrame<S>,
)
    requires
        frame.len() == AZIMUTH_BINS,
        row_views(portion0.data@) == portion_rows(frame, 0),
        row_views(portion0.overlap_region@) == overlap_rows(frame, 0),
        row_views(portion1.data@) == portion_rows(frame, 1),
        row_views(portion1.overlap_region@) == overlap_rows(frame, 1),
        forall|a: S, r: S| call_ensures(avg, (a, a), r) ==> r == a,
        merge_of(f, portion0, portion1, avg),
    ensures
        row_views(f.complete_data@) == frame,
{
    let rows = row_views(f.complete_data@);
    let lead = lead_rows(row_views(portion0.data@));
    let trail = trail_rows(row_views(portion1.data@));
    let seam_len = rows.len() - lead.len() - trail.len();
    let seam = rows.subrange(lead.len() as int, lead.len() + seam_len);
    let o = frame.subrange(OVERLAP_START as int, OVERLAP_END as int);
    assert(lead =~= frame.subrange(0, OVERLAP_START as int));
    assert(trail =~= frame.subrange(OVERLAP_END as int, AZIMUTH_BINS as int));
    assert(seam.len() == OVERLAP_END - OVERLAP_START);
    assert(rows.len() == AZIMUTH_BINS);
    assert forall|i: int| 0 <= i < AZIMUTH_BINS implies #[trigger] rows[i] == frame[i] by {
        if i < OVERLAP_START {
            assert(rows.subrange(0, lead.len() as int)[i] == lead[i]);
        } else if i < OVERLAP_END {
            let k = i - OVERLAP_START;
            assert(seam[k] == rows[i]);
            assert(o[k] == frame[i]);
            assert(seam[k] =~= o[k]) by {
                assert forall|e: int| 0 <= e < seam[k].len() implies #[trigger] seam[k][e]
                    == o[k][e] by {
                    assert(call_ensures(avg, (o[k][e], o[k][e]), seam[k][e]));
                }
            }
        } else {
            let tail = rows.subrange((lead.len() + seam_len) as int, rows.len() as int);
            assert(tail[i - OVERLAP_END] == rows[i]);
            assert(trail[i - OVERLAP_END] == frame[i]);
        }
    };
    assert(rows =~= frame);
}

/// Appending to a full window drops its oldest portion and keeps the others
/// in order, so the dropped portion is gone from the window for good.
pub proof fn lemma_full_window_drops_oldest<T>(w: Seq<T>, x: T, cap: usize)
    requires
        w.len() == cap,
        cap > 0,
    ensures
        bounded_push(w, x, cap) == w.subrange(1, w.len() as int).push(x),
        bounded_push(w, x, cap).len() == cap,
{
    assert(bounded_push(w, x, cap) =~= w.subrange(1, w.len() as int).push(x));
}

/// At the standard tolerance, two portions with the same sequence id whose
/// timestamps lie 150 ms apart are never paired, and one 50 us apart are.
pub proof fn lemma_standard_tolerance<S>(a: RadarSweep<S>, b: RadarSweep<S>)
    requires
        a.sequence_id == b.sequence_id,
    ensures
        abs_diff(a.timestamp, b.timestamp) >= 100_000 ==> !has_pair(
            seq![a],
            seq![b],
            SYNC_TOLERANCE_US,
        ),
        abs_diff(a.timestamp, b.timestamp) == 150_000 ==> !has_pair(
            seq![a],
            seq![b],
            SYNC_TOLERANCE_US,
        ),
        abs_diff(a.timestamp, b.timestamp) == 50 ==> has_pair(seq![a], seq![b], SYNC_TOLERANCE_US),
{
    lemma_single_pair(a, b, SYNC_TOLERANCE_US);
}

} // verus!
