use vstd::prelude::*;
use crate::bi::Bi;
use crate::cenum::{BiDir, LeftSegMethod, SegType};
use crate::chan_exception::{ChanError, ErrCode};
use crate::eigen::LineItem;
use crate::eigen_fx::{peak_at, EigenFX};
use crate::seg::{seg_ok, seg_values_ok, segs_ok, spec_truncate_after, Seg, SegConfig};

verus! {

/// Segments over a stroke list, found by characteristic-sequence fractals.
#[derive(Debug)]
pub struct SegListChan {
    pub lst: Vec<Seg>,
    pub lv: SegType,
    pub config: SegConfig,
}

impl SegListChan {
    pub open spec fn wf(&self, n_bis: int) -> bool {
        segs_ok(self.lst@, n_bis)
    }

    pub fn new(seg_config: SegConfig, lv: SegType) -> (r: Self)
        ensures
            r.lst@.len() == 0,
            r.config == seg_config,
            r.lv == lv,
            forall|n: int| r.wf(n),
    {
        SegListChan { lst: Vec::new(), lv, config: seg_config }
    }

    pub fn len(&self) -> (r: usize)
        ensures
            r == self.lst@.len(),
    {
        self.lst.len()
    }

    pub fn is_empty(&self) -> (r: bool)
        ensures
            r == (self.lst@.len() == 0),
    {
        self.lst.len() == 0
    }

    /// Whether some segment is confirmed.
    pub fn exist_sure_seg(&self) -> (r: bool)
        ensures
            r == exists|k: int| 0 <= k < self.lst@.len() && (#[trigger] self.lst@[k]).is_sure,
    {
        let mut i: usize = 0;
        while i < self.lst.len()
            invariant
                i <= self.lst@.len(),
                forall|k: int| 0 <= k < i ==> !(#[trigger] self.lst@[k]).is_sure,
            decreases self.lst@.len() - i,
        {
            if self.lst[i].is_sure {
                return true;
            }
            i += 1;
        }
        false
    }

    /// Keeps the segments up to and including index `i`.
    pub fn truncate_after(&mut self, i: usize)
        ensures
            final(self).lst@ == spec_truncate_after(old(self).lst@, i as int),
            final(self).config == old(self).config,
            final(self).lv == old(self).lv,
    {
        let n = self.lst.len();
        if i < usize::MAX && i + 1 < n {
            self.lst.truncate(i + 1);
        } else {
            proof {
                assert(!(i + 1 < old(self).lst@.len()));
            }
        }
    }

    /// Drops the tentative tail: trailing tentative segments, segments past the
    /// strokes there are, and a last confirmed segment whose fractal rested on a
    /// tentative stroke.
    pub fn do_init(&mut self, n_bis: usize)
        requires
            forall|k: int| 0 <= k < old(self).lst@.len() ==> #[trigger] seg_ok(old(self).lst@, k),
        ensures
            final(self).wf(n_bis as int),
            final(self).config == old(self).config,
            final(self).lv == old(self).lv,
            final(self).lst@.len() <= old(self).lst@.len(),
            forall|k: int| 0 <= k < final(self).lst@.len() ==> #[trigger] final(self).lst@[k] == old(self).lst@[k],
            forall|j: int| 0 <= j < old(self).lst@.len() && (#[trigger] old(self).lst@[j]).is_sure
                && old(self).lst@[j].end_bi < n_bis ==> j <= final(self).lst@.len(),
    {
        let ghost orig = self.lst@;
        while self.lst.len() > 0 && (!self.lst[self.lst.len() - 1].is_sure || self.lst[self.lst.len() - 1].end_bi >= n_bis)
            invariant
                forall|j: int| 0 <= j < orig.len() && (#[trigger] orig[j]).is_sure && orig[j].end_bi < n_bis
                    ==> j < self.lst@.len(),
                self.lst@.len() <= orig.len(),
                forall|k: int| 0 <= k < self.lst@.len() ==> #[trigger] self.lst@[k] == orig[k],
                forall|k: int| 0 <= k < orig.len() ==> #[trigger] seg_ok(orig, k),
                self.config == old(self).config,
                self.lv == old(self).lv,
            decreases self.lst@.len(),
        {
            self.lst.pop();
        }
        let n = self.lst.len();
        proof {
            if n > 0 {
                assert(self.lst@[n - 1] == orig[n - 1]);
            }
        }
        if n > 0 {
            let drop_last = match &self.lst[n - 1].eigen_fx {
                Some(fx) => match &fx.ele2 {
                    Some(e2) => e2.lst.len() > 0 && !e2.lst[e2.lst.len() - 1].is_sure,
                    None => false,
                },
                None => false,
            };
            if drop_last {
                self.lst.pop();
                proof {
                    assert(seg_ok(orig, n - 1));
                    if n > 1 {
                        assert(self.lst@[n - 2] == orig[n - 2]);
                    }
                }
            }
        }
        proof {
            let l = self.lst@;
            assert forall|k: int| 0 <= k < l.len() implies #[trigger] seg_ok(l, k) by {
                assert(seg_ok(orig, k));
                assert(l[k] == orig[k]);
                if k > 0 {
                    assert(l[k - 1] == orig[k - 1]);
                }
            }
        }
    }
}

/// Segment `s` was confirmed by its characteristic fractal: it points the
/// fractal's way, ends on the stroke before the fractal element's extreme
/// stroke, and is confirmed only when every stroke the fractal saw is.
pub open spec fn seg_from_fx(s: Seg) -> bool {
    &&& s.eigen_fx is Some
    &&& s.eigen_fx.unwrap().spec_found()
    &&& s.eigen_fx.unwrap().dir == s.dir
    &&& peak_at(s.eigen_fx.unwrap().ele1.unwrap(), s.end_bi as int)
    &&& s.is_sure ==> (s.eigen_fx.unwrap().last_evidence_bi matches Some(b) && b.is_sure) && forall|i: int|
        0 <= i < s.eigen_fx.unwrap().lst@.len() ==> (#[trigger] s.eigen_fx.unwrap().lst@[i]).is_sure
}

/// Highest price among the first `n` strokes.
pub open spec fn max_high_bis(bis: Seq<Bi>, n: int) -> int
    decreases n,
{
    if n <= 1 {
        bis[0].spec_high()
    } else {
        let m = max_high_bis(bis, n - 1);
        if bis[n - 1].spec_high() > m { bis[n - 1].spec_high() } else { m }
    }
}

/// Lowest price among the first `n` strokes.
pub open spec fn min_low_bis(bis: Seq<Bi>, n: int) -> int
    decreases n,
{
    if n <= 1 {
        bis[0].spec_low()
    } else {
        let m = min_low_bis(bis, n - 1);
        if bis[n - 1].spec_low() < m { bis[n - 1].spec_low() } else { m }
    }
}

/// The direction a new segment gets: the one asked for, else its last stroke's.
pub open spec fn seg_dir_of(bis: Seq<Bi>, end: int, seg_dir: Option<BiDir>) -> BiDir {
    match seg_dir {
        Some(d) => d,
        None => bis[end].dir,
    }
}

/// Appending a confirmed segment over strokes `start..=end` fails: it spans at
/// least two strokes beyond its start, so stays confirmed, yet its ends
/// contradict its direction.
pub open spec fn seg_fails(bis: Seq<Bi>, start: int, end: int, is_sure: bool, seg_dir: Option<BiDir>) -> bool {
    is_sure && end >= start + 2 && !seg_values_ok(seg_dir_of(bis, end, seg_dir), bis[start].spec_begin_val(), bis[end].spec_end_val())
}

/// `s` is the segment appended at index `idx` over strokes `start..=end`.
pub open spec fn new_seg_ok(s: Seg, idx: int, bis: Seq<Bi>, start: int, end: int, is_sure: bool, seg_dir: Option<BiDir>) -> bool {
    &&& s.idx == idx
    &&& s.start_bi == start
    &&& s.end_bi == end
    &&& s.dir == seg_dir_of(bis, end, seg_dir)
    &&& s.is_sure == (is_sure && end >= start + 2)
    &&& s.begin_val as int == bis[start].spec_begin_val()
    &&& s.end_val as int == bis[end].spec_end_val()
    &&& s.eigen_fx.is_none()
}

/// Stroke `i` passes the end of stroke `e` in `e`'s direction.
pub open spec fn breaks_end(bis: Seq<Bi>, e: int, i: int) -> bool {
    if bis[e].dir == BiDir::Up {
        bis[i].spec_high() > bis[e].spec_high()
    } else {
        bis[i].spec_low() < bis[e].spec_low()
    }
}

/// Each stroke of the list sits at its own index.
pub open spec fn bis_indexed(bis: Seq<Bi>) -> bool {
    forall|i: int| 0 <= i < bis.len() ==> (#[trigger] bis[i]).idx == i
}

impl SegListChan {
    /// Scans strokes `lo` to `hi` (backwards with `reverse`) for the most
    /// extreme up stroke (`is_high`) or down stroke, passing over one that the
    /// stroke two before it already exceeds.
    pub fn find_peak_bi(bis: &Vec<Bi>, lo: usize, hi: usize, reverse: bool, is_high: bool) -> (r: Option<usize>)
        requires
            lo <= hi,
            hi <= bis@.len(),
        ensures
            r matches Some(i) ==> lo <= i < hi && bis@[i as int].dir == (if is_high { BiDir::Up } else { BiDir::Down }),
    {
        let mut peak: Option<usize> = None;
        let mut peak_val: i64 = 0;
        let mut k: usize = 0;
        while k < hi - lo
            invariant
                lo <= hi,
                hi <= bis@.len(),
                k <= hi - lo,
                peak matches Some(i) ==> lo <= i < hi && bis@[i as int].dir == (if is_high { BiDir::Up } else { BiDir::Down }),
            decreases hi - lo - k,
        {
            let i = if reverse { hi - 1 - k } else { lo + k };
            let b = &bis[i];
            let v = b.get_end_val();
            let update = if is_high {
                b.is_up() && (peak.is_none() || v >= peak_val)
            } else {
                b.is_down() && (peak.is_none() || v <= peak_val)
            };
            if update {
                let skip = if i >= 2 {
                    let pp = bis[i - 2].get_end_val();
                    if is_high { pp > v } else { pp < v }
                } else {
                    false
                };
                if !skip {
                    peak = Some(i);
                    peak_val = v;
                }
            }
            k += 1;
        }
        peak
    }

    /// Whether a stroke after the last segment passes its end.
    pub fn left_bi_break(&self, bis: &Vec<Bi>) -> (r: bool)
        requires
            self.wf(bis@.len() as int),
        ensures
            r == (self.lst@.len() > 0 && exists|i: int| self.lst@.last().end_bi < i < bis@.len()
                && #[trigger] breaks_end(bis@, self.lst@.last().end_bi as int, i)),
    {
        let n = self.lst.len();
        if n == 0 {
            return false;
        }
        let nb = bis.len();
        let e = self.lst[n - 1].end_bi;
        let end_bi = &bis[e];
        let up = end_bi.is_up();
        let h = end_bi.high();
        let l = end_bi.low();
        let mut i = e + 1;
        while i < nb
            invariant
                e < i <= nb,
                nb == bis@.len(),
                self.lst@.len() > 0,
                e == self.lst@.last().end_bi,
                up == (bis@[e as int].dir == BiDir::Up),
                h == bis@[e as int].spec_high(),
                l == bis@[e as int].spec_low(),
                forall|j: int| e < j < i ==> !#[trigger] breaks_end(bis@, e as int, j),
            decreases nb - i,
        {
            if (up && bis[i].high() > h) || (!up && bis[i].low() < l) {
                assert(breaks_end(bis@, e as int, i as int));
                return true;
            }
            i += 1;
        }
        false
    }

    pub open spec fn next_start(&self) -> int {
        if self.lst@.len() == 0 { 0 } else { self.lst@.last().end_bi + 1 }
    }

    /// Appends the segment from the stroke after the last segment to stroke `end_bi_idx`.
    fn push_seg(&mut self, bis: &Vec<Bi>, end_bi_idx: usize, is_sure: bool, seg_dir: Option<BiDir>, reason: &str) -> (r: Result<(), ChanError>)
        requires
            old(self).wf(bis@.len() as int),
            bis_indexed(bis@),
            old(self).next_start() <= end_bi_idx < bis@.len(),
            is_sure && old(self).lst@.len() > 0 ==> (seg_dir matches Some(d) && d != old(self).lst@.last().dir),
        ensures
            final(self).wf(bis@.len() as int),
            final(self).config == old(self).config,
            final(self).lv == old(self).lv,
            r.is_ok() ==> final(self).lst@.len() == old(self).lst@.len() + 1 && final(self).lst@.drop_last() == old(self).lst@
                && final(self).lst@.last().end_bi == end_bi_idx
                && new_seg_ok(final(self).lst@.last(), old(self).lst@.len() as int, bis@, old(self).next_start(), end_bi_idx as int, is_sure, seg_dir),
            r.is_err() ==> final(self).lst@ == old(self).lst@,
            r.is_err() <==> seg_fails(bis@, old(self).next_start(), end_bi_idx as int, is_sure, seg_dir),
            r matches Err(e) ==> e.errcode == ErrCode::SegEndValueErr && is_sure,
    {
        let n = self.lst.len();
        let start = if n == 0 { 0 } else { self.lst[n - 1].end_bi + 1 };
        let seg = Seg::new(n, &bis[start], &bis[end_bi_idx], is_sure, seg_dir, reason)?;
        let ghost old_l = self.lst@;
        self.lst.push(seg);
        proof {
            let l = self.lst@;
            assert(l.drop_last() =~= old_l);
            assert forall|k: int| 0 <= k < l.len() implies #[trigger] seg_ok(l, k) by {
                if k < n {
                    assert(seg_ok(old_l, k));
                    assert(l[k] == old_l[k]);
                    if k > 0 {
                        assert(l[k - 1] == old_l[k - 1]);
                    }
                } else if k > 0 {
                    assert(l[k - 1] == old_l[k - 1]);
                }
            }
        }
        Ok(())
    }

    /// Appends the segment ending at stroke `end_bi_idx`. The first segment may
    /// first be split at an earlier extreme that passes the first stroke.
    pub fn try_add_new_seg(
        &mut self,
        bis: &Vec<Bi>,
        end_bi_idx: usize,
        is_sure: bool,
        seg_dir: Option<BiDir>,
        split_first_seg: bool,
        reason: &str,
    ) -> (r: Result<(), ChanError>)
        requires
            old(self).wf(bis@.len() as int),
            bis_indexed(bis@),
            old(self).next_start() <= end_bi_idx < bis@.len(),
            is_sure && old(self).lst@.len() > 0 ==> (seg_dir matches Some(d) && d != old(self).lst@.last().dir),
        ensures
            final(self).wf(bis@.len() as int),
            final(self).config == old(self).config,
            final(self).lv == old(self).lv,
            final(self).lst@.len() >= old(self).lst@.len(),
            forall|k: int| 0 <= k < old(self).lst@.len() ==> #[trigger] final(self).lst@[k] == old(self).lst@[k],
            r.is_ok() ==> final(self).lst@.len() > old(self).lst@.len() && final(self).lst@.last().end_bi == end_bi_idx,
            r.is_err() ==> final(self).lst@ == old(self).lst@,
            r matches Err(e) ==> e.errcode == ErrCode::SegEndValueErr,
            !is_sure ==> r.is_ok(),
            !is_sure ==> forall|k: int| old(self).lst@.len() <= k < final(self).lst@.len() ==> !(#[trigger] final(self).lst@[k]).is_sure,
            !(old(self).lst@.len() == 0 && split_first_seg && end_bi_idx >= 3) ==> (r.is_err() <==> seg_fails(
                bis@,
                old(self).next_start(),
                end_bi_idx as int,
                is_sure,
                seg_dir,
            )) && (r.is_ok() ==> final(self).lst@.len() == old(self).lst@.len() + 1 && new_seg_ok(
                final(self).lst@.last(),
                old(self).lst@.len() as int,
                bis@,
                old(self).next_start(),
                end_bi_idx as int,
                is_sure,
                seg_dir,
            )),
        decreases end_bi_idx,
    {
        if self.lst.len() == 0 && split_first_seg && end_bi_idx >= 3 {
            let is_high = bis[end_bi_idx].is_down();
            match Self::find_peak_bi(bis, 0, end_bi_idx - 2, true, is_high) {
                Some(p) => {
                    let pb = &bis[p];
                    let should_split = if pb.is_down() {
                        pb.low() < bis[0].low() || p == 0
                    } else {
                        pb.high() > bis[0].high() || p == 0
                    };
                    if should_split {
                        let pdir = pb.dir;
                        let _ = self.try_add_new_seg(bis, p, false, Some(pdir), true, "split_first_1st");
                        let n1 = self.lst.len();
                        let ns = if n1 == 0 { 0 } else if self.lst[n1 - 1].end_bi < usize::MAX { self.lst[n1 - 1].end_bi + 1 } else { usize::MAX };
                        if ns <= end_bi_idx && (n1 == 0 || self.lst[n1 - 1].end_bi < usize::MAX) {
                            let ghost mid = self.lst@;
                            let r2 = self.push_seg(bis, end_bi_idx, false, None, "split_first_2nd");
                            proof {
                                assert forall|k: int| 0 <= k < old(self).lst@.len() implies #[trigger] self.lst@[k] == old(self).lst@[k] by {}
                                if r2.is_ok() {
                                    assert forall|k: int| 0 <= k < self.lst@.len() implies !(#[trigger] self.lst@[k]).is_sure by {
                                        if k < mid.len() {
                                            assert(self.lst@[k] == self.lst@.drop_last()[k]);
                                            assert(!mid[k].is_sure);
                                        }
                                    }
                                }
                            }
                            if self.lst.len() > 0 && self.lst[self.lst.len() - 1].end_bi == end_bi_idx {
                                return Ok(());
                            }
                        }
                        return Err(ChanError::with_msg("first segment could not be split", ErrCode::SegEndValueErr));
                    }
                },
                None => {},
            }
        }
        self.push_seg(bis, end_bi_idx, is_sure, seg_dir, reason)
    }
}

impl SegListChan {
    /// `try_add_new_seg`, except that a first segment whose ends contradict its
    /// direction is skipped (false) rather than an error.
    pub fn add_new_seg(
        &mut self,
        bis: &Vec<Bi>,
        end_bi_idx: usize,
        is_sure: bool,
        seg_dir: Option<BiDir>,
        split_first_seg: bool,
        reason: &str,
    ) -> (r: Result<bool, ChanError>)
        requires
            old(self).wf(bis@.len() as int),
            bis_indexed(bis@),
            old(self).next_start() <= end_bi_idx < bis@.len(),
            is_sure && old(self).lst@.len() > 0 ==> (seg_dir matches Some(d) && d != old(self).lst@.last().dir),
        ensures
            final(self).wf(bis@.len() as int),
            final(self).config == old(self).config,
            final(self).lv == old(self).lv,
            final(self).lst@.len() >= old(self).lst@.len(),
            forall|k: int| 0 <= k < old(self).lst@.len() ==> #[trigger] final(self).lst@[k] == old(self).lst@[k],
            r == Ok::<bool, ChanError>(true) ==> final(self).lst@.len() > old(self).lst@.len()
                && final(self).lst@.last().end_bi == end_bi_idx,
            !(r == Ok::<bool, ChanError>(true)) ==> final(self).lst@ == old(self).lst@,
            !is_sure ==> r == Ok::<bool, ChanError>(true),
            !is_sure ==> forall|k: int| old(self).lst@.len() <= k < final(self).lst@.len() ==> !(#[trigger] final(self).lst@[k]).is_sure,
            !(old(self).lst@.len() == 0 && split_first_seg && end_bi_idx >= 3) ==> (r == Ok::<bool, ChanError>(true) <==> !seg_fails(
                bis@,
                old(self).next_start(),
                end_bi_idx as int,
                is_sure,
                seg_dir,
            )) && (r == Ok::<bool, ChanError>(true) ==> final(self).lst@.len() == old(self).lst@.len() + 1 && new_seg_ok(
                final(self).lst@.last(),
                old(self).lst@.len() as int,
                bis@,
                old(self).next_start(),
                end_bi_idx as int,
                is_sure,
                seg_dir,
            )),
    {
        let was_empty = self.lst.len() == 0;
        match self.try_add_new_seg(bis, end_bi_idx, is_sure, seg_dir, split_first_seg, reason) {
            Ok(()) => Ok(true),
            Err(e) => {
                if was_empty {
                    Ok(false)
                } else {
                    Err(e)
                }
            },
        }
    }

    /// Wraps the strokes after the last segment into a tentative one when
    /// there are at least three, pointing the way their end moved.
    pub fn collect_left_as_seg(&mut self, bis: &Vec<Bi>) -> (r: Result<(), ChanError>)
        requires
            old(self).wf(bis@.len() as int),
            bis_indexed(bis@),
        ensures
            final(self).wf(bis@.len() as int),
            final(self).config == old(self).config,
            final(self).lv == old(self).lv,
            forall|k: int| 0 <= k < old(self).lst@.len() ==> #[trigger] final(self).lst@[k] == old(self).lst@[k],
            final(self).lst@.len() >= old(self).lst@.len(),
            r.is_ok(),
            ({
                let l = old(self).lst@;
                let nb = bis@.len() as int;
                if l.len() > 0 && nb - l.last().end_bi - 1 >= 3 {
                    let e = l.last().end_bi as int;
                    let d = if bis@[nb - 1].spec_end_val() >= bis@[e].spec_end_val() { BiDir::Up } else { BiDir::Down };
                    final(self).lst@.len() == l.len() + 1 && new_seg_ok(final(self).lst@.last(), l.len() as int, bis@, e + 1, nb - 1, false, Some(d))
                } else {
                    final(self).lst@ == l
                }
            }),
    {
        let n = self.lst.len();
        if n == 0 {
            return Ok(());
        }
        let nb = bis.len();
        let e = self.lst[n - 1].end_bi;
        if nb - e - 1 >= 3 {
            let last = &bis[nb - 1];
            let dir = if last.get_end_val() >= bis[e].get_end_val() { BiDir::Up } else { BiDir::Down };
            self.add_new_seg(bis, nb - 1, false, Some(dir), true, "collect_left")?;
        }
        Ok(())
    }

    /// Wraps the strokes after the last segment, ending at the extreme stroke
    /// against the last segment's end when it lies three or more strokes later.
    pub fn collect_left_seg_peak_method(&mut self, bis: &Vec<Bi>) -> (r: Result<(), ChanError>)
        requires
            old(self).wf(bis@.len() as int),
            bis_indexed(bis@),
            old(self).lst@.len() > 0,
        ensures
            final(self).wf(bis@.len() as int),
            final(self).config == old(self).config,
            final(self).lv == old(self).lv,
            forall|k: int| 0 <= k < old(self).lst@.len() ==> #[trigger] final(self).lst@[k] == old(self).lst@[k],
            final(self).lst@.len() >= old(self).lst@.len(),
    {
        let n = self.lst.len();
        let nb = bis.len();
        let e = self.lst[n - 1].end_bi;
        if nb - e <= 3 {
            return Ok(());
        }
        let seek_high = bis[e].is_down();
        match Self::find_peak_bi(bis, e + 3, nb, false, seek_high) {
            Some(p) => {
                if p - e >= 3 {
                    let dir = if seek_high { BiDir::Up } else { BiDir::Down };
                    self.add_new_seg(bis, p, false, Some(dir), true, "collect_left_peak")?;
                }
            },
            None => {},
        }
        Ok(())
    }

    /// The first, tentative, segments over all strokes: split at the extreme
    /// stroke on the side that moved furthest from the start (peak policy), or
    /// one segment over everything (all policy).
    pub fn collect_first_seg(&mut self, bis: &Vec<Bi>) -> (r: Result<(), ChanError>)
        requires
            old(self).wf(bis@.len() as int),
            bis_indexed(bis@),
            old(self).lst@.len() == 0,
        ensures
            final(self).wf(bis@.len() as int),
            final(self).config == old(self).config,
            final(self).lv == old(self).lv,
            bis@.len() < 3 ==> r.is_ok() && final(self).lst@.len() == 0,
            forall|k: int| 0 <= k < final(self).lst@.len() ==> !(#[trigger] final(self).lst@[k]).is_sure,
            ({
                let nb = bis@.len() as int;
                let d = if bis@[nb - 1].spec_end_val() >= bis@[0].spec_begin_val() { BiDir::Up } else { BiDir::Down };
                (old(self).config.left_method == LeftSegMethod::All && nb >= 3) ==> r.is_ok() && final(self).lst@.len() == 1
                    && new_seg_ok(final(self).lst@[0], 0, bis@, 0, nb - 1, false, Some(d))
            }),
            ({
                let nb = bis@.len() as int;
                let b0 = bis@[0].spec_begin_val();
                let hi = max_high_bis(bis@, nb);
                let lo = min_low_bis(bis@, nb);
                let up_dist = if hi >= b0 { hi - b0 } else { b0 - hi };
                let down_dist = if lo >= b0 { lo - b0 } else { b0 - lo };
                let d = if up_dist >= down_dist { BiDir::Up } else { BiDir::Down };
                (old(self).config.left_method == LeftSegMethod::Peak && nb >= 3 && r.is_ok()) ==> final(self).lst@.len() >= 1
                    && final(self).lst@[0].start_bi == 0 && final(self).lst@[0].dir == d
                    && bis@[final(self).lst@[0].end_bi as int].dir == d
            }),
    {
        let nb = bis.len();
        if nb < 3 {
            return Ok(());
        }
        match self.config.left_method {
            LeftSegMethod::Peak => {
                let mut high: i64 = bis[0].high();
                let mut low: i64 = bis[0].low();
                let mut i: usize = 1;
                while i < nb
                    invariant
                        nb == bis@.len(),
                        1 <= i <= nb,
                        high as int == max_high_bis(bis@, i as int),
                        low as int == min_low_bis(bis@, i as int),
                    decreases nb - i,
                {
                    let h = bis[i].high();
                    let l = bis[i].low();
                    if h > high {
                        high = h;
                    }
                    if l < low {
                        low = l;
                    }
                    i += 1;
                }
                let b0 = bis[0].get_begin_val() as i128;
                let up_dist = if high as i128 >= b0 { high as i128 - b0 } else { b0 - high as i128 };
                let down_dist = if low as i128 >= b0 { low as i128 - b0 } else { b0 - low as i128 };
                let seek_high = up_dist >= down_dist;
                let p = match Self::find_peak_bi(bis, 0, nb, false, seek_high) {
                    Some(p) => p,
                    None => {
                        return Err(ChanError::with_msg("no extreme stroke among the strokes", ErrCode::SegEigenErr));
                    },
                };
                let dir = if seek_high { BiDir::Up } else { BiDir::Down };
                self.add_new_seg(bis, p, false, Some(dir), false, "first_seg_peak")?;
                let ghost first = self.lst@;
                self.collect_left_as_seg(bis)?;
                proof {
                    assert(self.lst@[0] == first[0]);
                    assert forall|k: int| 0 <= k < self.lst@.len() implies !(#[trigger] self.lst@[k]).is_sure by {
                        if k < first.len() {
                            assert(self.lst@[k] == first[k]);
                        }
                    }
                }
            },
            LeftSegMethod::All => {
                let dir = if bis[nb - 1].get_end_val() >= bis[0].get_begin_val() { BiDir::Up } else { BiDir::Down };
                self.add_new_seg(bis, nb - 1, false, Some(dir), false, "first_seg_all")?;
            },
        }
        Ok(())
    }

    /// Wraps the strokes after the last confirmed segment by the configured policy.
    pub fn collect_left_seg(&mut self, bis: &Vec<Bi>) -> (r: Result<(), ChanError>)
        requires
            old(self).wf(bis@.len() as int),
            bis_indexed(bis@),
        ensures
            final(self).wf(bis@.len() as int),
            final(self).config == old(self).config,
            final(self).lv == old(self).lv,
            forall|k: int| 0 <= k < old(self).lst@.len() ==> #[trigger] final(self).lst@[k] == old(self).lst@[k],
            final(self).lst@.len() >= old(self).lst@.len(),
            r.is_ok() && bis@.len() >= 3 ==> final(self).lst@.len() >= 1,
    {
        let n = self.lst.len();
        if n == 0 {
            return self.collect_first_seg(bis);
        }
        match self.config.left_method {
            LeftSegMethod::Peak => self.collect_left_seg_peak_method(bis),
            LeftSegMethod::All => {
                let nb = bis.len();
                let e = self.lst[n - 1].end_bi;
                if nb - e > 3 {
                    let dir = if bis[nb - 1].get_end_val() >= bis[e].get_end_val() { BiDir::Up } else { BiDir::Down };
                    self.add_new_seg(bis, nb - 1, false, Some(dir), true, "collect_left_all")?;
                }
                Ok(())
            },
        }
    }

    /// Feeds the strokes from `begin` to the two candidate engines until one
    /// finds its fractal. Without a segment yet, the direction of the first one
    /// is settled by which engine first holds two elements.
    pub fn find_fx(&self, bis: &Vec<Bi>, begin: usize) -> (r: Result<Option<EigenFX>, ChanError>)
        ensures
            r matches Ok(Some(fx)) ==> fx.spec_found() && (self.lst@.len() > 0 ==> fx.dir != self.lst@.last().dir),
    {
        let mut up_eigen = EigenFX::new(BiDir::Up, true, self.lv);
        let mut down_eigen = EigenFX::new(BiDir::Down, true, self.lv);
        let n = self.lst.len();
        let mut last_dir: Option<BiDir> = if n == 0 { None } else { Some(self.lst[n - 1].dir) };
        let mut i = begin;
        while i < bis.len()
            invariant
                up_eigen.dir == BiDir::Up,
                down_eigen.dir == BiDir::Down,
                n == self.lst@.len(),
                n > 0 ==> last_dir == Some(self.lst@.last().dir),
            decreases bis@.len() - i,
        {
            let bi = LineItem::of(&bis[i]);
            let mut found_up = false;
            let mut found_down = false;
            if bi.dir == BiDir::Down && last_dir != Some(BiDir::Up) {
                found_up = up_eigen.add(bi, bis)?;
            } else if bi.dir == BiDir::Up && last_dir != Some(BiDir::Down) {
                found_down = down_eigen.add(bi, bis)?;
            }
            if n == 0 {
                if up_eigen.ele1.is_some() && bi.dir == BiDir::Down {
                    last_dir = Some(BiDir::Down);
                    down_eigen.clear();
                } else if down_eigen.ele1.is_some() && bi.dir == BiDir::Up {
                    up_eigen.clear();
                    last_dir = Some(BiDir::Up);
                }
                if up_eigen.ele1.is_none() && last_dir == Some(BiDir::Down) && bi.dir == BiDir::Down {
                    last_dir = None;
                } else if down_eigen.ele1.is_none() && last_dir == Some(BiDir::Up) && bi.dir == BiDir::Up {
                    last_dir = None;
                }
            }
            if found_up {
                return Ok(Some(up_eigen));
            }
            if found_down {
                return Ok(Some(down_eigen));
            }
            i += 1;
        }
        Ok(None)
    }

    /// Confirms segments from stroke `begin_idx` on, one characteristic fractal
    /// at a time, until no fractal is found or one cannot yet be trusted.
    pub fn cal_seg_sure(&mut self, bis: &Vec<Bi>, begin_idx: usize) -> (r: Result<(), ChanError>)
        requires
            old(self).wf(bis@.len() as int),
            bis_indexed(bis@),
        ensures
            final(self).wf(bis@.len() as int),
            final(self).config == old(self).config,
            final(self).lv == old(self).lv,
            final(self).lst@.len() >= old(self).lst@.len(),
            forall|k: int| 0 <= k < old(self).lst@.len() ==> #[trigger] final(self).lst@[k] == old(self).lst@[k],
            old(self).lst@.len() > 0 ==> forall|k: int| old(self).lst@.len() <= k < final(self).lst@.len()
                ==> seg_from_fx(#[trigger] final(self).lst@[k]),
    {
        let mut begin = begin_idx;
        let ghost orig = self.lst@;
        while begin < bis.len()
            invariant
                self.wf(bis@.len() as int),
                bis_indexed(bis@),
                self.config == old(self).config,
                self.lv == old(self).lv,
                self.lst@.len() >= orig.len(),
                orig == old(self).lst@,
                forall|k: int| 0 <= k < orig.len() ==> #[trigger] self.lst@[k] == orig[k],
                orig.len() > 0 ==> forall|k: int| orig.len() <= k < self.lst@.len() ==> seg_from_fx(#[trigger] self.lst@[k]),
            decreases bis@.len() - begin,
        {
            let mut fx = match self.find_fx(bis, begin)? {
                None => {
                    break;
                },
                Some(f) => f,
            };
            let dir = fx.dir;
            let test = fx.can_be_end(bis)?;
            let end_bi_idx = fx.get_peak_bi_idx()?;
            let n = self.lst.len();
            let start = if n == 0 { 0 } else { self.lst[n - 1].end_bi + 1 };
            if end_bi_idx >= bis.len() || end_bi_idx < start {
                return Err(ChanError::with_msg("segment end stroke out of range", ErrCode::SegEigenErr));
            }
            let next: usize;
            match test {
                Some(false) => {
                    next = if fx.lst.len() > 1 { fx.lst[1].idx } else { bis.len() };
                },
                _ => {
                    let is_true = test.is_some();
                    let sure = is_true && fx.all_bi_is_sure();
                    let ghost before = self.lst@;
                    let added = self.add_new_seg(bis, end_bi_idx, sure, Some(dir), true, "normal")?;
                    if added {
                        let m = self.lst.len();
                        let ghost l1 = self.lst@;
                        let mut last = self.lst.pop().unwrap();
                        last.eigen_fx = Some(fx);
                        self.lst.push(last);
                        proof {
                            let l = self.lst@;
                            assert forall|k: int| 0 <= k < l.len() implies #[trigger] seg_ok(l, k) by {
                                assert(seg_ok(l1, k));
                                if k < m - 1 {
                                    assert(l[k] == l1[k]);
                                }
                                if k > 0 {
                                    assert(l[k - 1] == l1[k - 1]);
                                }
                            }
                            assert forall|k: int| 0 <= k < orig.len() implies #[trigger] l[k] == orig[k] by {
                                assert(l[k] == l1[k]);
                            }
                            if orig.len() > 0 {
                                assert(before.len() > 0);
                                assert forall|k: int| orig.len() <= k < l.len() implies seg_from_fx(#[trigger] l[k]) by {
                                    if k < m - 1 {
                                        assert(l[k] == l1[k]);
                                        assert(l1[k] == before[k]);
                                    }
                                }
                            }
                        }
                        if !is_true {
                            break;
                        }
                    }
                    next = end_bi_idx + 1;
                },
            }
            if next <= begin || next > bis.len() {
                break;
            }
            begin = next;
        }
        Ok(())
    }
}

impl SegListChan {
    /// One update on the current strokes: drops the tentative tail, confirms
    /// segments from the stroke after the last confirmed one, then wraps the
    /// strokes left over.
    pub fn update(&mut self, bis: &Vec<Bi>) -> (r: Result<(), ChanError>)
        requires
            forall|k: int| 0 <= k < old(self).lst@.len() ==> #[trigger] seg_ok(old(self).lst@, k),
            bis_indexed(bis@),
        ensures
            final(self).wf(bis@.len() as int),
            final(self).config == old(self).config,
            final(self).lv == old(self).lv,
            forall|j: int| 0 <= j < old(self).lst@.len() && (#[trigger] old(self).lst@[j]).is_sure
                && old(self).lst@[j].end_bi < bis@.len() ==> forall|k: int| 0 <= k < j ==> k < final(self).lst@.len()
                && #[trigger] final(self).lst@[k] == old(self).lst@[k],
            r.is_ok() && bis@.len() >= 3 ==> final(self).lst@.len() >= 1,
    {
        let ghost o = self.lst@;
        self.do_init(bis.len());
        let ghost d = self.lst@;
        let n = self.lst.len();
        let begin = if n == 0 { 0 } else { self.lst[n - 1].end_bi + 1 };
        let ghost d2 = self.lst@;
        let r1 = self.cal_seg_sure(bis, begin);
        let ghost d3 = self.lst@;
        proof {
            assert forall|k: int| 0 <= k < d.len() implies k < d3.len() && #[trigger] d3[k] == o[k] by {
                assert(d3[k] == d2[k]);
                assert(d[k] == o[k]);
            }
        }
        r1?;
        let r2 = self.collect_left_seg(bis);
        proof {
            let f = self.lst@;
            assert forall|k: int| 0 <= k < d.len() implies k < f.len() && #[trigger] f[k] == o[k] by {
                assert(f[k] == d3[k]);
            }
            assert forall|j: int| 0 <= j < o.len() && (#[trigger] o[j]).is_sure && o[j].end_bi < bis@.len()
                implies forall|k: int| 0 <= k < j ==> k < f.len() && #[trigger] f[k] == o[k] by {
                assert(j <= d.len());
            }
        }
        r2?;
        Ok(())
    }
}

/// Confirmed segments chain and alternate: each starts on the stroke after the
/// previous segment's last stroke, points the other way from it, and its end
/// price lies on the side of its start price that its direction says.
pub proof fn lemma_confirmed_segments_alternate(segs: Seq<Seg>, n_bis: int, j: int)
    requires
        segs_ok(segs, n_bis),
        0 < j < segs.len(),
        segs[j].is_sure,
    ensures
        segs[j].start_bi - 1 == segs[j - 1].end_bi,
        segs[j].dir != segs[j - 1].dir,
        segs[j].dir == BiDir::Up ==> segs[j].end_val > segs[j].begin_val,
        segs[j].dir == BiDir::Down ==> segs[j].end_val < segs[j].begin_val,
{
    assert(seg_ok(segs, j));
}

impl SegListChan {
    /// Replaces the zones recorded in segment `k` and its settled flag.
    pub fn set_zones(&mut self, k: usize, zs: Vec<usize>, inside_sure: bool)
        requires
            k < old(self).lst@.len(),
        ensures
            final(self).lst@.len() == old(self).lst@.len(),
            forall|n: int| old(self).wf(n) ==> final(self).wf(n),
            forall|j: int| 0 <= j < old(self).lst@.len() ==> #[trigger] final(self).lst@[j].end_bi == old(self).lst@[j].end_bi
                && final(self).lst@[j].start_bi == old(self).lst@[j].start_bi
                && final(self).lst@[j].is_sure == old(self).lst@[j].is_sure
                && final(self).lst@[j].idx == old(self).lst@[j].idx
                && (j != k ==> final(self).lst@[j].ele_inside_is_sure == old(self).lst@[j].ele_inside_is_sure),
            final(self).config == old(self).config,
            final(self).lv == old(self).lv,
            forall|j: int| 0 <= j < old(self).lst@.len() && j != k ==> #[trigger] final(self).lst@[j] == old(self).lst@[j],
            final(self).lst@[k as int].zs_lst@ == zs@,
            final(self).lst@[k as int].ele_inside_is_sure == inside_sure,
    {
        let ghost zs_v = zs@;
        let ghost l0 = self.lst@;
        self.lst[k].zs_lst = zs;
        self.lst[k].ele_inside_is_sure = inside_sure;
        proof {
            let l = self.lst@;
            assert forall|n: int| segs_ok(l0, n) implies #[trigger] segs_ok(l, n) by {
                assert forall|j: int| 0 <= j < l.len() implies #[trigger] seg_ok(l, j) by {
                    assert(seg_ok(l0, j));
                    if j > 0 {
                        assert(l[j - 1].end_bi == l0[j - 1].end_bi && l[j - 1].dir == l0[j - 1].dir);
                    }
                }
            }
        }
    }
}

impl SegListChan {
    /// Direction of a segment from the stroke after the last segment to
    /// stroke `end_bi_idx`: up when it ends at or above where it starts.
    pub fn get_seg_dir(&self, bis: &Vec<Bi>, end_bi_idx: usize) -> (r: BiDir)
        requires
            self.wf(bis@.len() as int),
            self.next_start() <= end_bi_idx < bis@.len(),
        ensures
            r == (if bis@[end_bi_idx as int].spec_end_val() >= bis@[self.next_start()].spec_begin_val() {
                BiDir::Up
            } else {
                BiDir::Down
            }),
    {
        let n = self.lst.len();
        let start = if n == 0 { 0 } else { self.lst[n - 1].end_bi + 1 };
        if bis[end_bi_idx].get_end_val() >= bis[start].get_begin_val() { BiDir::Up } else { BiDir::Down }
    }

    /// Whether each segment starts on the stroke after the previous one ends.
    pub fn is_valid(&self) -> (r: bool)
        ensures
            r == forall|k: int| 1 <= k < self.lst@.len() ==> #[trigger] self.lst@[k].start_bi == self.lst@[k - 1].end_bi + 1,
    {
        let mut k: usize = 1;
        while k < self.lst.len()
            invariant
                1 <= k,
                forall|j: int| 1 <= j < k && j < self.lst@.len() ==> #[trigger] self.lst@[j].start_bi == self.lst@[j - 1].end_bi + 1,
            decreases self.lst@.len() - k,
        {
            let prev_end = self.lst[k - 1].end_bi;
            if prev_end == usize::MAX || self.lst[k].start_bi != prev_end + 1 {
                assert(!(self.lst@[k as int].start_bi == self.lst@[k - 1].end_bi + 1));
                return false;
            }
            k += 1;
        }
        true
    }
}

} // verus!
