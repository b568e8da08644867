use vstd::prelude::*;
use crate::bi::Bi;
use crate::cenum::BiDir;
use crate::chan_exception::ChanError;
use crate::eigen::LineItem;
use crate::seg::{segs_ok, Seg};
use crate::utils::revert_bi_dir;
use crate::zs::{max_low, min_high, ZSConfig, ZS};
use crate::utils::spec_has_overlap;

verus! {

/// Central zones built from the strokes that run against their segment.
#[derive(Debug)]
pub struct ZSList {
    pub zs_lst: Vec<ZS>,
    pub config: ZSConfig,
    /// Strokes waiting to form the next zone.
    pub free_item_lst: Vec<LineItem>,
    /// First stroke of the last confirmed segment; zones from there on are rebuilt.
    pub last_sure_pos: Option<usize>,
    pub last_seg_idx: usize,
}

/// Stroke items have ordered ranges.
pub open spec fn items_ok(s: Seq<LineItem>) -> bool {
    forall|i: int| 0 <= i < s.len() ==> (#[trigger] s[i]).low <= s[i].high
}

impl ZSList {
    /// Every zone is well formed and, unless single-stroke zones are allowed,
    /// holds at least three strokes.
    pub open spec fn wf(&self) -> bool {
        &&& forall|i: int| 0 <= i < self.zs_lst@.len() ==> (#[trigger] self.zs_lst@[i]).wf()
            && (!self.config.one_bi_zs ==> self.zs_lst@[i].bi_lst@.len() >= 3)
        &&& items_ok(self.free_item_lst@)
    }

    pub fn new(config: ZSConfig) -> (r: Self)
        ensures
            r.wf(),
            r.zs_lst@.len() == 0,
            r.free_item_lst@.len() == 0,
            r.config == config,
    {
        ZSList { zs_lst: Vec::new(), config, free_item_lst: Vec::new(), last_sure_pos: None, last_seg_idx: 0 }
    }

    pub fn len(&self) -> (r: usize)
        ensures
            r == self.zs_lst@.len(),
    {
        self.zs_lst.len()
    }

    pub fn iter(&self) -> (r: std::slice::Iter<'_, ZS>)
    {
        self.zs_lst.as_slice().iter()
    }

    /// The zones, for in-place changes.
    pub fn iter_mut(&mut self) -> (r: &mut Vec<ZS>)
        ensures
            *r == old(self).zs_lst,
            final(self).zs_lst == *final(r),
            final(self).config == old(self).config,
            final(self).free_item_lst == old(self).free_item_lst,
    {
        &mut self.zs_lst
    }

    pub fn clear_free_lst(&mut self)
        requires
            old(self).wf(),
        ensures
            final(self).wf(),
            final(self).free_item_lst@.len() == 0,
            final(self).zs_lst@ == old(self).zs_lst@,
            final(self).config == old(self).config,
    {
        self.free_item_lst = Vec::new();
    }

    /// A zone over the last three waiting strokes (the last one when
    /// single-stroke zones are allowed), when they share a band.
    pub fn try_construct_zs(&self, lst: &Vec<LineItem>, is_sure: bool, begin_seg: Option<usize>) -> (r: Option<ZS>)
        requires
            items_ok(lst@),
        ensures
            ({
                let w: int = if self.config.one_bi_zs { 1 } else { 3 };
                let win = lst@.subrange(lst@.len() - w, lst@.len() as int);
                &&& r.is_some() <==> lst@.len() >= w && max_low(win) <= min_high(win)
                &&& r matches Some(z) ==> z.wf() && z.bi_lst@ == win && z.low == max_low(win) && z.high == min_high(win)
                    && z.begin_seg == begin_seg && z.begin_bi == win[0].idx && z.is_sure == is_sure
            }),
    {
        let w: usize = if self.config.one_bi_zs { 1 } else { 3 };
        let n = lst.len();
        if n < w {
            return None;
        }
        let mut win: Vec<LineItem> = Vec::new();
        let mut i = n - w;
        while i < n
            invariant
                w <= n,
                n - w <= i <= n,
                n == lst@.len(),
                win@ == lst@.subrange(n - w, i as int),
            decreases n - i,
        {
            win.push(lst[i]);
            i += 1;
            assert(win@ =~= lst@.subrange(n - w, i as int));
        }
        match ZS::new(&win, is_sure, begin_seg) {
            Ok(z) => Some(z),
            Err(_) => None,
        }
    }

    /// Merges the last zone into the one before while they combine.
    pub fn try_combine(&mut self) -> (r: Result<(), ChanError>)
        requires
            old(self).wf(),
        ensures
            final(self).wf(),
            final(self).config == old(self).config,
            final(self).free_item_lst@ == old(self).free_item_lst@,
            !old(self).config.need_combine ==> final(self).zs_lst@ == old(self).zs_lst@,
            final(self).zs_lst@.len() <= old(self).zs_lst@.len(),
            old(self).zs_lst@.len() > 0 ==> final(self).zs_lst@.len() > 0,
            forall|k: int| 0 <= k < final(self).zs_lst@.len() - 2 ==> #[trigger] final(self).zs_lst@[k] == old(self).zs_lst@[k],
            (old(self).config.need_combine && r.is_ok() && final(self).zs_lst@.len() >= 2) ==> !zones_combine(
                final(self).zs_lst@[final(self).zs_lst@.len() - 2],
                final(self).zs_lst@.last(),
                old(self).config.zs_combine_mode@,
            ),
    {
        if !self.config.need_combine {
            return Ok(());
        }
        let ghost orig = self.zs_lst@;
        while self.zs_lst.len() >= 2
            invariant
                self.zs_lst@.len() <= orig.len(),
                orig.len() > 0 ==> self.zs_lst@.len() > 0,
                orig == old(self).zs_lst@,
                old(self).config.need_combine,
                forall|k: int| 0 <= k < self.zs_lst@.len() - 1 ==> #[trigger] self.zs_lst@[k] == orig[k],
                self.wf(),
                self.config == old(self).config,
                self.free_item_lst@ == old(self).free_item_lst@,
            decreases self.zs_lst@.len(),
        {
            let ghost l0 = self.zs_lst@;
            let z2 = self.zs_lst.pop().unwrap();
            let mut z1 = self.zs_lst.pop().unwrap();
            proof {
                assert(l0[l0.len() - 1].wf());
                assert(l0[l0.len() - 2].wf());
            }
            let res = z1.combine(&z2, self.config.zs_combine_mode.as_str());
            let ghost l1 = self.zs_lst@;
            match res {
                Ok(true) => {
                    self.zs_lst.push(z1);
                    proof {
                        assert forall|i: int| 0 <= i < self.zs_lst@.len() implies (#[trigger] self.zs_lst@[i]).wf()
                            && (!self.config.one_bi_zs ==> self.zs_lst@[i].bi_lst@.len() >= 3) by {
                            if i < l1.len() {
                                assert(self.zs_lst@[i] == l0[i]);
                            } else {
                                assert(l0[l0.len() - 2].bi_lst@.len() >= 3 || self.config.one_bi_zs);
                            }
                        }
                    }
                },
                _ => {
                    self.zs_lst.push(z1);
                    self.zs_lst.push(z2);
                    proof {
                        assert forall|i: int| 0 <= i < self.zs_lst@.len() implies (#[trigger] self.zs_lst@[i]).wf()
                            && (!self.config.one_bi_zs ==> self.zs_lst@[i].bi_lst@.len() >= 3) by {
                            if i < l1.len() {
                                assert(self.zs_lst@[i] == l0[i]);
                            } else if i == l1.len() {
                                assert(l0[l0.len() - 2].bi_lst@.len() >= 3 || self.config.one_bi_zs);
                            } else {
                                assert(self.zs_lst@[i] == l0[i]);
                            }
                        }
                    }
                    return match res {
                        Err(e) => Err(e),
                        Ok(_) => Ok(()),
                    };
                },
            }
        }
        Ok(())
    }
}

/// The later zone `z2` would be merged into `z1` under combine mode `mode`.
pub open spec fn zones_combine(z1: ZS, z2: ZS, mode: Seq<char>) -> bool {
    !z2.spec_is_one_bi_zs() && z1.begin_seg == z2.begin_seg && ((mode == "zs"@ && spec_has_overlap(
        z1.low as int,
        z1.high as int,
        z2.low as int,
        z2.high as int,
        true,
    )) || (mode == "peak"@ && spec_has_overlap(z1.peak_low as int, z1.peak_high as int, z2.peak_low as int, z2.peak_high as int, true)))
}

/// The waiting strokes after `item` arrives: it replaces the last one when
/// that is the same stroke.
pub open spec fn free_after(free: Seq<LineItem>, item: LineItem) -> Seq<LineItem> {
    if free.len() > 0 && free.last().idx == item.idx {
        free.drop_last().push(item)
    } else {
        free.push(item)
    }
}

/// `item` comes after the last zone and touches its band, so extends it.
pub open spec fn extends_last(zs: Seq<ZS>, item: LineItem) -> bool {
    zs.len() > 0 && item.idx > zs.last().end_bi && spec_has_overlap(zs.last().low as int, zs.last().high as int, item.low as int,
        item.high as int, true)
}

/// Every stroke has an ordered range.
pub open spec fn bis_ranges_ok(bis: Seq<Bi>) -> bool {
    forall|i: int| 0 <= i < bis.len() ==> (#[trigger] bis[i]).spec_low() <= bis[i].spec_high()
}

impl ZSList {
    /// Adds a waiting stroke (replacing the last one when it is the same
    /// stroke) and opens a zone when the waiting strokes allow one that does
    /// not start on the very first stroke.
    pub fn add_to_free_lst(&mut self, item: LineItem, is_sure: bool, begin_seg: Option<usize>) -> (r: Result<(), ChanError>)
        requires
            old(self).wf(),
            item.low <= item.high,
        ensures
            final(self).wf(),
            final(self).config == old(self).config,
            ({
                let f = free_after(old(self).free_item_lst@, item);
                let w: int = if old(self).config.one_bi_zs { 1 } else { 3 };
                let win = f.subrange(f.len() - w, f.len() as int);
                let opens = f.len() >= w && max_low(win) <= min_high(win) && win[0].idx > 0;
                &&& !opens ==> r.is_ok() && final(self).free_item_lst@ == f && final(self).zs_lst@ == old(self).zs_lst@
                &&& opens ==> final(self).free_item_lst@.len() == 0 && final(self).zs_lst@.len() > 0
                    && final(self).zs_lst@.len() <= old(self).zs_lst@.len() + 1
                &&& (opens && !old(self).config.need_combine) ==> final(self).zs_lst@.len() == old(self).zs_lst@.len() + 1
                    && final(self).zs_lst@.last().bi_lst@ == win && final(self).zs_lst@.last().low == max_low(win)
                    && final(self).zs_lst@.last().high == min_high(win) && final(self).zs_lst@.last().is_sure == is_sure
            }),
    {
        let n = self.free_item_lst.len();
        if n > 0 && self.free_item_lst[n - 1].idx == item.idx {
            self.free_item_lst.pop();
        }
        self.free_item_lst.push(item);
        proof {
            assert(self.free_item_lst@ =~= free_after(old(self).free_item_lst@, item));
            assert forall|i: int| 0 <= i < self.free_item_lst@.len() implies (#[trigger] self.free_item_lst@[i]).low
                <= self.free_item_lst@[i].high by {
                if i < self.free_item_lst@.len() - 1 {
                    assert(self.free_item_lst@[i] == old(self).free_item_lst@[i]);
                }
            }
        }
        match self.try_construct_zs(&self.free_item_lst, is_sure, begin_seg) {
            Some(z) => {
                if z.begin_bi > 0 {
                    let ghost l0 = self.zs_lst@;
                    self.zs_lst.push(z);
                    self.free_item_lst = Vec::new();
                    proof {
                        assert forall|i: int| 0 <= i < self.zs_lst@.len() implies (#[trigger] self.zs_lst@[i]).wf()
                            && (!self.config.one_bi_zs ==> self.zs_lst@[i].bi_lst@.len() >= 3) by {
                            if i < l0.len() {
                                assert(self.zs_lst@[i] == l0[i]);
                            }
                        }
                    }
                    self.try_combine()?;
                }
            },
            None => {},
        }
        Ok(())
    }

    /// Extends the last zone by `item` when it touches the band.
    pub fn try_add_to_end(&mut self, item: &LineItem) -> (r: bool)
        requires
            old(self).wf(),
            item.low <= item.high,
        ensures
            final(self).wf(),
            final(self).config == old(self).config,
            final(self).free_item_lst@ == old(self).free_item_lst@,
            final(self).zs_lst@.len() == old(self).zs_lst@.len(),
            old(self).zs_lst@.len() == 0 ==> !r,
            r == extends_last(old(self).zs_lst@, *item),
            forall|k: int| 0 <= k < old(self).zs_lst@.len() - 1 ==> #[trigger] final(self).zs_lst@[k] == old(self).zs_lst@[k],
            r ==> final(self).zs_lst@.last().bi_lst@ == old(self).zs_lst@.last().bi_lst@.push(*item)
                && final(self).zs_lst@.last().end_bi == item.idx,
    {
        let n = self.zs_lst.len();
        if n == 0 {
            return false;
        }
        let ghost l0 = self.zs_lst@;
        let mut z = self.zs_lst.pop().unwrap();
        proof {
            assert(l0[n - 1].wf());
        }
        if item.idx <= z.end_bi {
            self.zs_lst.push(z);
            proof {
                assert(self.zs_lst@ =~= l0);
            }
            return false;
        }
        let r = z.try_add_to_end(item);
        self.zs_lst.push(z);
        proof {
            assert forall|i: int| 0 <= i < self.zs_lst@.len() implies (#[trigger] self.zs_lst@[i]).wf()
                && (!self.config.one_bi_zs ==> self.zs_lst@[i].bi_lst@.len() >= 3) by {
                if i < n - 1 {
                    assert(self.zs_lst@[i] == l0[i]);
                } else {
                    assert(l0[n - 1].bi_lst@.len() >= 3 || self.config.one_bi_zs);
                }
            }
        }
        r
    }

    /// Feeds a stroke: it extends the last zone when nothing waits and it
    /// touches the band, else it waits for a new zone.
    pub fn update(&mut self, item: LineItem, is_sure: bool, begin_seg: Option<usize>) -> (r: Result<(), ChanError>)
        requires
            old(self).wf(),
            item.low <= item.high,
        ensures
            final(self).wf(),
            final(self).config == old(self).config,
            (old(self).free_item_lst@.len() == 0 && extends_last(old(self).zs_lst@, item)) ==> final(self).free_item_lst@.len() == 0
                && final(self).zs_lst@.len() <= old(self).zs_lst@.len() && final(self).zs_lst@.len() > 0
                && (!old(self).config.need_combine ==> final(self).zs_lst@.last().bi_lst@ == old(self).zs_lst@.last().bi_lst@.push(item)
                && final(self).zs_lst@.last().end_bi == item.idx),
    {
        if self.free_item_lst.len() == 0 && self.try_add_to_end(&item) {
            return self.try_combine();
        }
        self.add_to_free_lst(item, is_sure, begin_seg)
    }

    /// Builds zones from strokes `lo` to `hi` of a segment pointing
    /// `seg_dir`, using only the strokes that run against it.
    pub fn add_zs_from_bi_range(
        &mut self,
        bis: &Vec<Bi>,
        lo: usize,
        hi: usize,
        seg_dir: BiDir,
        seg_is_sure: bool,
        begin_seg: Option<usize>,
    ) -> (r: Result<(), ChanError>)
        requires
            old(self).wf(),
            hi <= bis@.len(),
            bis_ranges_ok(bis@),
        ensures
            final(self).wf(),
            final(self).config == old(self).config,
    {
        let mut deal_bi_cnt: usize = 0;
        let mut i = lo;
        while i < hi
            invariant
                self.wf(),
                self.config == old(self).config,
                hi <= bis@.len(),
                bis_ranges_ok(bis@),
            decreases hi - i,
        {
            let b = &bis[i];
            if b.dir != seg_dir {
                let item = LineItem::of(b);
                proof {
                    assert(bis@[i as int].spec_low() <= bis@[i as int].spec_high());
                }
                if deal_bi_cnt < 1 {
                    self.add_to_free_lst(item, seg_is_sure, begin_seg)?;
                    deal_bi_cnt += 1;
                } else {
                    self.update(item, seg_is_sure, begin_seg)?;
                }
            }
            i += 1;
        }
        Ok(())
    }

    /// Remembers the first stroke of the last confirmed segment.
    pub fn update_last_pos(&mut self, segs: &Vec<Seg>)
        ensures
            final(self).zs_lst@ == old(self).zs_lst@,
            final(self).free_item_lst@ == old(self).free_item_lst@,
            final(self).config == old(self).config,
    {
        self.last_sure_pos = None;
        self.last_seg_idx = 0;
        let mut i = segs.len();
        while i > 0
            invariant
                i <= segs@.len(),
                self.zs_lst@ == old(self).zs_lst@,
                self.free_item_lst@ == old(self).free_item_lst@,
                self.config == old(self).config,
            decreases i,
        {
            let s = &segs[i - 1];
            if s.is_sure {
                self.last_sure_pos = Some(s.start_bi);
                self.last_seg_idx = s.idx;
                break;
            }
            i -= 1;
        }
    }

    /// Whether the last zone starts at or after the last confirmed segment's
    /// first stroke (every zone does when there is none).
    fn last_zone_unsettled(&self) -> (r: bool)
        requires
            self.zs_lst@.len() > 0,
    {
        match self.last_sure_pos {
            None => true,
            Some(p) => self.zs_lst[self.zs_lst.len() - 1].begin_bi >= p,
        }
    }

    /// Rebuilds the zones from the last confirmed segment on: within each
    /// segment not yet settled, then over the strokes after the last segment.
    pub fn cal_bi_zs(&mut self, bis: &Vec<Bi>, segs: &Vec<Seg>) -> (r: Result<(), ChanError>)
        requires
            old(self).wf(),
            segs_ok(segs@, bis@.len() as int),
            bis_ranges_ok(bis@),
        ensures
            final(self).wf(),
            final(self).config == old(self).config,
    {
        while self.zs_lst.len() > 0 && self.last_zone_unsettled()
            invariant
                self.wf(),
                self.config == old(self).config,
            decreases self.zs_lst@.len(),
        {
            let ghost l0 = self.zs_lst@;
            self.zs_lst.pop();
            proof {
                assert forall|i: int| 0 <= i < self.zs_lst@.len() implies (#[trigger] self.zs_lst@[i]).wf()
                    && (!self.config.one_bi_zs ==> self.zs_lst@[i].bi_lst@.len() >= 3) by {
                    assert(self.zs_lst@[i] == l0[i]);
                }
            }
        }
        let nb = bis.len();
        let mut k = self.last_seg_idx;
        while k < segs.len()
            invariant
                nb == bis@.len(),
                self.wf(),
                self.config == old(self).config,
                segs_ok(segs@, bis@.len() as int),
                bis_ranges_ok(bis@),
            decreases segs@.len() - k,
        {
            let s = &segs[k];
            let need = match self.last_sure_pos {
                None => true,
                Some(p) => s.start_bi > p,
            };
            if need {
                proof {
                    lemma_seg_end_in_range(segs@, bis@.len() as int, k as int);
                }
                self.clear_free_lst();
                self.add_zs_from_bi_range(bis, s.start_bi, s.end_bi + 1, s.dir, s.is_sure, Some(s.idx))?;
            }
            k += 1;
        }
        let n = segs.len();
        if n > 0 {
            let last = &segs[n - 1];
            proof {
                lemma_seg_end_in_range(segs@, bis@.len() as int, n - 1);
                assert(crate::seg::seg_ok(segs@, n - 1));
            }
            self.clear_free_lst();
            self.add_zs_from_bi_range(bis, last.end_bi + 1, bis.len(), revert_bi_dir(last.dir), false, Some(last.idx + 1))?;
        }
        self.update_last_pos(segs);
        Ok(())
    }
}

/// Every segment ends on a stroke that exists.
pub proof fn lemma_seg_end_in_range(segs: Seq<Seg>, n_bis: int, k: int)
    requires
        segs_ok(segs, n_bis),
        0 <= k < segs.len(),
    ensures
        segs[k].start_bi <= segs[k].end_bi < n_bis,
    decreases segs.len() - k,
{
    assert(crate::seg::seg_ok(segs, k));
    if k + 1 < segs.len() {
        assert(crate::seg::seg_ok(segs, k + 1));
        lemma_seg_end_in_range(segs, n_bis, k + 1);
    }
}

impl ZSList {
    /// Records the strokes entering and leaving zone `i`.
    pub fn set_zone_links(&mut self, i: usize, bi_in: Option<usize>, bi_out: Option<usize>)
        requires
            old(self).wf(),
            i < old(self).zs_lst@.len(),
        ensures
            final(self).wf(),
            final(self).config == old(self).config,
            final(self).zs_lst@.len() == old(self).zs_lst@.len(),
            final(self).zs_lst@[i as int].bi_in == bi_in,
            final(self).zs_lst@[i as int].bi_out == bi_out,
            forall|j: int| 0 <= j < old(self).zs_lst@.len() ==> #[trigger] final(self).zs_lst@[j].begin_bi == old(self).zs_lst@[j].begin_bi
                && final(self).zs_lst@[j].end_bi == old(self).zs_lst@[j].end_bi,
            forall|j: int| 0 <= j < old(self).zs_lst@.len() && j != i ==> #[trigger] final(self).zs_lst@[j] == old(self).zs_lst@[j],
    {
        let ghost l0 = self.zs_lst@;
        self.zs_lst[i].bi_in = bi_in;
        self.zs_lst[i].bi_out = bi_out;
        proof {
            let l = self.zs_lst@;
            assert forall|j: int| 0 <= j < l.len() implies (#[trigger] l[j]).wf()
                && (!self.config.one_bi_zs ==> l[j].bi_lst@.len() >= 3) by {
                assert(l0[j].wf());
                assert(l0[j].bi_lst@.len() >= 3 || self.config.one_bi_zs);
                if j != i {
                    assert(l[j] == l0[j]);
                } else {
                    assert(l[j].bi_lst == l0[j].bi_lst);
                    assert(l[j].low == l0[j].low && l[j].high == l0[j].high);
                    assert(l[j].peak_low == l0[j].peak_low && l[j].peak_high == l0[j].peak_high);
                    assert(l[j].begin_bi == l0[j].begin_bi && l[j].end_bi == l0[j].end_bi);
                }
            }
        }
    }
}

/// Every zone keeps an ordered band [low, high] inside its peak range
/// [peak_low, peak_high], every member stroke's range touches the band, and,
/// unless single-stroke zones are allowed, it holds at least three strokes.
pub proof fn lemma_zone_band(zl: &ZSList, i: int, j: int)
    requires
        zl.wf(),
        0 <= i < zl.zs_lst@.len(),
        0 <= j < zl.zs_lst@[i].bi_lst@.len(),
    ensures
        zl.zs_lst@[i].peak_low <= zl.zs_lst@[i].low,
        zl.zs_lst@[i].low <= zl.zs_lst@[i].high,
        zl.zs_lst@[i].high <= zl.zs_lst@[i].peak_high,
        zl.zs_lst@[i].bi_lst@[j].low <= zl.zs_lst@[i].high,
        zl.zs_lst@[i].bi_lst@[j].high >= zl.zs_lst@[i].low,
        !zl.config.one_bi_zs ==> zl.zs_lst@[i].bi_lst@.len() >= 3,
{
    let z = zl.zs_lst@[i];
    assert(z.wf());
    assert(spec_has_overlap(z.low as int, z.high as int, z.bi_lst@[j].low as int, z.bi_lst@[j].high as int, true));
}

/// Zone `z` and every later zone end at or after stroke `start`: a scan down
/// from the last zone reaches it.
pub open spec fn zone_scanned(zs: Seq<ZS>, z: int, start: int) -> bool {
    forall|w: int| z <= w < zs.len() ==> #[trigger] zs[w].end_bi >= start
}

/// `l` lists, in ascending order, the zones a scan down from the last zone
/// reaches whose first stroke lies in `start..=end`.
pub open spec fn zone_list_ok(l: Seq<usize>, zs: Seq<ZS>, start: int, end: int) -> bool {
    &&& forall|i: int, j: int| 0 <= i < j < l.len() ==> l[i] < l[j]
    &&& forall|i: int| 0 <= i < l.len() ==> (#[trigger] l[i]) < zs.len()
    &&& forall|z: int| 0 <= z < zs.len() ==> (l.contains(z as usize) <==> zone_scanned(zs, z, start) && start
        <= #[trigger] zs[z].begin_bi <= end)
}

impl ZSList {
    /// The zones a scan down from the last zone reaches before one ends
    /// before stroke `start`, whose first stroke lies in `start..=end`, in
    /// ascending order; and where the scan stopped.
    pub fn zones_starting_in(&self, start: usize, end: usize) -> (r: (Vec<usize>, usize))
        ensures
            r.1 <= self.zs_lst@.len(),
            forall|z: int| r.1 <= z < self.zs_lst@.len() ==> zone_scanned(self.zs_lst@, z, start as int),
            forall|z: int| 0 <= z < r.1 ==> !zone_scanned(self.zs_lst@, z, start as int),
            zone_list_ok(r.0@, self.zs_lst@, start as int, end as int),
    {
        let nz = self.zs_lst.len();
        let mut stop = nz;
        while stop > 0
            invariant
                stop <= nz,
                nz == self.zs_lst@.len(),
                zone_scanned(self.zs_lst@, stop as int, start as int),
            ensures
                zone_scanned(self.zs_lst@, stop as int, start as int),
                stop > 0 ==> self.zs_lst@[stop - 1].end_bi < start,
            decreases stop,
        {
            if self.zs_lst[stop - 1].end_bi < start {
                break;
            }
            stop -= 1;
        }
        proof {
            assert forall|z: int| stop <= z < nz implies zone_scanned(self.zs_lst@, z, start as int) by {}
            assert forall|z: int| 0 <= z < stop implies !zone_scanned(self.zs_lst@, z, start as int) by {
                assert(self.zs_lst@[stop - 1].end_bi < start);
            }
        }
        let mut out: Vec<usize> = Vec::new();
        let mut z = stop;
        while z < nz
            invariant
                stop <= z <= nz,
                nz == self.zs_lst@.len(),
                forall|i: int, j: int| 0 <= i < j < out@.len() ==> out@[i] < out@[j],
                forall|i: int| 0 <= i < out@.len() ==> stop <= #[trigger] out@[i] < z,
                forall|w: int| 0 <= w < nz ==> (out@.contains(w as usize) <==> stop <= w < z && start
                    <= #[trigger] self.zs_lst@[w].begin_bi <= end),
            decreases nz - z,
        {
            let b = self.zs_lst[z].begin_bi;
            if start <= b && b <= end {
                let ghost o = out@;
                out.push(z);
                proof {
                    assert forall|w: int| 0 <= w < nz implies (out@.contains(w as usize) <==> stop <= w < z + 1 && start
                        <= #[trigger] self.zs_lst@[w].begin_bi <= end) by {
                        if out@.contains(w as usize) {
                            let i = choose|i: int| 0 <= i < out@.len() && out@[i] == w as usize;
                            if i < o.len() {
                                assert(o[i] == out@[i]);
                                assert(o.contains(w as usize));
                            }
                        }
                        if stop <= w < z + 1 && start <= self.zs_lst@[w].begin_bi <= end {
                            if w < z {
                                let i = choose|i: int| 0 <= i < o.len() && o[i] == w as usize;
                                assert(out@[i] == o[i]);
                            } else {
                                assert(out@[o.len() as int] == z);
                            }
                        }
                    }
                }
            }
            z += 1;
        }
        proof {
            assert forall|w: int| 0 <= w < nz implies (out@.contains(w as usize) <==> zone_scanned(self.zs_lst@, w, start as int)
                && start <= #[trigger] self.zs_lst@[w].begin_bi <= end) by {
                if w < stop {
                    assert(!zone_scanned(self.zs_lst@, w, start as int));
                }
            }
        }
        (out, stop)
    }
}

} // verus!
