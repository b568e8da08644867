use vstd::prelude::*;
use crate::chan_exception::{ChanError, ErrCode};
use crate::eigen::LineItem;
use crate::kline::{max2, min2};
use crate::utils::{has_overlap, spec_has_overlap, str_equal};

verus! {

/// Zone settings.
#[derive(Debug)]
pub struct ZSConfig {
    /// Merge adjacent overlapping zones.
    pub need_combine: bool,
    /// "zs": merge when the zone ranges overlap; "peak": when the peak ranges do.
    pub zs_combine_mode: String,
    /// Allow zones of a single stroke.
    pub one_bi_zs: bool,
    pub zs_algo: ZSAlgo,
}

/// How zones are built.
#[derive(Debug, Clone, Copy, PartialEq, Eq, Structural)]
pub enum ZSAlgo {
    Normal,
}

impl ZSConfig {
    /// Settings from optional values; missing ones take combining on, mode
    /// "zs", no single-stroke zones, the normal algorithm.
    pub fn new(need_combine: Option<bool>, zs_combine_mode: Option<&str>, one_bi_zs: Option<bool>, zs_algo: Option<ZSAlgo>) -> (r: Self)
        ensures
            r.need_combine == (match need_combine {
                Some(b) => b,
                None => true,
            }),
            r.zs_combine_mode@ == (match zs_combine_mode {
                Some(m) => m@,
                None => "zs"@,
            }),
            r.one_bi_zs == (match one_bi_zs {
                Some(b) => b,
                None => false,
            }),
            r.zs_algo == ZSAlgo::Normal,
    {
        ZSConfig {
            need_combine: match need_combine {
                Some(b) => b,
                None => true,
            },
            zs_combine_mode: match zs_combine_mode {
                Some(m) => String::from_str(m),
                None => String::from_str("zs"),
            },
            one_bi_zs: match one_bi_zs {
                Some(b) => b,
                None => false,
            },
            zs_algo: match zs_algo {
                Some(a) => a,
                None => ZSAlgo::Normal,
            },
        }
    }

    pub fn default() -> (r: Self)
        ensures
            r.need_combine,
            r.zs_combine_mode@ == "zs"@,
            !r.one_bi_zs,
            r.zs_algo == ZSAlgo::Normal,
    {
        Self::new(None, None, None, None)
    }
}

/// The range and span of a zone before it was merged with another.
#[derive(Debug, Clone, Copy, PartialEq, Eq, Structural)]
pub struct ZSPart {
    pub begin_bi: usize,
    pub end_bi: usize,
    pub low: i64,
    pub high: i64,
    pub peak_low: i64,
    pub peak_high: i64,
}

/// A central zone: the price band [low, high] that a run of strokes overlaps.
#[derive(Debug)]
pub struct ZS {
    pub is_sure: bool,
    /// The zones merged into this one, in order; empty when none were.
    pub sub_zs_lst: Vec<ZSPart>,
    pub begin_bi: usize,
    pub end_bi: usize,
    pub low: i64,
    pub high: i64,
    pub peak_low: i64,
    pub peak_high: i64,
    /// Segment of the first stroke.
    pub begin_seg: Option<usize>,
    /// The stroke that enters the zone and the one that leaves it.
    pub bi_in: Option<usize>,
    pub bi_out: Option<usize>,
    /// Member strokes, in order.
    pub bi_lst: Vec<LineItem>,
}

/// Highest low of a run of strokes.
pub open spec fn max_low(s: Seq<LineItem>) -> int
    decreases s.len(),
{
    if s.len() == 0 {
        0
    } else if s.len() == 1 {
        s[0].low as int
    } else {
        max2(max_low(s.drop_last()), s.last().low as int)
    }
}

/// Lowest high of a run of strokes.
pub open spec fn min_high(s: Seq<LineItem>) -> int
    decreases s.len(),
{
    if s.len() == 0 {
        0
    } else if s.len() == 1 {
        s[0].high as int
    } else {
        min2(min_high(s.drop_last()), s.last().high as int)
    }
}

pub open spec fn min_low(s: Seq<LineItem>) -> int
    decreases s.len(),
{
    if s.len() == 0 {
        0
    } else if s.len() == 1 {
        s[0].low as int
    } else {
        min2(min_low(s.drop_last()), s.last().low as int)
    }
}

pub open spec fn max_high(s: Seq<LineItem>) -> int
    decreases s.len(),
{
    if s.len() == 0 {
        0
    } else if s.len() == 1 {
        s[0].high as int
    } else {
        max2(max_high(s.drop_last()), s.last().high as int)
    }
}

impl ZS {
    /// The zone invariant: an ordered band inside its peak range, overlapped
    /// by every member stroke, members in increasing stroke order from
    /// `begin_bi` to `end_bi`.
    pub open spec fn wf(&self) -> bool {
        &&& self.bi_lst@.len() > 0
        &&& self.low <= self.high
        &&& self.peak_low <= self.low
        &&& self.high <= self.peak_high
        &&& self.begin_bi == self.bi_lst@[0].idx
        &&& forall|i: int| 0 <= i < self.bi_lst@.len() ==> spec_has_overlap(
            self.low as int,
            self.high as int,
            #[trigger] self.bi_lst@[i].low as int,
            self.bi_lst@[i].high as int,
            true,
        )
        &&& forall|i: int| 0 <= i < self.bi_lst@.len() ==> self.peak_low <= #[trigger] self.bi_lst@[i].low
            && self.bi_lst@[i].high <= self.peak_high
    }

    /// A zone over `lst`: the band from the highest low to the lowest high.
    /// Fails with `FeatureError` when the strokes do not share a band.
    pub fn new(lst: &Vec<LineItem>, is_sure: bool, begin_seg: Option<usize>) -> (r: Result<Self, ChanError>)
        requires
            lst@.len() > 0,
        ensures
            r.is_ok() <==> max_low(lst@) <= min_high(lst@),
            r matches Err(e) ==> e.errcode == ErrCode::FeatureError,
            r matches Ok(z) ==> z.wf() && z.low == max_low(lst@) && z.high == min_high(lst@)
                && z.begin_bi == lst@[0].idx && z.end_bi == lst@.last().idx
                && z.peak_low == min_low(lst@) && z.peak_high == max_high(lst@) && z.bi_lst@ == lst@
                && z.is_sure == is_sure && z.sub_zs_lst@.len() == 0 && z.begin_seg == begin_seg
                && z.bi_in.is_none() && z.bi_out.is_none(),
    {
        let mut lo = lst[0].low;
        let mut hi = lst[0].high;
        let mut plo = lst[0].low;
        let mut phi = lst[0].high;
        let mut v: Vec<LineItem> = vec![lst[0]];
        let mut i: usize = 1;
        while i < lst.len()
            invariant
                1 <= i <= lst@.len(),
                v@ == lst@.subrange(0, i as int),
                lo == max_low(v@),
                hi == min_high(v@),
                plo == min_low(v@),
                phi == max_high(v@),
            decreases lst@.len() - i,
        {
            let x = lst[i];
            let ghost pv = v@;
            v.push(x);
            assert(v@.drop_last() =~= pv);
            if x.low > lo {
                lo = x.low;
            }
            if x.high < hi {
                hi = x.high;
            }
            if x.low < plo {
                plo = x.low;
            }
            if x.high > phi {
                phi = x.high;
            }
            i += 1;
            assert(v@ =~= lst@.subrange(0, i as int));
        }
        assert(v@ =~= lst@);
        if lo > hi {
            return Err(ChanError::with_msg("strokes share no price band", ErrCode::FeatureError));
        }
        proof {
            lemma_extremes(lst@);
        }
        Ok(ZS {
            is_sure,
            sub_zs_lst: Vec::new(),
            begin_bi: lst[0].idx,
            end_bi: lst[lst.len() - 1].idx,
            low: lo,
            high: hi,
            peak_low: plo,
            peak_high: phi,
            begin_seg,
            bi_in: None,
            bi_out: None,
            bi_lst: v,
        })
    }

    pub open spec fn spec_is_one_bi_zs(&self) -> bool {
        self.begin_bi == self.end_bi
    }

    /// A zone of a single stroke.
    pub fn is_one_bi_zs(&self) -> (r: bool)
        ensures
            r == self.spec_is_one_bi_zs(),
    {
        self.begin_bi == self.end_bi
    }

    /// Whether a stroke's range touches the band.
    pub fn in_range(&self, item: &LineItem) -> (r: bool)
        ensures
            r == spec_has_overlap(self.low as int, self.high as int, item.low as int, item.high as int, true),
    {
        has_overlap(self.low, self.high, item.low, item.high, true)
    }

    /// Extends the zone by `item` when it touches the band. A zone of a
    /// single stroke narrows its band to what that stroke and `item` share;
    /// any other zone keeps its band. On failure nothing changes.
    pub fn try_add_to_end(&mut self, item: &LineItem) -> (r: bool)
        requires
            old(self).wf(),
            item.low <= item.high,
            item.idx > old(self).end_bi,
        ensures
            final(self).wf(),
            r == spec_has_overlap(old(self).low as int, old(self).high as int, item.low as int, item.high as int, true),
            !r ==> final(self).bi_lst@ == old(self).bi_lst@ && final(self).low == old(self).low
                && final(self).high == old(self).high && final(self).peak_low == old(self).peak_low
                && final(self).peak_high == old(self).peak_high && final(self).end_bi == old(self).end_bi
                && final(self).bi_in == old(self).bi_in && final(self).bi_out == old(self).bi_out,
            r ==> final(self).bi_lst@ == old(self).bi_lst@.push(*item) && final(self).end_bi == item.idx
                && final(self).peak_low as int == min2(old(self).peak_low as int, item.low as int)
                && final(self).peak_high as int == max2(old(self).peak_high as int, item.high as int)
                && final(self).bi_in == old(self).bi_in && final(self).bi_out == old(self).bi_out,
            r && !(old(self).spec_is_one_bi_zs() && old(self).bi_lst@.len() == 1) ==> final(self).low == old(self).low
                && final(self).high == old(self).high,
            r && old(self).spec_is_one_bi_zs() && old(self).bi_lst@.len() == 1 ==> ({
                let b0 = old(self).bi_lst@[0];
                let lo = max2(b0.low as int, item.low as int);
                let hi = min2(b0.high as int, item.high as int);
                if lo <= hi {
                    final(self).low as int == lo && final(self).high as int == hi
                } else {
                    final(self).low == old(self).low && final(self).high == old(self).high
                }
            }),
            final(self).begin_bi == old(self).begin_bi,
            final(self).sub_zs_lst@ == old(self).sub_zs_lst@,
            final(self).begin_seg == old(self).begin_seg,
            final(self).is_sure == old(self).is_sure,
    {
        if !self.in_range(item) {
            return false;
        }
        let ghost old_l = self.bi_lst@;
        if self.is_one_bi_zs() && self.bi_lst.len() == 1 {
            let b0 = self.bi_lst[0];
            let lo = if b0.low >= item.low { b0.low } else { item.low };
            let hi = if b0.high <= item.high { b0.high } else { item.high };
            if lo <= hi {
                self.low = lo;
                self.high = hi;
            }
        }
        self.bi_lst.push(*item);
        self.end_bi = item.idx;
        if item.low < self.peak_low {
            self.peak_low = item.low;
        }
        if item.high > self.peak_high {
            self.peak_high = item.high;
        }
        proof {
            let l = self.bi_lst@;
            assert forall|i: int| 0 <= i < l.len() implies spec_has_overlap(
                self.low as int, self.high as int, #[trigger] l[i].low as int, l[i].high as int, true) by {
                if i < old_l.len() {
                    assert(l[i] == old_l[i]);
                    assert(spec_has_overlap(old(self).low as int, old(self).high as int, old_l[i].low as int, old_l[i].high as int, true));
                }
            }
            assert forall|i: int| 0 <= i < l.len() implies self.peak_low <= #[trigger] l[i].low && l[i].high <= self.peak_high by {
                if i < old_l.len() {
                    assert(l[i] == old_l[i]);
                    assert(old(self).peak_low <= old_l[i].low);
                }
            }
            assert(old(self).peak_low <= old_l[0].low);
        }
        true
    }

    /// The range parts of this zone.
    pub open spec fn spec_part(&self) -> ZSPart {
        ZSPart {
            begin_bi: self.begin_bi,
            end_bi: self.end_bi,
            low: self.low,
            high: self.high,
            peak_low: self.peak_low,
            peak_high: self.peak_high,
        }
    }

    pub fn make_copy(&self) -> (r: ZSPart)
        ensures
            r == self.spec_part(),
    {
        ZSPart {
            begin_bi: self.begin_bi,
            end_bi: self.end_bi,
            low: self.low,
            high: self.high,
            peak_low: self.peak_low,
            peak_high: self.peak_high,
        }
    }

    /// The zone `old` after merging the later zone `zs2` into it.
    pub open spec fn spec_combined(old: &ZS, zs2: &ZS, new: &ZS) -> bool {
        &&& new.low as int == min2(old.low as int, zs2.low as int)
        &&& new.high as int == max2(old.high as int, zs2.high as int)
        &&& new.peak_low as int == min2(old.peak_low as int, zs2.peak_low as int)
        &&& new.peak_high as int == max2(old.peak_high as int, zs2.peak_high as int)
        &&& new.end_bi == zs2.end_bi
        &&& new.bi_out == zs2.bi_out
        &&& new.begin_bi == old.begin_bi
        &&& new.bi_in == old.bi_in
        &&& new.bi_lst@ == old.bi_lst@
        &&& new.begin_seg == old.begin_seg
        &&& new.is_sure == old.is_sure
        &&& new.sub_zs_lst@ == (if old.sub_zs_lst@.len() == 0 {
            seq![old.spec_part()]
        } else {
            old.sub_zs_lst@
        }).push(zs2.spec_part())
    }

    /// The zone unchanged.
    pub open spec fn spec_same(old: &ZS, new: &ZS) -> bool {
        &&& new.low == old.low && new.high == old.high
        &&& new.peak_low == old.peak_low && new.peak_high == old.peak_high
        &&& new.begin_bi == old.begin_bi && new.end_bi == old.end_bi
        &&& new.bi_in == old.bi_in && new.bi_out == old.bi_out
        &&& new.bi_lst@ == old.bi_lst@ && new.sub_zs_lst@ == old.sub_zs_lst@
        &&& new.begin_seg == old.begin_seg && new.is_sure == old.is_sure
    }

    /// Merges the later zone `zs2` into this one: band and peak range widen to
    /// cover both, the end and the leaving stroke come from `zs2`, and the
    /// sub-zone list records the parts (this zone's own first, when empty).
    pub fn do_combine(&mut self, zs2: &ZS)
        requires
            old(self).wf(),
            zs2.wf(),
        ensures
            final(self).wf(),
            ZS::spec_combined(old(self), zs2, final(self)),
    {
        if self.sub_zs_lst.len() == 0 {
            let c = self.make_copy();
            self.sub_zs_lst.push(c);
            assert(self.sub_zs_lst@ =~= seq![old(self).spec_part()]);
        }
        self.sub_zs_lst.push(zs2.make_copy());
        if zs2.low < self.low {
            self.low = zs2.low;
        }
        if zs2.high > self.high {
            self.high = zs2.high;
        }
        if zs2.peak_low < self.peak_low {
            self.peak_low = zs2.peak_low;
        }
        if zs2.peak_high > self.peak_high {
            self.peak_high = zs2.peak_high;
        }
        self.end_bi = zs2.end_bi;
        self.bi_out = zs2.bi_out;
        proof {
            let l = self.bi_lst@;
            assert forall|i: int| 0 <= i < l.len() implies spec_has_overlap(
                self.low as int, self.high as int, #[trigger] l[i].low as int, l[i].high as int, true) by {
                assert(spec_has_overlap(old(self).low as int, old(self).high as int, l[i].low as int, l[i].high as int, true));
            }
            assert forall|i: int| 0 <= i < l.len() implies self.peak_low <= #[trigger] l[i].low && l[i].high <= self.peak_high by {
                assert(old(self).peak_low <= l[i].low);
            }
        }
    }

    /// Merges the later zone `zs2` into this one when both lie in the same
    /// segment, `zs2` has more than one stroke, and their bands ("zs") or peak
    /// ranges ("peak") touch. An unknown mode fails with `ParaError`.
    pub fn combine(&mut self, zs2: &ZS, combine_mode: &str) -> (r: Result<bool, ChanError>)
        requires
            old(self).wf(),
            zs2.wf(),
        ensures
            final(self).wf(),
            r matches Err(e) ==> e.errcode == ErrCode::ParaError,
            r == Ok::<bool, ChanError>(true) <==> !zs2.spec_is_one_bi_zs() && old(self).begin_seg == zs2.begin_seg && (
                (combine_mode@ == "zs"@ && spec_has_overlap(old(self).low as int, old(self).high as int, zs2.low as int, zs2.high as int, true))
                || (combine_mode@ == "peak"@ && spec_has_overlap(old(self).peak_low as int, old(self).peak_high as int, zs2.peak_low as int, zs2.peak_high as int, true))),
            r.is_err() <==> !zs2.spec_is_one_bi_zs() && old(self).begin_seg == zs2.begin_seg && combine_mode@ != "zs"@ && combine_mode@ != "peak"@,
            r == Ok::<bool, ChanError>(true) ==> ZS::spec_combined(old(self), zs2, final(self)),
            !(r == Ok::<bool, ChanError>(true)) ==> ZS::spec_same(old(self), final(self)),
    {
        proof {
            reveal_strlit("zs");
            reveal_strlit("peak");
        }
        if zs2.is_one_bi_zs() {
            return Ok(false);
        }
        if self.begin_seg != zs2.begin_seg {
            return Ok(false);
        }
        if str_equal(combine_mode, "zs") {
            if !has_overlap(self.low, self.high, zs2.low, zs2.high, true) {
                assert(combine_mode@ == "zs"@);
                assert("zs"@.len() != "peak"@.len());
                assert(combine_mode@ != "peak"@);
                return Ok(false);
            }
            self.do_combine(zs2);
            Ok(true)
        } else if str_equal(combine_mode, "peak") {
            if has_overlap(self.peak_low, self.peak_high, zs2.peak_low, zs2.peak_high, true) {
                self.do_combine(zs2);
                Ok(true)
            } else {
                Ok(false)
            }
        } else {
            Err(ChanError::with_msg("unsupported zone combine mode", ErrCode::ParaError))
        }
    }

    /// Whether stroke `end_bi`, leaving the zone, closes beyond the band in its direction.
    pub fn end_bi_break(&self, end_bi: &LineItem) -> (r: bool)
        ensures
            r == ((end_bi.dir == crate::cenum::BiDir::Down && end_bi.low < self.low)
                || (end_bi.dir == crate::cenum::BiDir::Up && end_bi.high > self.high)),
    {
        (end_bi.dir == crate::cenum::BiDir::Down && end_bi.low < self.low) || (end_bi.dir == crate::cenum::BiDir::Up
            && end_bi.high > self.high)
    }

    /// Whether the zone starts inside segment `seg`.
    pub fn is_inside(&self, seg: &crate::seg::Seg) -> (r: bool)
        ensures
            r == (seg.start_bi <= self.begin_bi && self.begin_bi <= seg.end_bi),
    {
        seg.start_bi <= self.begin_bi && self.begin_bi <= seg.end_bi
    }

    /// The stroke entering the zone.
    pub fn get_bi_in(&self) -> (r: usize)
        requires
            self.bi_in.is_some(),
        ensures
            Some(r) == self.bi_in,
    {
        self.bi_in.unwrap()
    }

    /// The stroke leaving the zone.
    pub fn get_bi_out(&self) -> (r: usize)
        requires
            self.bi_out.is_some(),
        ensures
            Some(r) == self.bi_out,
    {
        self.bi_out.unwrap()
    }

    pub fn set_bi_in(&mut self, bi: usize)
        ensures
            final(self).bi_in == Some(bi),
            final(self).bi_out == old(self).bi_out,
            final(self).bi_lst@ == old(self).bi_lst@,
            final(self).low == old(self).low && final(self).high == old(self).high,
            final(self).begin_bi == old(self).begin_bi && final(self).end_bi == old(self).end_bi,
            final(self).peak_low == old(self).peak_low && final(self).peak_high == old(self).peak_high,
            final(self).begin_seg == old(self).begin_seg,
    {
        self.bi_in = Some(bi);
    }

    pub fn set_bi_out(&mut self, bi: usize)
        ensures
            final(self).bi_out == Some(bi),
            final(self).bi_in == old(self).bi_in,
            final(self).bi_lst@ == old(self).bi_lst@,
            final(self).low == old(self).low && final(self).high == old(self).high,
            final(self).begin_bi == old(self).begin_bi && final(self).end_bi == old(self).end_bi,
            final(self).peak_low == old(self).peak_low && final(self).peak_high == old(self).peak_high,
            final(self).begin_seg == old(self).begin_seg,
    {
        self.bi_out = Some(bi);
    }

    /// Replaces the member strokes.
    pub fn set_bi_lst(&mut self, bi_lst: Vec<LineItem>)
        ensures
            final(self).bi_lst@ == bi_lst@,
            final(self).low == old(self).low && final(self).high == old(self).high,
            final(self).bi_in == old(self).bi_in && final(self).bi_out == old(self).bi_out,
    {
        self.bi_lst = bi_lst;
    }

    /// Takes over the range, ends and entering/leaving strokes of `zs`.
    pub fn init_from_zs(&mut self, zs: &ZS)
        ensures
            final(self).begin_bi == zs.begin_bi && final(self).end_bi == zs.end_bi,
            final(self).low == zs.low && final(self).high == zs.high,
            final(self).peak_low == zs.peak_low && final(self).peak_high == zs.peak_high,
            final(self).bi_in == zs.bi_in && final(self).bi_out == zs.bi_out,
            final(self).bi_lst@ == old(self).bi_lst@,
            final(self).sub_zs_lst@ == old(self).sub_zs_lst@,
            final(self).is_sure == old(self).is_sure,
            final(self).begin_seg == old(self).begin_seg,
    {
        self.begin_bi = zs.begin_bi;
        self.end_bi = zs.end_bi;
        self.low = zs.low;
        self.high = zs.high;
        self.peak_high = zs.peak_high;
        self.peak_low = zs.peak_low;
        self.bi_in = zs.bi_in;
        self.bi_out = zs.bi_out;
    }
}

/// Each stroke lies within the extremes of a run that holds it, and the
/// band and peak range relate as they should.
pub proof fn lemma_extremes(s: Seq<LineItem>)
    requires
        s.len() > 0,
        max_low(s) <= min_high(s),
    ensures
        forall|i: int| 0 <= i < s.len() ==> #[trigger] s[i].low <= max_low(s) && s[i].high >= min_high(s)
            && s[i].low >= min_low(s) && s[i].high <= max_high(s),
        min_low(s) <= max_low(s),
        min_high(s) <= max_high(s),
    decreases s.len(),
{
    lemma_extremes_plain(s);
}

proof fn lemma_extremes_plain(s: Seq<LineItem>)
    requires
        s.len() > 0,
    ensures
        forall|i: int| 0 <= i < s.len() ==> #[trigger] s[i].low <= max_low(s) && s[i].high >= min_high(s)
            && s[i].low >= min_low(s) && s[i].high <= max_high(s),
        min_low(s) <= s[0].low,
        max_high(s) >= s[0].high,
        min_low(s) <= max_low(s),
        min_high(s) <= max_high(s),
    decreases s.len(),
{
    if s.len() > 1 {
        let p = s.drop_last();
        lemma_extremes_plain(p);
        assert forall|i: int| 0 <= i < s.len() implies #[trigger] s[i].low <= max_low(s) && s[i].high >= min_high(s)
            && s[i].low >= min_low(s) && s[i].high <= max_high(s) by {
            if i < s.len() - 1 {
                assert(s[i] == p[i]);
            }
        }
    }
}

} // verus!
