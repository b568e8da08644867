use vstd::prelude::*;
use crate::cenum::{FxType, KlineDir};
use crate::chan_exception::{ChanError, ErrCode};

verus! {

/// One raw price bar. Prices are fixed-point integers.
#[derive(Debug, Clone, Copy, PartialEq, Eq, Structural)]
pub struct KLineUnit {
    pub idx: usize,
    pub time: i64,
    pub open: i64,
    pub high: i64,
    pub low: i64,
    pub close: i64,
    pub volume: i64,
    /// Traded amount (fixed point); 0 when unknown.
    pub turnover: i64,
    /// Turnover rate (fixed point); 0 when unknown.
    pub turnrate: i64,
    /// MACD histogram value of the bar (fixed point), written by an indicator before use.
    pub macd: i64,
}

pub open spec fn min2(a: int, b: int) -> int {
    if a <= b { a } else { b }
}

pub open spec fn max2(a: int, b: int) -> int {
    if a >= b { a } else { b }
}

pub open spec fn min4(a: int, b: int, c: int, d: int) -> int {
    min2(min2(a, b), min2(c, d))
}

pub open spec fn max4(a: int, b: int, c: int, d: int) -> int {
    max2(max2(a, b), max2(c, d))
}

fn min_i64(a: i64, b: i64) -> (r: i64)
    ensures
        r as int == min2(a as int, b as int),
{
    if a <= b { a } else { b }
}

fn max_i64(a: i64, b: i64) -> (r: i64)
    ensures
        r as int == max2(a as int, b as int),
{
    if a >= b { a } else { b }
}

impl KLineUnit {
    /// low <= min(open, close) <= max(open, close) <= high.
    pub open spec fn spec_valid(&self) -> bool {
        self.low <= self.open && self.low <= self.close && self.open <= self.high && self.close
            <= self.high
    }

    /// A bar from its prices. An inconsistent low or high is rejected with
    /// `KlDataInvalid`, or, with `autofix`, replaced by the extreme of the four prices.
    pub fn new(
        idx: usize,
        time: i64,
        open: i64,
        high: i64,
        low: i64,
        close: i64,
        volume: i64,
        autofix: bool,
    ) -> (r: Result<Self, ChanError>)
        ensures
            r.is_err() <==> !autofix && (low as int != min4(low as int, open as int, high as int, close as int)
                || high as int != max4(low as int, open as int, high as int, close as int)),
            r matches Err(e) ==> e.errcode == ErrCode::KlDataInvalid,
            r matches Ok(u) ==> u.idx == idx && u.time == time && u.open == open && u.close == close
                && u.volume == volume && u.macd == 0 && u.turnover == 0 && u.turnrate == 0
                && u.low as int == min4(low as int, open as int, high as int, close as int)
                && u.high as int == max4(low as int, open as int, high as int, close as int)
                && u.spec_valid(),
    {
        let min_price = min_i64(min_i64(low, open), min_i64(high, close));
        let max_price = max_i64(max_i64(low, open), max_i64(high, close));
        if (low != min_price || high != max_price) && !autofix {
            return Err(ChanError::with_msg("bar low/high is not the extreme of its prices", ErrCode::KlDataInvalid));
        }
        Ok(KLineUnit { idx, time, open, high: max_price, low: min_price, close, volume, turnover: 0, turnrate: 0, macd: 0 })
    }
}

/// A merged bar: a run of contiguous raw bars folded by containment.
#[derive(Debug, Clone, Copy, PartialEq, Eq, Structural)]
pub struct KLine {
    pub idx: usize,
    /// Index of the first raw bar of the run.
    pub begin_klu: usize,
    /// Index of the last raw bar of the run.
    pub end_klu: usize,
    pub time_begin: i64,
    pub time_end: i64,
    pub high: i64,
    pub low: i64,
    pub dir: KlineDir,
    pub fx: FxType,
}

/// How a range [il, ih] relates to the range [l, h] of a merged bar.
pub open spec fn spec_test_combine(
    h: int,
    l: int,
    ih: int,
    il: int,
    exclude_included: bool,
    allow_top_equal: Option<i32>,
) -> KlineDir {
    if h >= ih && l <= il {
        KlineDir::Combine
    } else if h <= ih && l >= il {
        if allow_top_equal == Some(1i32) && h == ih && l > il {
            KlineDir::Down
        } else if allow_top_equal == Some(-1i32) && l == il && h < ih {
            KlineDir::Up
        } else if exclude_included {
            KlineDir::Included
        } else {
            KlineDir::Combine
        }
    } else if h > ih && l > il {
        KlineDir::Down
    } else {
        KlineDir::Up
    }
}

/// The merged bar `k` after absorbing the raw bar `u`: an upward bar keeps the
/// higher extremes, a downward one the lower; a one-price bar at the current
/// extreme changes nothing.
pub open spec fn spec_absorb(k: KLine, u: KLineUnit) -> KLine {
    let (h, l) = if k.dir == KlineDir::Up {
        if u.high != u.low || u.high != k.high {
            (max2(k.high as int, u.high as int), max2(k.low as int, u.low as int))
        } else {
            (k.high as int, k.low as int)
        }
    } else {
        if u.high != u.low || u.low != k.low {
            (min2(k.high as int, u.high as int), min2(k.low as int, u.low as int))
        } else {
            (k.high as int, k.low as int)
        }
    };
    KLine { high: h as i64, low: l as i64, end_klu: u.idx, time_end: u.time, ..k }
}

/// The fractal that `cur` forms between `pre` and `next`; `cur.fx` where it forms none.
pub open spec fn spec_fx(
    pre: KLine,
    cur: KLine,
    next: KLine,
    exclude_included: bool,
    allow_top_equal: Option<i32>,
) -> FxType {
    if exclude_included {
        if pre.high < cur.high && next.high <= cur.high && next.low < cur.low {
            if allow_top_equal == Some(1i32) || next.high < cur.high {
                FxType::Top
            } else {
                cur.fx
            }
        } else if next.high > cur.high && pre.low > cur.low && next.low >= cur.low {
            if allow_top_equal == Some(-1i32) || next.low > cur.low {
                FxType::Bottom
            } else {
                cur.fx
            }
        } else {
            cur.fx
        }
    } else if pre.high < cur.high && next.high < cur.high && pre.low < cur.low && next.low < cur.low {
        FxType::Top
    } else if pre.high > cur.high && next.high > cur.high && pre.low > cur.low && next.low > cur.low {
        FxType::Bottom
    } else {
        cur.fx
    }
}

/// A merged bar made of the single raw bar `u`.
pub open spec fn spec_new_kline(idx: int, u: KLineUnit, dir: KlineDir) -> KLine {
    KLine {
        idx: idx as usize,
        begin_klu: u.idx,
        end_klu: u.idx,
        time_begin: u.time,
        time_end: u.time,
        high: u.high,
        low: u.low,
        dir,
        fx: FxType::Unknown,
    }
}

/// One folding step: the merged bars after the raw bar `u` arrives.
pub open spec fn spec_fold_step(lst: Seq<KLine>, u: KLineUnit) -> Seq<KLine> {
    if lst.len() == 0 {
        seq![spec_new_kline(0, u, KlineDir::Up)]
    } else {
        let last = lst.last();
        let d = spec_test_combine(last.high as int, last.low as int, u.high as int, u.low as int, false, None);
        if d == KlineDir::Combine {
            lst.update(lst.len() - 1, spec_absorb(last, u))
        } else {
            let l2 = lst.push(spec_new_kline(lst.len() as int, u, d));
            if l2.len() >= 3 {
                let n = l2.len() as int;
                l2.update(n - 2, KLine { fx: spec_fx(l2[n - 3], l2[n - 2], l2[n - 1], false, None), ..l2[n - 2] })
            } else {
                l2
            }
        }
    }
}

/// The merged bars of a whole run of raw bars.
pub open spec fn spec_fold(units: Seq<KLineUnit>) -> Seq<KLine>
    decreases units.len(),
{
    if units.len() == 0 {
        Seq::empty()
    } else {
        spec_fold_step(spec_fold(units.drop_last()), units.last())
    }
}

/// Neither range contains the other.
pub open spec fn not_nested(a: KLine, b: KLine) -> bool {
    !(a.high >= b.high && a.low <= b.low) && !(b.high >= a.high && b.low <= a.low)
}

/// Fractal kind of a settled merged bar, read off the directions of it and its successor.
pub open spec fn fx_of_dirs(cur: KlineDir, next: KlineDir) -> FxType {
    if cur == KlineDir::Up && next == KlineDir::Down {
        FxType::Top
    } else if cur == KlineDir::Down && next == KlineDir::Up {
        FxType::Bottom
    } else {
        FxType::Unknown
    }
}

/// Each merged bar sits at its own index, with a non-empty run of raw bars,
/// an ordered range and an up or down direction.
pub open spec fn kl_item_ok(lst: Seq<KLine>, i: int) -> bool {
    &&& lst[i].idx == i
    &&& lst[i].begin_klu <= lst[i].end_klu
    &&& lst[i].low <= lst[i].high
    &&& (lst[i].dir == KlineDir::Up || lst[i].dir == KlineDir::Down)
}

/// Merged bar `i` starts right after bar `i - 1` ends and lies strictly above
/// it when it is an up bar, strictly below when a down one.
pub open spec fn kl_link_ok(lst: Seq<KLine>, i: int) -> bool {
    &&& lst[i].begin_klu == lst[i - 1].end_klu + 1
    &&& (lst[i].dir == KlineDir::Up ==> lst[i].high > lst[i - 1].high && lst[i].low > lst[i - 1].low)
    &&& (lst[i].dir == KlineDir::Down ==> lst[i].high < lst[i - 1].high && lst[i].low < lst[i - 1].low)
}

/// A settled inner merged bar carries the fractal its direction and its successor's give.
pub open spec fn kl_fx_ok(lst: Seq<KLine>, i: int) -> bool {
    lst[i].fx == fx_of_dirs(lst[i].dir, lst[i + 1].dir)
}

/// The shape every folded sequence of merged bars has: items, links and
/// fractals as above, and no fractal on the first or the last bar.
pub open spec fn klcs_shape(lst: Seq<KLine>) -> bool {
    &&& lst.len() > 0 ==> lst[0].fx == FxType::Unknown && lst.last().fx == FxType::Unknown
    &&& forall|i: int| 0 <= i < lst.len() ==> #[trigger] kl_item_ok(lst, i)
    &&& forall|i: int| 0 < i < lst.len() ==> #[trigger] kl_link_ok(lst, i)
    &&& forall|i: int| 0 < i < lst.len() - 1 ==> #[trigger] kl_fx_ok(lst, i)
}

/// Well-formed merged bars over `n` raw bars.
pub open spec fn klines_wf(lst: Seq<KLine>, n: nat) -> bool {
    &&& (lst.len() == 0 <==> n == 0)
    &&& lst.len() <= n
    &&& lst.len() > 0 ==> lst[0].begin_klu == 0 && lst[0].dir == KlineDir::Up
        && lst.last().end_klu == n - 1
    &&& klcs_shape(lst)
}

/// Raw bars stored at their own index, valid and with strictly increasing times.
pub open spec fn units_wf(units: Seq<KLineUnit>) -> bool {
    &&& forall|i: int| 0 <= i < units.len() ==> (#[trigger] units[i]).idx == i && units[i].spec_valid()
    &&& forall|i: int| 0 < i < units.len() ==> #[trigger] units[i].time > units[i - 1].time
}

impl KLine {
    /// A merged bar made of one raw bar.
    pub fn new(kl_unit: &KLineUnit, index: usize, dir: KlineDir) -> (r: Self)
        ensures
            r == spec_new_kline(index as int, *kl_unit, dir),
    {
        KLine {
            idx: index,
            begin_klu: kl_unit.idx,
            end_klu: kl_unit.idx,
            time_begin: kl_unit.time,
            time_end: kl_unit.time,
            high: kl_unit.high,
            low: kl_unit.low,
            dir,
            fx: FxType::Unknown,
        }
    }

    /// Classifies a range against this merged bar. Every pair of ranges falls
    /// in one of the cases, so this never fails.
    pub fn test_combine(
        &self,
        item_high: i64,
        item_low: i64,
        exclude_included: bool,
        allow_top_equal: Option<i32>,
    ) -> (r: Result<KlineDir, ChanError>)
        ensures
            r == Ok::<KlineDir, ChanError>(spec_test_combine(
                self.high as int,
                self.low as int,
                item_high as int,
                item_low as int,
                exclude_included,
                allow_top_equal,
            )),
    {
        if self.high >= item_high && self.low <= item_low {
            return Ok(KlineDir::Combine);
        }
        if self.high <= item_high && self.low >= item_low {
            if allow_top_equal == Some(1i32) && self.high == item_high && self.low > item_low {
                return Ok(KlineDir::Down);
            }
            if allow_top_equal == Some(-1i32) && self.low == item_low && self.high < item_high {
                return Ok(KlineDir::Up);
            }
            return Ok(if exclude_included { KlineDir::Included } else { KlineDir::Combine });
        }
        if self.high > item_high && self.low > item_low {
            return Ok(KlineDir::Down);
        }
        Ok(KlineDir::Up)
    }

    /// Absorbs `unit_kl` when its range combines with this bar's; reports the relation.
    /// Fails with `CombinerErr` when it combines but this bar has no up/down direction.
    pub fn try_add(
        &mut self,
        unit_kl: &KLineUnit,
        exclude_included: bool,
        allow_top_equal: Option<i32>,
    ) -> (r: Result<KlineDir, ChanError>)
        ensures
            ({
                let d = spec_test_combine(
                    old(self).high as int,
                    old(self).low as int,
                    unit_kl.high as int,
                    unit_kl.low as int,
                    exclude_included,
                    allow_top_equal,
                );
                let directed = old(self).dir == KlineDir::Up || old(self).dir == KlineDir::Down;
                &&& r.is_err() <==> d == KlineDir::Combine && !directed
                &&& r matches Err(e) ==> e.errcode == ErrCode::CombinerErr && *final(self) == *old(self)
                &&& r matches Ok(x) ==> x == d && (if d == KlineDir::Combine {
                    *final(self) == spec_absorb(*old(self), *unit_kl)
                } else {
                    *final(self) == *old(self)
                })
            }),
    {
        let dir = self.test_combine(unit_kl.high, unit_kl.low, exclude_included, allow_top_equal)?;
        if dir == KlineDir::Combine {
            match self.dir {
                KlineDir::Up => {
                    if unit_kl.high != unit_kl.low || unit_kl.high != self.high {
                        self.high = max_i64(self.high, unit_kl.high);
                        self.low = max_i64(self.low, unit_kl.low);
                    }
                },
                KlineDir::Down => {
                    if unit_kl.high != unit_kl.low || unit_kl.low != self.low {
                        self.high = min_i64(self.high, unit_kl.high);
                        self.low = min_i64(self.low, unit_kl.low);
                    }
                },
                _ => {
                    return Err(ChanError::with_msg("merged bar direction must be up or down", ErrCode::CombinerErr));
                },
            }
            self.end_klu = unit_kl.idx;
            self.time_end = unit_kl.time;
        }
        Ok(dir)
    }

    /// Sets the fractal this bar forms between `pre` and `next`, if any.
    pub fn update_fx(&mut self, pre: &KLine, next: &KLine, exclude_included: bool, allow_top_equal: Option<i32>)
        ensures
            *final(self) == (KLine { fx: spec_fx(*pre, *old(self), *next, exclude_included, allow_top_equal), ..*old(self) }),
    {
        if exclude_included {
            if pre.high < self.high && next.high <= self.high && next.low < self.low {
                if allow_top_equal == Some(1i32) || next.high < self.high {
                    self.fx = FxType::Top;
                }
            } else if next.high > self.high && pre.low > self.low && next.low >= self.low {
                if allow_top_equal == Some(-1i32) || next.low > self.low {
                    self.fx = FxType::Bottom;
                }
            }
        } else if pre.high < self.high && next.high < self.high && pre.low < self.low && next.low < self.low {
            self.fx = FxType::Top;
        } else if pre.high > self.high && next.high > self.high && pre.low > self.low && next.low > self.low {
            self.fx = FxType::Bottom;
        }
    }

    /// Whether there is a price gap between this bar and `next`.
    pub open spec fn spec_has_gap_with_next(&self, next: KLine) -> bool {
        next.low > self.high || next.high < self.low
    }

    pub fn has_gap_with_next(&self, next: &KLine) -> (r: bool)
        ensures
            r == self.spec_has_gap_with_next(*next),
    {
        next.low > self.high || next.high < self.low
    }
}

/// The folded sequence of merged bars, with the raw bars it was built from.
#[derive(Debug)]
pub struct KLineList {
    pub kl_type: String,
    pub lst: Vec<KLine>,
    pub units: Vec<KLineUnit>,
}

impl KLineList {
    pub open spec fn wf(&self) -> bool {
        &&& units_wf(self.units@)
        &&& klines_wf(self.lst@, self.units@.len())
        &&& self.lst@ == spec_fold(self.units@)
    }

    pub fn new(kl_type: String) -> (r: Self)
        ensures
            r.wf(),
            r.lst@.len() == 0,
            r.units@.len() == 0,
            r.kl_type@ == kl_type@,
    {
        KLineList { kl_type, lst: Vec::new(), units: Vec::new() }
    }

    pub fn len(&self) -> (r: usize)
        ensures
            r == self.lst@.len(),
    {
        self.lst.len()
    }

    pub fn is_empty(&self) -> (r: bool)
        ensures
            r == (self.lst@.len() == 0),
    {
        self.lst.len() == 0
    }

    pub fn last(&self) -> (r: Option<&KLine>)
        ensures
            r == (if self.lst@.len() == 0 { None } else { Some(&self.lst@.last()) }),
    {
        if self.lst.len() == 0 {
            None
        } else {
            Some(&self.lst[self.lst.len() - 1])
        }
    }

    /// Appends a raw bar and folds it into the merged bars. The bar gets the next
    /// index. Fails with `KlDataInvalid` on an inconsistent bar and with
    /// `KlTimeInconsistent` on a time that does not come after the last bar's;
    /// on failure nothing changes.
    #[verifier::rlimit(40)]
    pub fn add_single_klu(&mut self, klu: KLineUnit) -> (r: Result<(), ChanError>)
        requires
            old(self).wf(),
        ensures
            final(self).wf(),
            final(self).kl_type == old(self).kl_type,
            r.is_err() <==> !klu.spec_valid() || (old(self).units@.len() > 0 && klu.time
                <= old(self).units@.last().time),
            r matches Err(e) ==> (if !klu.spec_valid() {
                e.errcode == ErrCode::KlDataInvalid
            } else {
                e.errcode == ErrCode::KlTimeInconsistent
            }) && final(self).units@ == old(self).units@ && final(self).lst@ == old(self).lst@,
            r.is_ok() ==> final(self).units@ == old(self).units@.push(KLineUnit { idx: old(self).units@.len() as usize, ..klu })
                && final(self).lst@ == spec_fold_step(old(self).lst@, KLineUnit { idx: old(self).units@.len() as usize, ..klu }),
    {
        if !(klu.low <= klu.open && klu.low <= klu.close && klu.open <= klu.high && klu.close <= klu.high) {
            return Err(ChanError::with_msg("bar prices are not ordered low <= open, close <= high", ErrCode::KlDataInvalid));
        }
        let n = self.units.len();
        if n > 0 && klu.time <= self.units[n - 1].time {
            return Err(ChanError::with_msg("bar time does not come after the previous bar", ErrCode::KlTimeInconsistent));
        }
        let u = KLineUnit { idx: n, ..klu };
        let ghost old_lst = self.lst@;
        let ghost old_units = self.units@;
        self.units.push(u);
        proof {
            assert(self.units@.drop_last() =~= old_units);
        }
        let m = self.lst.len();
        if m == 0 {
            self.lst.push(KLine::new(&u, 0, KlineDir::Up));
            proof {
                assert(self.lst@ =~= seq![spec_new_kline(0, u, KlineDir::Up)]);
            }
        } else {
            let mut last = self.lst[m - 1];
            assert(kl_item_ok(old_lst, m - 1));
            let dir = match last.try_add(&u, false, None) {
                Ok(d) => d,
                Err(e) => {
                    return Err(e);
                },
            };
            if dir == KlineDir::Combine {
                self.lst.set(m - 1, last);
            } else {
                self.lst.push(KLine::new(&u, m, dir));
                if m >= 2 {
                    let pre = self.lst[m - 2];
                    let next = self.lst[m];
                    let mut cur = self.lst[m - 1];
                    cur.update_fx(&pre, &next, false, None);
                    self.lst.set(m - 1, cur);
                }
            }
        }
        proof {
            assert(self.lst@ =~= spec_fold_step(old_lst, u));
            assert(old_lst.len() <= old_units.len());
            lemma_fold_step_wf(old_lst, old_units, u);
        }
        Ok(())
    }

    /// The raw bar of merged bar `klc_idx` that holds its high (`is_high`) or
    /// its low, the last such one. Fails with `CombinerErr` when none does.
    pub fn get_peak_klu(&self, klc_idx: usize, is_high: bool) -> (r: Result<usize, ChanError>)
        requires
            self.wf(),
            klc_idx < self.lst@.len(),
        ensures
            r matches Ok(i) ==> 0 <= klc_idx < self.lst@.len() && self.lst@[klc_idx as int].begin_klu <= i <= self.lst@[klc_idx as int].end_klu
                && (if is_high {
                    self.units@[i as int].high == self.lst@[klc_idx as int].high
                } else {
                    self.units@[i as int].low == self.lst@[klc_idx as int].low
                })
                && forall|j: int| i < j <= self.lst@[klc_idx as int].end_klu ==> (if is_high {
                    self.units@[j].high != self.lst@[klc_idx as int].high
                } else {
                    self.units@[j].low != self.lst@[klc_idx as int].low
                }),
            r matches Err(e) ==> e.errcode == ErrCode::CombinerErr,
    {
        let k = self.lst[klc_idx];
        let nu = self.units.len();
        assert(k.end_klu < nu) by {
            lemma_klu_bounds(self.lst@, self.units@.len(), klc_idx as int);
        }
        proof {
            if klc_idx + 1 < self.lst@.len() {
            }
            lemma_klu_bounds(self.lst@, self.units@.len(), klc_idx as int);
            assert(kl_item_ok(self.lst@, klc_idx as int));
        }
        let mut i: usize = k.end_klu + 1;
        while i > k.begin_klu
            invariant
                klc_idx < self.lst@.len(),
                k == self.lst@[klc_idx as int],
                k.begin_klu <= i <= k.end_klu + 1,
                k.end_klu < self.units@.len(),
                forall|j: int| i <= j <= k.end_klu ==> (if is_high {
                    self.units@[j].high != k.high
                } else {
                    self.units@[j].low != k.low
                }),
            decreases i,
        {
            let u = &self.units[i - 1];
            if (is_high && u.high == k.high) || (!is_high && u.low == k.low) {
                return Ok(i - 1);
            }
            i -= 1;
        }
        Err(ChanError::with_msg("no raw bar holds the extreme of the merged bar", ErrCode::CombinerErr))
    }
}

pub proof fn lemma_klu_bounds(lst: Seq<KLine>, n: nat, k: int)
    requires
        klines_wf(lst, n),
        0 <= k < lst.len(),
    ensures
        lst[k].end_klu < n,
    decreases lst.len() - k,
{
    if k + 1 < lst.len() {
        assert(kl_link_ok(lst, k + 1));
        assert(kl_item_ok(lst, k + 1));
        lemma_klu_bounds(lst, n, k + 1);
    }
}

proof fn lemma_fold_step_wf(lst: Seq<KLine>, units: Seq<KLineUnit>, u: KLineUnit)
    requires
        units_wf(units),
        klines_wf(lst, units.len()),
        u.idx == units.len(),
        u.spec_valid(),
        units.len() > 0 ==> u.time > units.last().time,
        lst.len() <= usize::MAX,
    ensures
        units_wf(units.push(u)),
        klines_wf(spec_fold_step(lst, u), units.len() + 1),
{
    let us = units.push(u);
    assert(forall|i: int| 0 <= i < units.len() ==> us[i] == units[i]);
    let r = spec_fold_step(lst, u);
    let m = units.len() + 1;
    if lst.len() == 0 {
        assert(kl_item_ok(r, 0));
        assert(klines_wf(r, m));
    } else {
        let n = lst.len() as int;
        assert(kl_item_ok(lst, n - 1));
        let last = lst[n - 1];
        let d = spec_test_combine(last.high as int, last.low as int, u.high as int, u.low as int, false, None);
        if d == KlineDir::Combine {
            let a = spec_absorb(last, u);
            assert(a.low <= a.high);
            assert forall|i: int| 0 <= i < r.len() implies #[trigger] kl_item_ok(r, i) by {
                assert(kl_item_ok(lst, i));
            }
            assert forall|i: int| 0 < i < r.len() implies #[trigger] kl_link_ok(r, i) by {
                assert(kl_link_ok(lst, i));
                if i == n - 1 {
                    assert(kl_item_ok(lst, i - 1));
                }
            }
            assert forall|i: int| 0 < i < r.len() - 1 implies #[trigger] kl_fx_ok(r, i) by {
                assert(kl_fx_ok(lst, i));
            }
            assert(klines_wf(r, m));
        } else {
            let nk = spec_new_kline(n, u, d);
            let l2 = lst.push(nk);
            assert forall|i: int| 0 <= i < l2.len() implies #[trigger] kl_item_ok(l2, i) by {
                if i < n {
                    assert(kl_item_ok(lst, i));
                }
            }
            assert forall|i: int| 0 < i < l2.len() implies #[trigger] kl_link_ok(l2, i) by {
                if i < n {
                    assert(kl_link_ok(lst, i));
                }
            }
            if l2.len() >= 3 {
                assert forall|i: int| 0 <= i < r.len() implies #[trigger] kl_item_ok(r, i) by {
                    assert(kl_item_ok(l2, i));
                }
                assert forall|i: int| 0 < i < r.len() implies #[trigger] kl_link_ok(r, i) by {
                    assert(kl_link_ok(l2, i));
                }
                assert forall|i: int| 0 < i < r.len() - 1 implies #[trigger] kl_fx_ok(r, i) by {
                    assert(kl_link_ok(l2, i + 1));
                    assert(kl_link_ok(l2, i));
                    assert(kl_item_ok(l2, i));
                    assert(kl_item_ok(l2, i + 1));
                    if i < n - 1 {
                        assert(kl_fx_ok(lst, i));
                    }
                }
                assert(klines_wf(r, m));
            } else {
                assert(klines_wf(r, m));
            }
        }
    }
}

/// Adjacent merged bars never contain one another: every containment is
/// absorbed into a single merged bar.
pub proof fn lemma_adjacent_not_nested(lst: Seq<KLine>, n: nat, i: int)
    requires
        klines_wf(lst, n),
        0 <= i,
        i + 1 < lst.len(),
    ensures
        not_nested(lst[i], lst[i + 1]),
{
    assert(kl_link_ok(lst, i + 1));
    assert(kl_item_ok(lst, i + 1));
}

/// `new` keeps every merged bar of `old` but the last, and is no shorter.
pub open spec fn prefix_kept(old: Seq<KLine>, new: Seq<KLine>) -> bool {
    &&& old.len() <= new.len()
    &&& forall|i: int| 0 <= i < old.len() - 1 ==> #[trigger] new[i] == old[i]
}

/// A folding step only touches the last merged bar and what follows it.
pub proof fn lemma_fold_step_prefix(lst: Seq<KLine>, u: KLineUnit)
    ensures
        prefix_kept(lst, spec_fold_step(lst, u)),
        spec_fold_step(lst, u).len() >= 1,
{
}

/// Append-only law of the merged bars: folding more raw bars keeps every
/// merged bar of the shorter run but its last one, which alone is tentative.
pub proof fn lemma_fold_prefix(units: Seq<KLineUnit>, m: int)
    requires
        0 <= m <= units.len(),
    ensures
        prefix_kept(spec_fold(units.subrange(0, m)), spec_fold(units)),
    decreases units.len() - m,
{
    if m < units.len() {
        lemma_fold_prefix(units, m + 1);
        let a = spec_fold(units.subrange(0, m));
        let b = spec_fold(units.subrange(0, m + 1));
        assert(units.subrange(0, m + 1).drop_last() =~= units.subrange(0, m));
        lemma_fold_step_prefix(a, units[m]);
        assert(b == spec_fold_step(a, units[m]));
        let c = spec_fold(units);
        assert forall|i: int| 0 <= i < a.len() - 1 implies #[trigger] c[i] == a[i] by {
            assert(b[i] == a[i]);
            if a.len() <= b.len() - 1 || i < b.len() - 1 {
                assert(c[i] == b[i]);
            }
        }
    } else {
        assert(units.subrange(0, m) =~= units);
    }
}

/// A bar mirrored vertically: high and low swap and change sign.
pub open spec fn flip_unit(u: KLineUnit) -> KLineUnit {
    KLineUnit { high: (-u.low) as i64, low: (-u.high) as i64, open: (-u.open) as i64, close: (-u.close) as i64, ..u }
}

pub open spec fn flip_dir(d: KlineDir) -> KlineDir {
    match d {
        KlineDir::Up => KlineDir::Down,
        KlineDir::Down => KlineDir::Up,
        other => other,
    }
}

pub open spec fn flip_fx(f: FxType) -> FxType {
    match f {
        FxType::Top => FxType::Bottom,
        FxType::Bottom => FxType::Top,
        FxType::Unknown => FxType::Unknown,
    }
}

/// The mirrored range of a merged bar, with its direction and fractal mirrored.
pub open spec fn flip_kline(k: KLine) -> KLine {
    KLine { high: (-k.low) as i64, low: (-k.high) as i64, dir: flip_dir(k.dir), fx: flip_fx(k.fx), ..k }
}

/// Prices that can be mirrored within the integer range.
pub open spec fn mirrorable(u: KLineUnit) -> bool {
    u.low > i64::MIN && u.high > i64::MIN && u.open > i64::MIN && u.close > i64::MIN
}

/// `a` is `b` mirrored: the first merged bar keeps its seeded upward
/// direction, every later one has direction and fractal mirrored.
pub open spec fn mirrored(a: Seq<KLine>, b: Seq<KLine>) -> bool {
    &&& a.len() == b.len()
    &&& a.len() > 0 ==> a[0] == KLine { dir: b[0].dir, fx: b[0].fx, ..flip_kline(b[0]) } && a[0].fx == FxType::Unknown
        && b[0].fx == FxType::Unknown
    &&& forall|i: int| 1 <= i < a.len() ==> #[trigger] a[i] == flip_kline(b[i])
}

proof fn lemma_step_mirrored(a: Seq<KLine>, b: Seq<KLine>, u: KLineUnit, n_units: nat)
    requires
        mirrored(a, b),
        klines_wf(b, n_units),
        mirrorable(u),
        b.len() >= 2 || (b.len() == 1 && spec_test_combine(b[0].high as int, b[0].low as int, u.high as int, u.low as int, false, None) != KlineDir::Combine)
            || b.len() == 0,
        forall|i: int| 0 <= i < b.len() ==> b[i].high > i64::MIN && b[i].low > i64::MIN,
    ensures
        mirrored(spec_fold_step(a, flip_unit(u)), spec_fold_step(b, u)),
{
    let fu = flip_unit(u);
    let ra = spec_fold_step(a, fu);
    let rb = spec_fold_step(b, u);
    if b.len() == 0 {
        assert(ra[0] == KLine { dir: rb[0].dir, fx: rb[0].fx, ..flip_kline(rb[0]) });
    } else {
        let n = b.len() as int;
        let lb = b[n - 1];
        let la = a[n - 1];
        let db = spec_test_combine(lb.high as int, lb.low as int, u.high as int, u.low as int, false, None);
        let da = spec_test_combine(la.high as int, la.low as int, fu.high as int, fu.low as int, false, None);
        if n >= 2 {
            assert(la == flip_kline(lb));
            assert(da == flip_dir(db));
        } else {
            assert(da == flip_dir(db));
        }
        if db == KlineDir::Combine {
            assert(n >= 2);
            assert(kl_item_ok(b, n - 1));
            assert(spec_absorb(la, fu) == flip_kline(spec_absorb(lb, u)));
            assert forall|i: int| 1 <= i < ra.len() implies #[trigger] ra[i] == flip_kline(rb[i]) by {
                if i < n - 1 {
                    assert(ra[i] == a[i]);
                }
            }
        } else {
            let a2 = a.push(spec_new_kline(n, fu, da));
            let b2 = b.push(spec_new_kline(n, u, db));
            assert(a2[n] == flip_kline(b2[n]));
            if n + 1 >= 3 {
                assert(kl_item_ok(b, n - 1));
                assert(kl_item_ok(b, n - 2));
                assert(a2[n - 1] == flip_kline(b2[n - 1]));
                if n - 2 >= 1 {
                    assert(a2[n - 2] == flip_kline(b2[n - 2]));
                }
                assert(b2[n - 1].fx == FxType::Unknown);
                assert(ra[n - 1] == flip_kline(rb[n - 1]));
                assert forall|i: int| 1 <= i < ra.len() implies #[trigger] ra[i] == flip_kline(rb[i]) by {
                    if i < n - 1 {
                        assert(ra[i] == a[i]);
                        assert(rb[i] == b[i]);
                    }
                }
            } else {
                assert forall|i: int| 1 <= i < ra.len() implies #[trigger] ra[i] == flip_kline(rb[i]) by {}
            }
        }
    }
}

pub open spec fn flip_units(units: Seq<KLineUnit>) -> Seq<KLineUnit> {
    Seq::new(units.len(), |i: int| flip_unit(units[i]))
}

proof fn lemma_fold_bounded(units: Seq<KLineUnit>)
    requires
        forall|i: int| 0 <= i < units.len() ==> #[trigger] mirrorable(units[i]) && units[i].low <= units[i].high,
    ensures
        forall|i: int| 0 <= i < spec_fold(units).len() ==> (#[trigger] spec_fold(units)[i]).high > i64::MIN
            && spec_fold(units)[i].low > i64::MIN,
    decreases units.len(),
{
    if units.len() > 0 {
        let p = units.drop_last();
        assert forall|i: int| 0 <= i < p.len() implies #[trigger] mirrorable(p[i]) && p[i].low <= p[i].high by {
            assert(p[i] == units[i]);
        }
        lemma_fold_bounded(p);
        let u = units.last();
        assert(mirrorable(units[units.len() - 1]));
        let b = spec_fold(p);
        let r = spec_fold(units);
        assert(r == spec_fold_step(b, u));
        assert forall|i: int| 0 <= i < r.len() implies (#[trigger] r[i]).high > i64::MIN && r[i].low > i64::MIN by {
            if i < b.len() {
                assert(b[i].high > i64::MIN && b[i].low > i64::MIN);
            }
        }
    }
}

/// Mirroring every bar vertically mirrors the merged bars: ranges mirror,
/// up and down swap, tops and bottoms swap. The first merged bar is seeded
/// upward either way, so the law asks that the second bar not be nested with
/// the first (else the two runs fold it differently).
pub proof fn lemma_fold_mirrored(units: Seq<KLineUnit>)
    requires
        units_wf(units),
        forall|i: int| 0 <= i < units.len() ==> #[trigger] mirrorable(units[i]),
        units.len() >= 2 ==> spec_test_combine(units[0].high as int, units[0].low as int, units[1].high as int,
            units[1].low as int, false, None) != KlineDir::Combine,
    ensures
        mirrored(spec_fold(flip_units(units)), spec_fold(units)),
    decreases units.len(),
{
    if units.len() > 0 {
        let p = units.drop_last();
        let u = units.last();
        assert(units_wf(p)) by {
            assert forall|i: int| 0 <= i < p.len() implies (#[trigger] p[i]).idx == i && p[i].spec_valid() by {
                assert(p[i] == units[i]);
            }
            assert forall|i: int| 0 < i < p.len() implies #[trigger] p[i].time > p[i - 1].time by {
                assert(p[i] == units[i]);
                assert(p[i - 1] == units[i - 1]);
            }
        }
        assert forall|i: int| 0 <= i < p.len() implies #[trigger] mirrorable(p[i]) by {
            assert(p[i] == units[i]);
        }
        if p.len() >= 2 {
            assert(p[0] == units[0] && p[1] == units[1]);
        }
        lemma_fold_mirrored(p);
        assert(flip_units(units).drop_last() =~= flip_units(p));
        assert(flip_units(units).last() == flip_unit(u));
        lemma_fold_wf_all(p);
        assert forall|i: int| 0 <= i < units.len() implies #[trigger] mirrorable(units[i]) && units[i].low <= units[i].high by {
            assert(units[i].spec_valid());
        }
        assert forall|i: int| 0 <= i < p.len() implies #[trigger] mirrorable(p[i]) && p[i].low <= p[i].high by {
            assert(p[i] == units[i]);
        }
        lemma_fold_bounded(p);
        let b = spec_fold(p);
        assert(mirrorable(units[units.len() - 1]));
        if p.len() == 1 {
            assert(p =~= seq![units[0]]);
            lemma_fold_one(units[0]);
            assert(u == units[1]);
        }
        if p.len() >= 2 {
            lemma_fold_prefix(p, 2);
            let q = p.subrange(0, 2);
            assert(q.drop_last() =~= seq![units[0]]);
            lemma_fold_one(units[0]);
            assert(q[1] == units[1]);
            assert(spec_fold(q) == spec_fold_step(spec_fold(q.drop_last()), q.last()));
            assert(spec_fold(q).len() == 2);
        }
        lemma_step_mirrored(spec_fold(flip_units(p)), b, u, p.len());
    }
}

proof fn lemma_fold_one(u: KLineUnit)
    ensures
        spec_fold(seq![u]) == seq![spec_new_kline(0, u, KlineDir::Up)],
{
    let s = seq![u];
    assert(s.drop_last() =~= Seq::<KLineUnit>::empty());
    assert(spec_fold(s.drop_last()) == Seq::<KLine>::empty());
    assert(spec_fold(s) == spec_fold_step(spec_fold(s.drop_last()), s.last()));
    assert(spec_fold_step(Seq::<KLine>::empty(), u) =~= seq![spec_new_kline(0, u, KlineDir::Up)]);
}

proof fn lemma_fold_wf_all(units: Seq<KLineUnit>)
    requires
        units_wf(units),
    ensures
        klines_wf(spec_fold(units), units.len()),
    decreases units.len(),
{
    if units.len() > 0 {
        let p = units.drop_last();
        assert(units_wf(p)) by {
            assert forall|i: int| 0 <= i < p.len() implies (#[trigger] p[i]).idx == i && p[i].spec_valid() by {
                assert(p[i] == units[i]);
            }
            assert forall|i: int| 0 < i < p.len() implies #[trigger] p[i].time > p[i - 1].time by {
                assert(p[i] == units[i]);
                assert(p[i - 1] == units[i - 1]);
            }
        }
        lemma_fold_wf_all(p);
        assert(p.push(units.last()) =~= units);
        assert(units[units.len() - 1].idx == units.len() - 1);
        assert(spec_fold(p).len() <= usize::MAX) by {
            assert(units.last().idx == p.len());
        }
        lemma_fold_step_wf(spec_fold(p), p, units.last());
    }
}

} // verus!
