use vstd::prelude::*;
use crate::bi::Bi;
use crate::cenum::{BiDir, FxType, KlineDir};
use crate::chan_exception::{ChanError, ErrCode};
use crate::kline::{max2, min2, spec_test_combine};

verus! {

/// What the characteristic sequence reads of a stroke.
#[derive(Debug, Clone, Copy, PartialEq, Eq, Structural)]
pub struct LineItem {
    pub idx: usize,
    pub dir: BiDir,
    pub high: i64,
    pub low: i64,
    pub is_sure: bool,
}

impl LineItem {
    pub open spec fn spec_of(b: Bi) -> LineItem {
        LineItem { idx: b.idx, dir: b.dir, high: b.spec_high() as i64, low: b.spec_low() as i64, is_sure: b.is_sure }
    }

    pub fn of(b: &Bi) -> (r: LineItem)
        ensures
            r == LineItem::spec_of(*b),
    {
        LineItem { idx: b.idx, dir: b.dir, high: b.high(), low: b.low(), is_sure: b.is_sure }
    }
}

/// An element of a characteristic sequence: strokes folded by containment.
#[derive(Debug, Clone)]
pub struct Eigen {
    pub high: i64,
    pub low: i64,
    pub lst: Vec<LineItem>,
    pub dir: KlineDir,
    pub fx: FxType,
    /// The element is a fractal with a price gap to the element before it.
    pub gap: bool,
}

/// The extremes of an element after absorbing `u`, as merged bars do.
pub open spec fn spec_eigen_absorb(dir: KlineDir, high: int, low: int, u: LineItem) -> (int, int) {
    if dir == KlineDir::Up {
        if u.high != u.low || u.high != high {
            (max2(high, u.high as int), max2(low, u.low as int))
        } else {
            (high, low)
        }
    } else {
        if u.high != u.low || u.low != low {
            (min2(high, u.high as int), min2(low, u.low as int))
        } else {
            (high, low)
        }
    }
}

/// Fractal of element (h, l) between (ph, pl) and (nh, nl); `cur` where none forms.
pub open spec fn spec_eigen_fx(
    ph: int,
    pl: int,
    h: int,
    l: int,
    nh: int,
    nl: int,
    cur: FxType,
    exclude_included: bool,
    allow_top_equal: Option<i32>,
) -> FxType {
    if exclude_included {
        if ph < h && nh <= h && nl < l {
            if allow_top_equal == Some(1i32) || nh < h { FxType::Top } else { cur }
        } else if nh > h && pl > l && nl >= l {
            if allow_top_equal == Some(-1i32) || nl > l { FxType::Bottom } else { cur }
        } else {
            cur
        }
    } else if ph < h && nh < h && pl < l && nl < l {
        FxType::Top
    } else if ph > h && nh > h && pl > l && nl > l {
        FxType::Bottom
    } else {
        cur
    }
}

impl Eigen {
    pub fn new(item: LineItem, dir: KlineDir) -> (r: Self)
        ensures
            r.high == item.high,
            r.low == item.low,
            r.lst@ == seq![item],
            r.dir == dir,
            r.fx == FxType::Unknown,
            !r.gap,
    {
        Eigen { high: item.high, low: item.low, lst: vec![item], dir, fx: FxType::Unknown, gap: false }
    }

    /// Classifies a stroke's range against this element.
    pub fn test_combine(&self, item: &LineItem, exclude_included: bool, allow_top_equal: Option<i32>) -> (r: Result<KlineDir, ChanError>)
        ensures
            r == Ok::<KlineDir, ChanError>(spec_test_combine(
                self.high as int,
                self.low as int,
                item.high as int,
                item.low as int,
                exclude_included,
                allow_top_equal,
            )),
    {
        if self.high >= item.high && self.low <= item.low {
            return Ok(KlineDir::Combine);
        }
        if self.high <= item.high && self.low >= item.low {
            if allow_top_equal == Some(1i32) && self.high == item.high && self.low > item.low {
                return Ok(KlineDir::Down);
            }
            if allow_top_equal == Some(-1i32) && self.low == item.low && self.high < item.high {
                return Ok(KlineDir::Up);
            }
            return Ok(if exclude_included { KlineDir::Included } else { KlineDir::Combine });
        }
        if self.high > item.high && self.low > item.low {
            return Ok(KlineDir::Down);
        }
        Ok(KlineDir::Up)
    }

    /// Absorbs `item` when it combines with this element; reports the relation.
    /// Fails with `CombinerErr` when it combines but the element has no up/down direction.
    pub fn try_add(&mut self, item: LineItem, exclude_included: bool, allow_top_equal: Option<i32>) -> (r: Result<KlineDir, ChanError>)
        ensures
            ({
                let d = spec_test_combine(
                    old(self).high as int,
                    old(self).low as int,
                    item.high as int,
                    item.low as int,
                    exclude_included,
                    allow_top_equal,
                );
                let directed = old(self).dir == KlineDir::Up || old(self).dir == KlineDir::Down;
                &&& r.is_err() <==> d == KlineDir::Combine && !directed
                &&& r matches Err(e) ==> e.errcode == ErrCode::CombinerErr
                &&& r matches Ok(x) ==> x == d
                &&& (r is Ok && d == KlineDir::Combine) ==> ({
                    let (h, l) = spec_eigen_absorb(old(self).dir, old(self).high as int, old(self).low as int, item);
                    &&& final(self).high as int == h
                    &&& final(self).low as int == l
                    &&& final(self).lst@ == old(self).lst@.push(item)
                    &&& final(self).dir == old(self).dir
                    &&& final(self).fx == old(self).fx
                })
                &&& !(r is Ok && d == KlineDir::Combine) ==> final(self).high == old(self).high
                    && final(self).low == old(self).low && final(self).lst@ == old(self).lst@
                    && final(self).dir == old(self).dir && final(self).fx == old(self).fx
            }),
    {
        let dir = self.test_combine(&item, exclude_included, allow_top_equal)?;
        if dir == KlineDir::Combine {
            match self.dir {
                KlineDir::Up => {
                    if item.high != item.low || item.high != self.high {
                        self.high = if self.high >= item.high { self.high } else { item.high };
                        self.low = if self.low >= item.low { self.low } else { item.low };
                    }
                },
                KlineDir::Down => {
                    if item.high != item.low || item.low != self.low {
                        self.high = if self.high <= item.high { self.high } else { item.high };
                        self.low = if self.low <= item.low { self.low } else { item.low };
                    }
                },
                _ => {
                    return Err(ChanError::with_msg("element direction must be up or down", ErrCode::CombinerErr));
                },
            }
            self.lst.push(item);
        }
        Ok(dir)
    }

    /// The last stroke of the element that holds its high (`is_high`) or its low.
    pub fn get_peak_klu(&self, is_high: bool) -> (r: Result<LineItem, ChanError>)
        ensures
            r matches Ok(x) ==> self.lst@.contains(x) && (if is_high { x.high == self.high } else { x.low == self.low }),
            r matches Err(e) ==> e.errcode == ErrCode::CombinerErr,
    {
        let mut i = self.lst.len();
        while i > 0
            invariant
                i <= self.lst@.len(),
            decreases i,
        {
            let x = self.lst[i - 1];
            if (is_high && x.high == self.high) || (!is_high && x.low == self.low) {
                assert(self.lst@[i - 1] == x);
                return Ok(x);
            }
            i -= 1;
        }
        Err(ChanError::with_msg("no stroke holds the extreme of the element", ErrCode::CombinerErr))
    }

    /// Sets the fractal this element forms between `pre` and `next`, and whether
    /// it is separated from `pre` by a gap.
    pub fn update_fx(&mut self, pre: &Eigen, next: &Eigen, exclude_included: bool, allow_top_equal: Option<i32>)
        ensures
            final(self).fx == spec_eigen_fx(pre.high as int, pre.low as int, old(self).high as int, old(self).low as int,
                next.high as int, next.low as int, old(self).fx, exclude_included, allow_top_equal),
            final(self).gap == ((final(self).fx == FxType::Top && pre.high < old(self).low)
                || (final(self).fx == FxType::Bottom && pre.low > old(self).high)),
            final(self).high == old(self).high,
            final(self).low == old(self).low,
            final(self).lst@ == old(self).lst@,
            final(self).dir == old(self).dir,
    {
        if exclude_included {
            if pre.high < self.high && next.high <= self.high && next.low < self.low {
                if allow_top_equal == Some(1i32) || next.high < self.high {
                    self.fx = FxType::Top;
                }
            } else if next.high > self.high && pre.low > self.low && next.low >= self.low {
                if allow_top_equal == Some(-1i32) || next.low > self.low {
                    self.fx = FxType::Bottom;
                }
            }
        } else if pre.high < self.high && next.high < self.high && pre.low < self.low && next.low < self.low {
            self.fx = FxType::Top;
        } else if pre.high > self.high && next.high > self.high && pre.low > self.low && next.low > self.low {
            self.fx = FxType::Bottom;
        }
        self.gap = (self.fx == FxType::Top && pre.high < self.low) || (self.fx == FxType::Bottom && pre.low > self.high);
    }

    /// Index of the stroke that ends the segment this fractal element closes:
    /// the stroke before the element's extreme stroke.
    pub fn get_peak_bi_idx(&self) -> (r: Result<usize, ChanError>)
        ensures
            r matches Ok(i) ==> self.fx != FxType::Unknown && self.lst@.len() > 0 && exists|x: LineItem|
                self.lst@.contains(x) && x.idx == i + 1 && (if self.lst@[0].dir == BiDir::Up {
                    x.low == self.low
                } else {
                    x.high == self.high
                }),
            r matches Err(e) ==> e.errcode == ErrCode::CombinerErr || e.errcode == ErrCode::SegEigenErr,
    {
        if self.fx == FxType::Unknown || self.lst.len() == 0 {
            return Err(ChanError::with_msg("element is no fractal", ErrCode::SegEigenErr));
        }
        let is_high = self.lst[0].dir != BiDir::Up;
        let x = self.get_peak_klu(is_high)?;
        if x.idx == 0 {
            return Err(ChanError::with_msg("extreme stroke has no stroke before it", ErrCode::SegEigenErr));
        }
        Ok(x.idx - 1)
    }
}

} // verus!
