use vstd::prelude::*;
use crate::bi::Bi;
use crate::cenum::{BiDir, FxType, KlineDir, SegType};
use crate::chan_exception::{ChanError, ErrCode};
use crate::eigen::{Eigen, LineItem};
use crate::utils::revert_bi_dir;

verus! {

/// Stroke `i + 1` is the stroke of element `e` that holds its extreme (its
/// low for up strokes, its high for down strokes), so stroke `i` ends the segment.
pub open spec fn peak_at(e: Eigen, i: int) -> bool {
    e.fx != FxType::Unknown && e.lst@.len() > 0 && exists|x: LineItem|
        e.lst@.contains(x) && x.idx == i + 1 && (if e.lst@[0].dir == BiDir::Up {
            x.low == e.low
        } else {
            x.high == e.high
        })
}

/// Stroke `j` passes `thred` in its own direction.
pub open spec fn passes(bis: Seq<Bi>, j: int, thred: int) -> bool {
    (bis[j].dir == BiDir::Down && bis[j].spec_low() < thred) || (bis[j].dir == BiDir::Up && bis[j].spec_high() > thred)
}

/// Stroke `j` is one of those the reverse search looks at: every second one from `begin`.
pub open spec fn scanned(begin: int, j: int, n: int) -> bool {
    begin <= j < n && (j - begin) % 2 == 0
}

/// Outcome of feeding one stroke to the state machine.
#[derive(Debug, Clone, Copy, PartialEq, Eq, Structural)]
pub enum EigenStep {
    Pending,
    Found,
    Reset,
}

/// The characteristic-sequence fractal engine for one candidate segment direction.
#[derive(Debug, Clone)]
pub struct EigenFX {
    pub lv: SegType,
    /// Direction of the candidate segment; the strokes fed run the other way.
    pub dir: BiDir,
    pub ele0: Option<Eigen>,
    pub ele1: Option<Eigen>,
    pub ele2: Option<Eigen>,
    pub lst: Vec<LineItem>,
    pub exclude_included: bool,
    pub kl_dir: KlineDir,
    pub last_evidence_bi: Option<LineItem>,
}

impl EigenFX {
    /// All three slots are taken.
    pub open spec fn spec_full(&self) -> bool {
        self.ele0 is Some && self.ele1 is Some && self.ele2 is Some
    }

    /// The engine has found the fractal its direction asks for.
    pub open spec fn spec_found(&self) -> bool {
        &&& self.ele0 is Some
        &&& self.ele1 is Some
        &&& self.ele2 is Some
        &&& self.ele1.unwrap().fx == (if self.dir == BiDir::Up { FxType::Top } else { FxType::Bottom })
    }

    pub fn new(dir: BiDir, exclude_included: bool, lv: SegType) -> (r: Self)
        ensures
            r.dir == dir,
            r.exclude_included == exclude_included,
            r.ele0.is_none() && r.ele1.is_none() && r.ele2.is_none(),
            r.lst@.len() == 0,
            r.kl_dir == (if dir == BiDir::Up { KlineDir::Up } else { KlineDir::Down }),
    {
        let kl_dir = if dir == BiDir::Up { KlineDir::Up } else { KlineDir::Down };
        EigenFX { lv, dir, ele0: None, ele1: None, ele2: None, lst: Vec::new(), exclude_included, kl_dir, last_evidence_bi: None }
    }

    pub fn is_up(&self) -> (r: bool)
        ensures
            r == (self.dir == BiDir::Up),
    {
        self.dir == BiDir::Up
    }

    pub fn is_down(&self) -> (r: bool)
        ensures
            r == (self.dir == BiDir::Down),
    {
        self.dir == BiDir::Down
    }

    /// Empties the three slots and the stroke history.
    pub fn clear(&mut self)
        ensures
            final(self).ele0.is_none() && final(self).ele1.is_none() && final(self).ele2.is_none(),
            final(self).lst@.len() == 0,
            final(self).dir == old(self).dir,
            final(self).exclude_included == old(self).exclude_included,
            final(self).kl_dir == old(self).kl_dir,
    {
        self.ele0 = None;
        self.ele1 = None;
        self.ele2 = None;
        self.lst = Vec::new();
    }

    pub fn treat_first_ele(&mut self, bi: LineItem) -> (r: EigenStep)
        ensures
            r == EigenStep::Pending,
            final(self).ele0 is Some,
            final(self).dir == old(self).dir,
            final(self).ele1 == old(self).ele1,
            final(self).ele2 == old(self).ele2,
            final(self).lst@ == old(self).lst@,
            final(self).exclude_included == old(self).exclude_included,
            final(self).kl_dir == old(self).kl_dir,
    {
        self.ele0 = Some(Eigen::new(bi, self.kl_dir));
        EigenStep::Pending
    }

    /// Folds `bi` into the first slot, or opens the second; asks for a reset when
    /// the first two elements cannot start a fractal of the wanted kind.
    pub fn treat_second_ele(&mut self, bi: LineItem) -> (r: Result<EigenStep, ChanError>)
        requires
            old(self).ele0 is Some,
            old(self).ele1 is None,
        ensures
            r matches Ok(s) ==> s != EigenStep::Found,
            r matches Ok(s) ==> final(self).ele0 is Some && (s == EigenStep::Reset ==> final(self).ele1 is Some),
            final(self).dir == old(self).dir,
            final(self).ele2 == old(self).ele2,
            final(self).lst@ == old(self).lst@,
            final(self).exclude_included == old(self).exclude_included,
            final(self).kl_dir == old(self).kl_dir,
    {
        let mut e0 = self.ele0.take().unwrap();
        let res = e0.try_add(bi, self.exclude_included, None);
        let combine_dir = match res {
            Ok(d) => d,
            Err(e) => {
                self.ele0 = Some(e0);
                return Err(e);
            },
        };
        let mut step = EigenStep::Pending;
        if combine_dir != KlineDir::Combine {
            let e1 = Eigen::new(bi, self.kl_dir);
            if (self.is_up() && e1.high < e0.high) || (self.is_down() && e1.low > e0.low) {
                step = EigenStep::Reset;
            }
            self.ele1 = Some(e1);
        }
        self.ele0 = Some(e0);
        Ok(step)
    }

    /// Folds `bi` into the second slot, or opens the third and tests for the
    /// fractal; asks for a reset when the break is not real or no fractal forms.
    pub fn treat_third_ele(&mut self, bi: LineItem, bis: &Vec<Bi>) -> (r: Result<EigenStep, ChanError>)
        requires
            old(self).ele0 is Some,
            old(self).ele1 is Some,
            old(self).ele2 is None,
        ensures
            r == Ok::<EigenStep, ChanError>(EigenStep::Found) ==> final(self).spec_found(),
            r matches Ok(s) ==> final(self).ele0 is Some && final(self).ele1 is Some,
            final(self).dir == old(self).dir,
            final(self).lst@ == old(self).lst@,
            final(self).exclude_included == old(self).exclude_included,
            final(self).kl_dir == old(self).kl_dir,
    {
        self.last_evidence_bi = Some(bi);
        let allow_top_equal = if self.exclude_included {
            Some(if bi.dir == BiDir::Down { 1i32 } else { -1i32 })
        } else {
            None
        };
        let mut e1 = self.ele1.take().unwrap();
        let combine_dir = match e1.try_add(bi, false, allow_top_equal) {
            Ok(d) => d,
            Err(e) => {
                self.ele1 = Some(e1);
                return Err(e);
            },
        };
        if combine_dir == KlineDir::Combine {
            self.ele1 = Some(e1);
            return Ok(EigenStep::Pending);
        }
        let e2 = Eigen::new(bi, combine_dir);
        let broken = self.actual_break(&e1, &e2, bis);
        if !broken {
            self.ele1 = Some(e1);
            self.ele2 = Some(e2);
            return Ok(EigenStep::Reset);
        }
        let e0 = self.ele0.take().unwrap();
        e1.update_fx(&e0, &e2, self.exclude_included, allow_top_equal);
        let fx = e1.fx;
        let is_fx = (self.is_up() && fx == FxType::Top) || (self.is_down() && fx == FxType::Bottom);
        self.ele0 = Some(e0);
        self.ele1 = Some(e1);
        self.ele2 = Some(e2);
        if is_fx { Ok(EigenStep::Found) } else { Ok(EigenStep::Reset) }
    }

    /// Whether the third element really breaks the second in the candidate's
    /// direction, looking two strokes ahead when the element alone does not show it.
    pub fn actual_break(&mut self, e1: &Eigen, e2: &Eigen, bis: &Vec<Bi>) -> (r: bool)
        ensures
            !old(self).exclude_included ==> r,
            final(self).dir == old(self).dir,
            final(self).ele0 == old(self).ele0,
            final(self).ele1 == old(self).ele1,
            final(self).ele2 == old(self).ele2,
            final(self).lst@ == old(self).lst@,
            final(self).exclude_included == old(self).exclude_included,
            final(self).kl_dir == old(self).kl_dir,
    {
        if !self.exclude_included {
            return true;
        }
        if e1.lst.len() > 0 {
            let last1 = e1.lst[e1.lst.len() - 1];
            if (self.is_up() && e2.low < last1.low) || (self.is_down() && e2.high > last1.high) {
                return true;
            }
        }
        if e2.lst.len() != 1 {
            return false;
        }
        let b2 = e2.lst[0];
        if b2.idx < bis.len() && bis.len() - b2.idx > 2 {
            let nn = LineItem::of(&bis[b2.idx + 2]);
            if b2.dir == BiDir::Down && nn.low < b2.low {
                self.last_evidence_bi = Some(nn);
                return true;
            } else if b2.dir == BiDir::Up && nn.high > b2.high {
                self.last_evidence_bi = Some(nn);
                return true;
            }
        }
        false
    }

    /// Feeds one stroke to the slot it belongs to.
    fn step(&mut self, bi: LineItem, bis: &Vec<Bi>) -> (r: Result<EigenStep, ChanError>)
        ensures
            r == Ok::<EigenStep, ChanError>(EigenStep::Found) ==> final(self).spec_found(),
            r == Ok::<EigenStep, ChanError>(EigenStep::Reset) ==> final(self).ele0 is Some && final(self).ele1 is Some,
            old(self).spec_full() ==> (r matches Err(e) && e.errcode == ErrCode::SegEigenErr),
            final(self).dir == old(self).dir,
            final(self).lst@ == old(self).lst@,
            final(self).exclude_included == old(self).exclude_included,
            final(self).kl_dir == old(self).kl_dir,
    {
        if self.ele0.is_none() {
            Ok(self.treat_first_ele(bi))
        } else if self.ele1.is_none() {
            self.treat_second_ele(bi)
        } else if self.ele2.is_none() {
            self.treat_third_ele(bi, bis)
        } else {
            Err(ChanError::with_msg("all three elements are set and not yet handled", ErrCode::SegEigenErr))
        }
    }

    /// Restarts the search after a dead end. With `exclude_included` the strokes
    /// after the first are fed again (they are returned, to be fed in order);
    /// otherwise the slots shift down by one and only the strokes of the new
    /// first element onward are kept.
    fn reset_slots(&mut self) -> (r: Vec<LineItem>)
        requires
            old(self).lst@.len() >= 1,
            old(self).ele1 is Some,
        ensures
            final(self).dir == old(self).dir,
            final(self).exclude_included == old(self).exclude_included,
            final(self).kl_dir == old(self).kl_dir,
            old(self).exclude_included ==> r@ == old(self).lst@.subrange(1, old(self).lst@.len() as int)
                && final(self).lst@.len() == 0 && final(self).ele0 is None && final(self).ele1 is None
                && final(self).ele2 is None,
            !old(self).exclude_included ==> r@.len() == 0 && final(self).ele2 is None
                && final(self).lst@.len() < old(self).lst@.len(),
    {
        let mut rest: Vec<LineItem> = Vec::new();
        let n = self.lst.len();
        let mut i: usize = 1;
        if self.exclude_included {
            while i < n
                invariant
                    1 <= i <= n,
                    n == self.lst@.len(),
                    rest@ == self.lst@.subrange(1, i as int),
                decreases n - i,
            {
                rest.push(self.lst[i]);
                i += 1;
            }
            self.clear();
            rest
        } else {
            let e1 = self.ele1.take().unwrap();
            let begin_idx = if e1.lst.len() > 0 { e1.lst[0].idx } else { 0 };
            let mut kept: Vec<LineItem> = Vec::new();
            while i < n
                invariant
                    1 <= i <= n,
                    n == self.lst@.len(),
                    kept@.len() < i,
                decreases n - i,
            {
                if self.lst[i].idx >= begin_idx {
                    kept.push(self.lst[i]);
                }
                i += 1;
            }
            self.ele0 = Some(e1);
            self.ele1 = self.ele2.take();
            self.ele2 = None;
            self.lst = kept;
            rest
        }
    }

    /// Feeds a stroke running against the candidate direction; true when the
    /// fractal that ends the candidate segment appears.
    pub fn add(&mut self, bi: LineItem, bis: &Vec<Bi>) -> (r: Result<bool, ChanError>)
        ensures
            r == Ok::<bool, ChanError>(true) ==> final(self).spec_found(),
            old(self).spec_full() ==> (r matches Err(e) && e.errcode == ErrCode::SegEigenErr),
            final(self).dir == old(self).dir,
            final(self).exclude_included == old(self).exclude_included,
            final(self).kl_dir == old(self).kl_dir,
    {
        let mut pending: Vec<LineItem> = vec![bi];
        let mut pos: usize = 0;
        let ghost mut started = false;
        while pos < pending.len()
            invariant
                pos <= pending@.len(),
                !started ==> pos == 0 && pending@.len() >= 1,
                old(self).spec_full() ==> !started,
                !started ==> self.ele0 == old(self).ele0 && self.ele1 == old(self).ele1 && self.ele2 == old(self).ele2,
                self.dir == old(self).dir,
                self.exclude_included == old(self).exclude_included,
                self.kl_dir == old(self).kl_dir,
            decreases self.lst@.len() + pending@.len() - pos, pending@.len() - pos,
        {
            let item = pending[pos];
            pos += 1;
            self.lst.push(item);
            let s = self.step(item, bis)?;
            proof {
                started = true;
            }
            if s == EigenStep::Found {
                return Ok(true);
            }
            if s == EigenStep::Reset {
                let ghost before_len = self.lst@.len();
                let rest = self.reset_slots();
                if self.exclude_included {
                    let mut next: Vec<LineItem> = rest;
                    let ghost total = next@.len() + pending@.len() - pos;
                    assert(total == before_len - 1 + pending@.len() - pos);
                    while pos < pending.len()
                        invariant
                            pos <= pending@.len(),
                            next@.len() + pending@.len() - pos == total,
                        decreases pending@.len() - pos,
                    {
                        next.push(pending[pos]);
                        pos += 1;
                    }
                    pending = next;
                    pos = 0;
                }
            }
        }
        Ok(false)
    }

    /// Index of the stroke that ends the candidate segment.
    pub fn get_peak_bi_idx(&self) -> (r: Result<usize, ChanError>)
        ensures
            r matches Err(e) ==> e.errcode == ErrCode::CombinerErr || e.errcode == ErrCode::SegEigenErr,
            r matches Ok(i) ==> self.ele1 is Some && peak_at(self.ele1.unwrap(), i as int),
    {
        match &self.ele1 {
            Some(e1) => e1.get_peak_bi_idx(),
            None => Err(ChanError::with_msg("second element missing", ErrCode::SegEigenErr)),
        }
    }

    /// Whether every stroke seen, and the last piece of evidence, is confirmed.
    pub fn all_bi_is_sure(&self) -> (r: bool)
        ensures
            r == (self.last_evidence_bi matches Some(b) && b.is_sure && forall|i: int|
                0 <= i < self.lst@.len() ==> (#[trigger] self.lst@[i]).is_sure),
    {
        let ev = match self.last_evidence_bi {
            Some(b) => b,
            None => {
                return false;
            },
        };
        let mut i: usize = 0;
        while i < self.lst.len()
            invariant
                i <= self.lst@.len(),
                forall|j: int| 0 <= j < i ==> (#[trigger] self.lst@[j]).is_sure,
            decreases self.lst@.len() - i,
        {
            if !self.lst[i].is_sure {
                return false;
            }
            i += 1;
        }
        ev.is_sure
    }
}

impl EigenFX {
    /// Looks from stroke `begin_idx` on, every second stroke, for a fractal of
    /// the opposite segment direction: `Some(true)` when one forms or the
    /// second element passes `break_thred`, `Some(false)` when a stroke passes
    /// `thred_value`, `None` when the strokes run out first.
    pub fn find_revert_fx(&mut self, bis: &Vec<Bi>, begin_idx: usize, thred_value: i64, break_thred: i64) -> (r: Result<Option<bool>, ChanError>)
        ensures
            *final(self) == *old(self),
            begin_idx >= bis@.len() ==> r == Ok::<Option<bool>, ChanError>(None),
            r == Ok::<Option<bool>, ChanError>(None) ==> forall|j: int| #[trigger] scanned(begin_idx as int, j, bis@.len() as int)
                ==> !passes(bis@, j, thred_value as int),
            r == Ok::<Option<bool>, ChanError>(Some(false)) ==> exists|j: int| #[trigger] scanned(begin_idx as int, j, bis@.len() as int)
                && passes(bis@, j, thred_value as int) && forall|k: int| #[trigger] scanned(begin_idx as int, k, j)
                ==> !passes(bis@, k, thred_value as int),
            r == Ok::<Option<bool>, ChanError>(Some(true)) ==> exists|j: int| #[trigger] scanned(begin_idx as int, j, bis@.len() as int)
                && forall|k: int| #[trigger] scanned(begin_idx as int, k, j) ==> !passes(bis@, k, thred_value as int),
    {
        if begin_idx >= bis.len() {
            return Ok(None);
        }
        let first_dir = bis[begin_idx].dir;
        let mut fx = EigenFX::new(revert_bi_dir(first_dir), false, self.lv);
        let mut i = begin_idx;
        while i < bis.len()
            invariant
                begin_idx < bis@.len(),
                begin_idx <= i,
                i < bis@.len(),
                (i - begin_idx) % 2 == 0,
                forall|k: int| #[trigger] scanned(begin_idx as int, k, i as int) ==> !passes(bis@, k, thred_value as int),
            ensures
                forall|k: int| #[trigger] scanned(begin_idx as int, k, bis@.len() as int) ==> !passes(bis@, k, thred_value as int),
            decreases bis@.len() - i,
        {
            let bi = LineItem::of(&bis[i]);
            proof {
                assert(scanned(begin_idx as int, i as int, bis@.len() as int));
            }
            if fx.add(bi, bis)? {
                return Ok(Some(true));
            }
            if (bi.dir == BiDir::Down && bi.low < thred_value) || (bi.dir == BiDir::Up && bi.high > thred_value) {
                assert(passes(bis@, i as int, thred_value as int));
                return Ok(Some(false));
            }
            match &fx.ele1 {
                Some(e1) => {
                    if (bi.dir == BiDir::Down && e1.high > break_thred) || (bi.dir == BiDir::Up && e1.low < break_thred) {
                        return Ok(Some(true));
                    }
                },
                None => {},
            }
            proof {
                assert(!passes(bis@, i as int, thred_value as int));
                assert forall|k: int| #[trigger] scanned(begin_idx as int, k, i + 1) implies !passes(bis@, k, thred_value as int) by {
                    if k < i {
                        assert(scanned(begin_idx as int, k, i as int));
                    }
                }
            }
            if bis.len() - i <= 2 {
                proof {
                    assert forall|k: int| #[trigger] scanned(begin_idx as int, k, bis@.len() as int) implies !passes(bis@, k, thred_value as int) by {
                        assert(scanned(begin_idx as int, k, i + 1));
                    }
                }
                break;
            }
            let ghost oi = i as int;
            i += 2;
            proof {
                assert forall|k: int| #[trigger] scanned(begin_idx as int, k, i as int) implies !passes(bis@, k, thred_value as int) by {
                    if k == oi + 1 {
                        assert(false) by (nonlinear_arith)
                            requires
                                (oi - begin_idx) % 2 == 0,
                                (k - begin_idx) % 2 == 0,
                                k == oi + 1,
                        ;
                    }
                    assert(scanned(begin_idx as int, k, oi + 1));
                }
                assert((i - begin_idx) % 2 == 0) by (nonlinear_arith)
                    requires
                        (oi - begin_idx) % 2 == 0,
                        i == oi + 2,
                ;
            }
        }
        Ok(None)
    }

    /// Whether the found fractal may end the candidate segment. Without a gap
    /// it may; with one, a reverse fractal past the end stroke must confirm it.
    pub fn can_be_end(&mut self, bis: &Vec<Bi>) -> (r: Result<Option<bool>, ChanError>)
        ensures
            *final(self) == *old(self),
            old(self).ele1.is_none() ==> (r matches Err(e) && e.errcode == ErrCode::SegEigenErr),
            old(self).ele1 matches Some(e1) && !e1.gap ==> r == Ok::<Option<bool>, ChanError>(Some(true)),
            (old(self).ele1 matches Some(e1) && e1.gap && r is Ok) ==> exists|p: int| #![trigger peak_at(old(self).ele1.unwrap(), p)]
                peak_at(old(self).ele1.unwrap(), p) && 0 <= p < bis@.len() && ({
                let v = r.unwrap();
                let t = bis@[p].spec_end_val();
                &&& p + 2 >= bis@.len() ==> v.is_none()
                &&& v.is_none() ==> forall|j: int| #[trigger] scanned(p + 2, j, bis@.len() as int) ==> !passes(bis@, j, t)
                &&& v == Some(false) ==> exists|j: int| #[trigger] scanned(p + 2, j, bis@.len() as int) && passes(bis@, j, t)
            }),
    {
        let (gap, e0_low, e0_high) = match (&self.ele1, &self.ele0) {
            (Some(e1), Some(e0)) => (e1.gap, e0.low, e0.high),
            (Some(e1), None) => (e1.gap, 0i64, 0i64),
            _ => {
                return Err(ChanError::with_msg("second element missing", ErrCode::SegEigenErr));
            },
        };
        if !gap {
            return Ok(Some(true));
        }
        if self.ele0.is_none() {
            return Err(ChanError::with_msg("first element missing", ErrCode::SegEigenErr));
        }
        let end_bi_idx = self.get_peak_bi_idx()?;
        if end_bi_idx >= bis.len() || bis.len() - end_bi_idx < 1 {
            return Err(ChanError::with_msg("segment end stroke out of range", ErrCode::SegEigenErr));
        }
        let thred_value = bis[end_bi_idx].get_end_val();
        let break_thred = if self.is_up() { e0_low } else { e0_high };
        if end_bi_idx > usize::MAX - 2 {
            return Ok(None);
        }
        self.find_revert_fx(bis, end_bi_idx + 2, thred_value, break_thred)
    }
}

} // verus!
