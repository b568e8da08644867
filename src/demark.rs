use vstd::prelude::*;

verus! {

/// DeMark setup and countdown state after a bar.
#[derive(Debug, Clone, Copy, PartialEq, Eq, Structural)]
pub struct DemarkIndex {
    /// -1 down, 0 none, 1 up.
    pub setup_trend: i32,
    pub setup_idx: i32,
    pub countdown_trend: i32,
    pub countdown_idx: i32,
}

impl DemarkIndex {
    pub fn new() -> (r: Self)
        ensures
            r.setup_trend == 0 && r.setup_idx == 0 && r.countdown_trend == 0 && r.countdown_idx == 0,
    {
        DemarkIndex { setup_trend: 0, setup_idx: 0, countdown_trend: 0, countdown_idx: 0 }
    }
}

/// Counts consecutive closes in one direction (setup, up to 9) and then
/// closes against that direction (countdown, up to 13).
#[derive(Debug)]
pub struct DemarkEngine {
    pub last_close: Option<i64>,
    pub setup_count: i32,
    pub setup_trend: i32,
    pub countdown_ref_idx: i32,
    pub countdown_count: i32,
    pub countdown_trend: i32,
}

impl DemarkEngine {
    /// Counters stay within their cycles.
    pub open spec fn wf(&self) -> bool {
        &&& 0 <= self.setup_count < 9
        &&& 0 <= self.countdown_count < 13
        &&& -1 <= self.setup_trend <= 1
        &&& -1 <= self.countdown_trend <= 1
    }

    pub fn new() -> (r: Self)
        ensures
            r.wf(),
            r.last_close.is_none(),
    {
        DemarkEngine { last_close: None, setup_count: 0, setup_trend: 0, countdown_ref_idx: 0, countdown_count: 0, countdown_trend: 0 }
    }

    /// Feeds one close. A lower close than the last starts or extends a down
    /// setup, a higher one an up setup; a ninth setup bar arms a countdown in
    /// its direction, which counts closes against it and ends at thirteen.
    pub fn update(&mut self, close: i64) -> (r: DemarkIndex)
        requires
            old(self).wf(),
        ensures
            final(self).wf(),
            final(self).last_close == Some(close),
            r.setup_trend == final(self).setup_trend,
            r.setup_idx == final(self).setup_count,
            r.countdown_trend == final(self).countdown_trend,
            r.countdown_idx == final(self).countdown_count,
            old(self).last_close.is_none() ==> final(self).setup_count == old(self).setup_count
                && final(self).setup_trend == old(self).setup_trend,
            (old(self).last_close matches Some(l) && close < l && old(self).setup_trend < 0 && old(self).setup_count < 8)
                ==> final(self).setup_count == old(self).setup_count + 1 && final(self).setup_trend == -1,
            (old(self).last_close matches Some(l) && close < l && old(self).setup_trend >= 0)
                ==> final(self).setup_count == 1 && final(self).setup_trend == -1,
            (old(self).last_close matches Some(l) && close > l && old(self).setup_trend > 0 && old(self).setup_count < 8)
                ==> final(self).setup_count == old(self).setup_count + 1 && final(self).setup_trend == 1,
            (old(self).last_close matches Some(l) && close > l && old(self).setup_trend <= 0)
                ==> final(self).setup_count == 1 && final(self).setup_trend == 1,
    {
        match self.last_close {
            Some(last_close) => {
                if close < last_close {
                    if self.setup_trend >= 0 {
                        self.setup_count = 1;
                        self.setup_trend = -1;
                    } else {
                        self.setup_count += 1;
                    }
                } else if close > last_close {
                    if self.setup_trend <= 0 {
                        self.setup_count = 1;
                        self.setup_trend = 1;
                    } else {
                        self.setup_count += 1;
                    }
                }
                if self.setup_count >= 9 {
                    self.setup_count = 0;
                    self.countdown_ref_idx = self.setup_trend;
                    self.countdown_trend = self.setup_trend;
                    self.countdown_count = 0;
                }
                if self.countdown_ref_idx != 0 {
                    if (self.countdown_trend > 0 && close <= last_close) || (self.countdown_trend < 0 && close
                        >= last_close) {
                        self.countdown_count += 1;
                    }
                    if self.countdown_count >= 13 {
                        self.countdown_count = 0;
                        self.countdown_ref_idx = 0;
                        self.countdown_trend = 0;
                    }
                }
            },
            None => {},
        }
        self.last_close = Some(close);
        DemarkIndex {
            setup_trend: self.setup_trend,
            setup_idx: self.setup_count,
            countdown_trend: self.countdown_trend,
            countdown_idx: self.countdown_count,
        }
    }
}

} // verus!
