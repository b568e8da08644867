use vstd::prelude::*;
use crate::cenum::{BiDir, BiType, FxCheckMethod, FxType, KlineDir};
use crate::chan_exception::{ChanError, ErrCode};
use crate::kline::{KLine, min2, max2};
use crate::utils::str_equal;

verus! {

/// Stroke settings.
#[derive(Debug)]
pub struct BiConfig {
    /// "normal" enforces the span rule; "fx" only asks for valid fractals.
    pub bi_algo: String,
    /// Span of at least 4 merged bars, instead of 3 with at least 3 raw bars.
    pub is_strict: bool,
    pub bi_fx_check: FxCheckMethod,
    /// A gap between merged bars counts toward the span.
    pub gap_as_kl: bool,
    /// No merged bar between the ends may pass the new end.
    pub bi_end_is_peak: bool,
    pub bi_allow_sub_peak: bool,
}

pub open spec fn spec_fx_check_of(s: Seq<char>) -> Option<FxCheckMethod> {
    if s == "strict"@ {
        Some(FxCheckMethod::Strict)
    } else if s == "loss"@ {
        Some(FxCheckMethod::Loss)
    } else if s == "half"@ {
        Some(FxCheckMethod::Half)
    } else if s == "totally"@ {
        Some(FxCheckMethod::Totally)
    } else {
        None
    }
}

impl BiConfig {
    pub open spec fn spec_is_fx_algo(&self) -> bool {
        self.bi_algo@ == "fx"@
    }

    /// Settings from optional values; missing ones take the defaults "normal",
    /// strict, "half", gaps counted, end is peak, sub-peaks allowed. An unknown
    /// fractal check fails with `ParaError`.
    pub fn new(
        bi_algo: Option<String>,
        is_strict: Option<bool>,
        bi_fx_check: Option<&str>,
        gap_as_kl: Option<bool>,
        bi_end_is_peak: Option<bool>,
        bi_allow_sub_peak: Option<bool>,
    ) -> (r: Result<Self, ChanError>)
        ensures
            ({
                let check = match bi_fx_check {
                    Some(s) => spec_fx_check_of(s@),
                    None => Some(FxCheckMethod::Half),
                };
                &&& r.is_err() <==> check.is_none()
                &&& r matches Err(e) ==> e.errcode == ErrCode::ParaError
                &&& r matches Ok(c) ==> {
                    &&& Some(c.bi_fx_check) == check
                    &&& c.bi_algo@ == (match bi_algo {
                        Some(a) => a@,
                        None => "normal"@,
                    })
                    &&& c.is_strict == (match is_strict {
                        Some(b) => b,
                        None => true,
                    })
                    &&& c.gap_as_kl == (match gap_as_kl {
                        Some(b) => b,
                        None => true,
                    })
                    &&& c.bi_end_is_peak == (match bi_end_is_peak {
                        Some(b) => b,
                        None => true,
                    })
                    &&& c.bi_allow_sub_peak == (match bi_allow_sub_peak {
                        Some(b) => b,
                        None => true,
                    })
                }
            }),
    {
        let check = match bi_fx_check {
            None => FxCheckMethod::Half,
            Some(s) => {
                if str_equal(s, "strict") {
                    FxCheckMethod::Strict
                } else if str_equal(s, "loss") {
                    FxCheckMethod::Loss
                } else if str_equal(s, "half") {
                    FxCheckMethod::Half
                } else if str_equal(s, "totally") {
                    FxCheckMethod::Totally
                } else {
                    return Err(ChanError::with_msg("unknown stroke fractal check", ErrCode::ParaError));
                }
            },
        };
        let algo = match bi_algo {
            Some(a) => a,
            None => String::from_str("normal"),
        };
        Ok(BiConfig {
            bi_algo: algo,
            is_strict: match is_strict {
                Some(b) => b,
                None => true,
            },
            bi_fx_check: check,
            gap_as_kl: match gap_as_kl {
                Some(b) => b,
                None => true,
            },
            bi_end_is_peak: match bi_end_is_peak {
                Some(b) => b,
                None => true,
            },
            bi_allow_sub_peak: match bi_allow_sub_peak {
                Some(b) => b,
                None => true,
            },
        })
    }

    /// The default settings.
    pub fn default() -> (r: Self)
        ensures
            r.bi_algo@ == "normal"@,
            r.is_strict,
            r.bi_fx_check == FxCheckMethod::Half,
            r.gap_as_kl,
            r.bi_end_is_peak,
            r.bi_allow_sub_peak,
    {
        BiConfig {
            bi_algo: String::from_str("normal"),
            is_strict: true,
            bi_fx_check: FxCheckMethod::Half,
            gap_as_kl: true,
            bi_end_is_peak: true,
            bi_allow_sub_peak: true,
        }
    }

    /// A copy of the settings.
    pub fn copy(&self) -> (r: Self)
        ensures
            r.bi_algo@ == self.bi_algo@,
            r.is_strict == self.is_strict,
            r.bi_fx_check == self.bi_fx_check,
            r.gap_as_kl == self.gap_as_kl,
            r.bi_end_is_peak == self.bi_end_is_peak,
            r.bi_allow_sub_peak == self.bi_allow_sub_peak,
    {
        BiConfig {
            bi_algo: String::from_str(self.bi_algo.as_str()),
            is_strict: self.is_strict,
            bi_fx_check: self.bi_fx_check,
            gap_as_kl: self.gap_as_kl,
            bi_end_is_peak: self.bi_end_is_peak,
            bi_allow_sub_peak: self.bi_allow_sub_peak,
        }
    }

    pub fn is_fx_algo(&self) -> (r: bool)
        ensures
            r == self.spec_is_fx_algo(),
    {
        str_equal(self.bi_algo.as_str(), "fx")
    }
}

/// Direction of a stroke that starts on a fractal of kind `fx`.
pub open spec fn spec_bi_dir(fx: FxType) -> BiDir {
    if fx == FxType::Bottom { BiDir::Up } else { BiDir::Down }
}

pub open spec fn opposite_fx(fx: FxType) -> FxType {
    match fx {
        FxType::Top => FxType::Bottom,
        FxType::Bottom => FxType::Top,
        FxType::Unknown => FxType::Unknown,
    }
}

pub open spec fn is_fractal(fx: FxType) -> bool {
    fx == FxType::Top || fx == FxType::Bottom
}

/// Price where a stroke of direction `dir` starting at `b` begins.
pub open spec fn spec_begin_val(b: KLine, dir: BiDir) -> int {
    if dir == BiDir::Up { b.low as int } else { b.high as int }
}

/// Price where a stroke of direction `dir` ending at `e` ends.
pub open spec fn spec_end_val(e: KLine, dir: BiDir) -> int {
    if dir == BiDir::Up { e.high as int } else { e.low as int }
}

/// The stroke's end lies beyond its start in its direction.
pub open spec fn bi_check_ok(b: KLine, e: KLine, dir: BiDir) -> bool {
    if dir == BiDir::Down { b.high > e.low } else { b.low < e.high }
}

/// Number of price gaps between consecutive merged bars from `b` to `e`.
pub open spec fn gap_count(klcs: Seq<KLine>, b: int, e: int) -> int
    decreases e - b,
{
    if b >= e {
        0
    } else {
        gap_count(klcs, b, e - 1) + (if klcs[e - 1].spec_has_gap_with_next(klcs[e]) { 1int } else { 0 })
    }
}

/// Span in merged bars from `b` to `e`, with each gap counted as one more bar
/// when gaps count and the plain span is under 4.
pub open spec fn klc_span(cfg: &BiConfig, klcs: Seq<KLine>, b: int, e: int) -> int {
    if !cfg.gap_as_kl || e - b >= 4 {
        e - b
    } else {
        e - b + gap_count(klcs, b, e)
    }
}

/// Raw bars strictly between merged bars `b` and `e`.
pub open spec fn units_between(klcs: Seq<KLine>, b: int, e: int) -> int {
    klcs[e].begin_klu - klcs[b].end_klu - 1
}

/// The span rule: 4 merged bars in strict mode, else 3 with 3 raw bars between.
pub open spec fn satisfy_span(cfg: &BiConfig, klcs: Seq<KLine>, b: int, e: int) -> bool {
    if cfg.is_strict {
        klc_span(cfg, klcs, b, e) >= 4
    } else {
        klc_span(cfg, klcs, b, e) >= 3 && units_between(klcs, b, e) >= 3
    }
}

pub open spec fn span_ok(cfg: &BiConfig, klcs: Seq<KLine>, b: int, e: int) -> bool {
    cfg.spec_is_fx_algo() || satisfy_span(cfg, klcs, b, e)
}

/// Whether the fractal at `i2` is valid as the end of a stroke from the fractal at `i1`.
pub open spec fn spec_check_fx_valid(
    klcs: Seq<KLine>,
    i1: int,
    i2: int,
    method: FxCheckMethod,
    for_virtual: bool,
) -> bool {
    let s = klcs[i1];
    let t = klcs[i2];
    if s.fx == FxType::Top {
        if for_virtual && t.dir != KlineDir::Down {
            false
        } else {
            let (t_high, s_low) = match method {
                FxCheckMethod::Half => (
                    max2(klcs[i2 - 1].high as int, t.high as int),
                    min2(s.low as int, klcs[i1 + 1].low as int),
                ),
                FxCheckMethod::Loss => (t.high as int, s.low as int),
                _ => (
                    if for_virtual {
                        max2(klcs[i2 - 1].high as int, t.high as int)
                    } else {
                        max2(max2(klcs[i2 - 1].high as int, t.high as int), klcs[i2 + 1].high as int)
                    },
                    min2(min2(klcs[i1 - 1].low as int, s.low as int), klcs[i1 + 1].low as int),
                ),
            };
            if method == FxCheckMethod::Totally {
                s.low > t_high
            } else {
                s.high > t_high && t.low < s_low
            }
        }
    } else if s.fx == FxType::Bottom {
        if for_virtual && t.dir != KlineDir::Up {
            false
        } else {
            let (t_low, s_high) = match method {
                FxCheckMethod::Half => (
                    min2(klcs[i2 - 1].low as int, t.low as int),
                    max2(s.high as int, klcs[i1 + 1].high as int),
                ),
                FxCheckMethod::Loss => (t.low as int, s.high as int),
                _ => (
                    if for_virtual {
                        min2(klcs[i2 - 1].low as int, t.low as int)
                    } else {
                        min2(min2(klcs[i2 - 1].low as int, t.low as int), klcs[i2 + 1].low as int)
                    },
                    max2(max2(klcs[i1 - 1].high as int, s.high as int), klcs[i1 + 1].high as int),
                ),
            };
            if method == FxCheckMethod::Totally {
                s.high < t_low
            } else {
                s.low < t_low && t.high > s_high
            }
        }
    } else {
        false
    }
}

/// No merged bar strictly between `b` and `e` passes `e`'s extreme in the stroke's direction.
pub open spec fn spec_end_is_peak(klcs: Seq<KLine>, b: int, e: int) -> bool {
    if klcs[b].fx == FxType::Bottom {
        forall|i: int| b < i < e ==> #[trigger] klcs[i].high <= klcs[e].high
    } else if klcs[b].fx == FxType::Top {
        forall|i: int| b < i < e ==> #[trigger] klcs[i].low >= klcs[e].low
    } else {
        true
    }
}

fn min_i64(a: i64, b: i64) -> (r: i64)
    ensures
        r as int == min2(a as int, b as int),
{
    if a <= b { a } else { b }
}

fn max_i64(a: i64, b: i64) -> (r: i64)
    ensures
        r as int == max2(a as int, b as int),
{
    if a >= b { a } else { b }
}

/// Checks the fractal at `i2` as the end of a stroke from the fractal at `i1`
/// by the given method: the end must lie beyond the window around the start.
pub fn check_fx_valid(klcs: &Vec<KLine>, i1: usize, i2: usize, method: FxCheckMethod, for_virtual: bool) -> (r: bool)
    requires
        1 <= i1,
        i1 < i2,
        i2 < klcs@.len(),
        !for_virtual ==> i2 + 1 < klcs@.len(),
    ensures
        r == spec_check_fx_valid(klcs@, i1 as int, i2 as int, method, for_virtual),
{
    let _n = klcs.len();
    let s = klcs[i1];
    let t = klcs[i2];
    if s.fx == FxType::Top {
        if for_virtual && t.dir != KlineDir::Down {
            return false;
        }
        let (t_high, s_low) = match method {
            FxCheckMethod::Half => (max_i64(klcs[i2 - 1].high, t.high), min_i64(s.low, klcs[i1 + 1].low)),
            FxCheckMethod::Loss => (t.high, s.low),
            _ => (
                if for_virtual {
                    max_i64(klcs[i2 - 1].high, t.high)
                } else {
                    max_i64(max_i64(klcs[i2 - 1].high, t.high), klcs[i2 + 1].high)
                },
                min_i64(min_i64(klcs[i1 - 1].low, s.low), klcs[i1 + 1].low),
            ),
        };
        if method == FxCheckMethod::Totally {
            s.low > t_high
        } else {
            s.high > t_high && t.low < s_low
        }
    } else if s.fx == FxType::Bottom {
        if for_virtual && t.dir != KlineDir::Up {
            return false;
        }
        let (t_low, s_high) = match method {
            FxCheckMethod::Half => (min_i64(klcs[i2 - 1].low, t.low), max_i64(s.high, klcs[i1 + 1].high)),
            FxCheckMethod::Loss => (t.low, s.high),
            _ => (
                if for_virtual {
                    min_i64(klcs[i2 - 1].low, t.low)
                } else {
                    min_i64(min_i64(klcs[i2 - 1].low, t.low), klcs[i2 + 1].low)
                },
                max_i64(max_i64(klcs[i1 - 1].high, s.high), klcs[i1 + 1].high),
            ),
        };
        if method == FxCheckMethod::Totally {
            s.high < t_low
        } else {
            s.low < t_low && t.high > s_high
        }
    } else {
        false
    }
}

/// Whether no merged bar strictly between `last_end` and `cur_end` passes
/// `cur_end`'s extreme in the direction of the stroke.
pub fn end_is_peak(klcs: &Vec<KLine>, last_end: usize, cur_end: usize) -> (r: bool)
    requires
        last_end < cur_end,
        cur_end < klcs@.len(),
    ensures
        r == spec_end_is_peak(klcs@, last_end as int, cur_end as int),
{
    let fx = klcs[last_end].fx;
    if fx == FxType::Bottom {
        let thred = klcs[cur_end].high;
        let mut i = last_end + 1;
        while i < cur_end
            invariant
                last_end < i <= cur_end,
                cur_end < klcs@.len(),
                thred == klcs@[cur_end as int].high,
                klcs@[last_end as int].fx == FxType::Bottom,
                forall|j: int| last_end < j < i ==> #[trigger] klcs@[j].high <= thred,
            decreases cur_end - i,
        {
            if klcs[i].high > thred {
                assert(!(klcs@[i as int].high <= klcs@[cur_end as int].high));
                return false;
            }
            i += 1;
        }
        true
    } else if fx == FxType::Top {
        let thred = klcs[cur_end].low;
        let mut i = last_end + 1;
        while i < cur_end
            invariant
                last_end < i <= cur_end,
                cur_end < klcs@.len(),
                thred == klcs@[cur_end as int].low,
                klcs@[last_end as int].fx == FxType::Top,
                forall|j: int| last_end < j < i ==> #[trigger] klcs@[j].low >= thred,
            decreases cur_end - i,
        {
            if klcs[i].low < thred {
                assert(!(klcs@[i as int].low >= klcs@[cur_end as int].low));
                return false;
            }
            i += 1;
        }
        true
    } else {
        true
    }
}

/// Span from merged bar `b` to `e`, gaps counted as the settings say.
pub fn get_klc_span(cfg: &BiConfig, klcs: &Vec<KLine>, b: usize, e: usize) -> (r: usize)
    requires
        b < e,
        e < klcs@.len(),
    ensures
        r as int == klc_span(cfg, klcs@, b as int, e as int),
{
    let span = e - b;
    if !cfg.gap_as_kl || span >= 4 {
        return span;
    }
    let mut gaps: usize = 0;
    let mut i = b;
    while i < e
        invariant
            b <= i <= e,
            e < klcs@.len(),
            gaps as int == gap_count(klcs@, b as int, i as int),
            gaps <= i - b,
        decreases e - i,
    {
        if klcs[i].has_gap_with_next(&klcs[i + 1]) {
            gaps += 1;
        }
        i += 1;
    }
    span + gaps
}

/// The span rule between merged bars `b` and `e`.
pub fn satisfy_bi_span(cfg: &BiConfig, klcs: &Vec<KLine>, b: usize, e: usize) -> (r: bool)
    requires
        b < e,
        e < klcs@.len(),
        forall|i: int| 0 <= i < klcs@.len() ==> klcs@[i].begin_klu <= klcs@[i].end_klu,
        forall|i: int| 0 < i < klcs@.len() ==> #[trigger] klcs@[i].begin_klu == klcs@[i - 1].end_klu + 1,
    ensures
        r == satisfy_span(cfg, klcs@, b as int, e as int),
{
    let span = get_klc_span(cfg, klcs, b, e);
    if cfg.is_strict {
        return span >= 4;
    }
    if span < 3 {
        return false;
    }
    proof {
        lemma_begin_klu_increasing(klcs@, b as int, e as int);
    }
    klcs[e].begin_klu - klcs[b].end_klu - 1 >= 3
}

pub proof fn lemma_begin_klu_increasing(klcs: Seq<KLine>, b: int, e: int)
    requires
        0 <= b < e < klcs.len(),
        forall|i: int| 0 <= i < klcs.len() ==> klcs[i].begin_klu <= klcs[i].end_klu,
        forall|i: int| 0 < i < klcs.len() ==> #[trigger] klcs[i].begin_klu == klcs[i - 1].end_klu + 1,
    ensures
        klcs[e].begin_klu > klcs[b].end_klu,
        klcs[e].begin_klu - klcs[b].end_klu >= e - b,
    decreases e - b,
{
    assert(klcs[e].begin_klu == klcs[e - 1].end_klu + 1);
    if e - 1 > b {
        lemma_begin_klu_increasing(klcs, b, e - 1);
    }
}

/// A stroke between two merged bars.
#[derive(Debug)]
pub struct Bi {
    pub begin_klc: KLine,
    pub end_klc: KLine,
    pub dir: BiDir,
    pub idx: usize,
    pub bi_type: BiType,
    /// False for a tentative stroke that may still be revoked.
    pub is_sure: bool,
    /// Ends this stroke had before a tentative end replaced them, oldest first.
    pub sure_end: Vec<KLine>,
    /// Index of the segment that holds this stroke, once assigned.
    pub seg_idx: Option<usize>,
}

impl Bi {
    /// A stroke from `begin_klc` to `end_klc`. Its direction comes from the
    /// start's fractal: up from a bottom, down from a top. Fails with `BiErr`
    /// when the start is no fractal or the end does not lie beyond the start.
    pub fn new(begin_klc: KLine, end_klc: KLine, idx: usize, is_sure: bool) -> (r: Result<Self, ChanError>)
        ensures
            r.is_ok() <==> is_fractal(begin_klc.fx) && bi_check_ok(begin_klc, end_klc, spec_bi_dir(begin_klc.fx)),
            r matches Err(e) ==> e.errcode == ErrCode::BiErr,
            r matches Ok(b) ==> b.begin_klc == begin_klc && b.end_klc == end_klc && b.idx == idx
                && b.is_sure == is_sure && b.dir == spec_bi_dir(begin_klc.fx) && b.sure_end@.len() == 0
                && b.seg_idx.is_none(),
    {
        let dir = match begin_klc.fx {
            FxType::Bottom => BiDir::Up,
            FxType::Top => BiDir::Down,
            _ => {
                return Err(ChanError::with_msg("a stroke must start on a fractal", ErrCode::BiErr));
            },
        };
        if !Self::check(&begin_klc, &end_klc, dir) {
            return Err(ChanError::with_msg("stroke direction does not match its ends", ErrCode::BiErr));
        }
        Ok(Bi {
            begin_klc,
            end_klc,
            dir,
            idx,
            bi_type: BiType::Strict,
            is_sure,
            sure_end: Vec::new(),
            seg_idx: None,
        })
    }

    /// Whether the end lies beyond the start in direction `dir`.
    pub fn check(begin_klc: &KLine, end_klc: &KLine, dir: BiDir) -> (r: bool)
        ensures
            r == bi_check_ok(*begin_klc, *end_klc, dir),
    {
        match dir {
            BiDir::Down => begin_klc.high > end_klc.low,
            BiDir::Up => begin_klc.low < end_klc.high,
        }
    }

    pub fn is_up(&self) -> (r: bool)
        ensures
            r == (self.dir == BiDir::Up),
    {
        self.dir == BiDir::Up
    }

    pub fn is_down(&self) -> (r: bool)
        ensures
            r == (self.dir == BiDir::Down),
    {
        self.dir == BiDir::Down
    }

    pub open spec fn spec_begin_val(&self) -> int {
        spec_begin_val(self.begin_klc, self.dir)
    }

    pub open spec fn spec_end_val(&self) -> int {
        spec_end_val(self.end_klc, self.dir)
    }

    /// Price at the start: the low of an up stroke, the high of a down one.
    pub fn get_begin_val(&self) -> (r: i64)
        ensures
            r as int == self.spec_begin_val(),
    {
        if self.is_up() { self.begin_klc.low } else { self.begin_klc.high }
    }

    /// Price at the end: the high of an up stroke, the low of a down one.
    pub fn get_end_val(&self) -> (r: i64)
        ensures
            r as int == self.spec_end_val(),
    {
        if self.is_up() { self.end_klc.high } else { self.end_klc.low }
    }

    pub open spec fn spec_high(&self) -> int {
        if self.dir == BiDir::Up { self.end_klc.high as int } else { self.begin_klc.high as int }
    }

    pub open spec fn spec_low(&self) -> int {
        if self.dir == BiDir::Up { self.begin_klc.low as int } else { self.end_klc.low as int }
    }

    /// Highest price of the stroke.
    pub fn high(&self) -> (r: i64)
        ensures
            r as int == self.spec_high(),
    {
        if self.is_up() { self.end_klc.high } else { self.begin_klc.high }
    }

    /// Lowest price of the stroke.
    pub fn low(&self) -> (r: i64)
        ensures
            r as int == self.spec_low(),
    {
        if self.is_up() { self.begin_klc.low } else { self.end_klc.low }
    }

    /// Distance between the start and end prices.
    pub fn amp(&self) -> (r: u64)
        ensures
            r as int == (if self.spec_end_val() >= self.spec_begin_val() {
                self.spec_end_val() - self.spec_begin_val()
            } else {
                self.spec_begin_val() - self.spec_end_val()
            }),
    {
        let b = self.get_begin_val();
        let e = self.get_end_val();
        if e >= b {
            (e as i128 - b as i128) as u64
        } else {
            (b as i128 - e as i128) as u64
        }
    }

    /// Number of merged bars from start to end, both included.
    pub fn get_klc_cnt(&self) -> (r: usize)
        requires
            self.begin_klc.idx <= self.end_klc.idx,
            self.end_klc.idx < usize::MAX,
        ensures
            r == self.end_klc.idx - self.begin_klc.idx + 1,
    {
        self.end_klc.idx - self.begin_klc.idx + 1
    }

    pub fn set_seg_idx(&mut self, idx: usize)
        ensures
            final(self).seg_idx == Some(idx),
            final(self).begin_klc == old(self).begin_klc,
            final(self).end_klc == old(self).end_klc,
            final(self).dir == old(self).dir,
            final(self).idx == old(self).idx,
            final(self).is_sure == old(self).is_sure,
            final(self).sure_end@ == old(self).sure_end@,
    {
        self.seg_idx = Some(idx);
    }

    /// Moves the end to `klc`. Fails with `BiErr`, changing nothing, when the
    /// new end does not lie beyond the start.
    pub fn update_new_end(&mut self, klc: KLine) -> (r: Result<(), ChanError>)
        ensures
            r.is_ok() <==> bi_check_ok(old(self).begin_klc, klc, old(self).dir),
            r matches Err(e) ==> e.errcode == ErrCode::BiErr,
            r.is_ok() ==> *final(self) == (Bi { end_klc: klc, ..*old(self) }),
            r.is_err() ==> *final(self) == *old(self),
    {
        if !Self::check(&self.begin_klc, &klc, self.dir) {
            return Err(ChanError::with_msg("stroke direction does not match its ends", ErrCode::BiErr));
        }
        self.end_klc = klc;
        Ok(())
    }

    pub fn append_sure_end(&mut self, klc: KLine)
        ensures
            *final(self) == (Bi { sure_end: final(self).sure_end, ..*old(self) }),
            final(self).sure_end@ == old(self).sure_end@.push(klc),
    {
        self.sure_end.push(klc);
    }

    /// Replaces the end by the tentative end `klc`, keeping the old end for a later restore.
    pub fn update_virtual_end(&mut self, klc: KLine) -> (r: Result<(), ChanError>)
        ensures
            r.is_ok() <==> bi_check_ok(old(self).begin_klc, klc, old(self).dir),
            r matches Err(e) ==> e.errcode == ErrCode::BiErr,
            r.is_ok() ==> final(self).end_klc == klc && !final(self).is_sure
                && final(self).sure_end@ == old(self).sure_end@.push(old(self).end_klc)
                && final(self).begin_klc == old(self).begin_klc && final(self).dir == old(self).dir
                && final(self).idx == old(self).idx && final(self).seg_idx == old(self).seg_idx,
            r.is_err() ==> *final(self) == *old(self),
    {
        if !Self::check(&self.begin_klc, &klc, self.dir) {
            return Err(ChanError::with_msg("stroke direction does not match its ends", ErrCode::BiErr));
        }
        let e = self.end_klc;
        self.append_sure_end(e);
        self.end_klc = klc;
        self.is_sure = false;
        Ok(())
    }

    /// Goes back to the confirmed end `sure_end`, dropping the kept ends.
    pub fn restore_from_virtual_end(&mut self, sure_end: KLine) -> (r: Result<(), ChanError>)
        ensures
            r.is_ok() <==> bi_check_ok(old(self).begin_klc, sure_end, old(self).dir),
            r matches Err(e) ==> e.errcode == ErrCode::BiErr,
            r.is_ok() ==> final(self).end_klc == sure_end && final(self).is_sure && final(self).sure_end@.len() == 0
                && final(self).begin_klc == old(self).begin_klc && final(self).dir == old(self).dir
                && final(self).idx == old(self).idx && final(self).seg_idx == old(self).seg_idx,
            r.is_err() ==> *final(self) == *old(self),
    {
        if !Self::check(&self.begin_klc, &sure_end, self.dir) {
            return Err(ChanError::with_msg("stroke direction does not match its ends", ErrCode::BiErr));
        }
        self.end_klc = sure_end;
        self.is_sure = true;
        self.sure_end = Vec::new();
        Ok(())
    }
}

} // verus!
