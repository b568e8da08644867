use vstd::prelude::*;
use crate::bi::Bi;
use crate::cenum::{BiDir, BspType, MacdAlgo};
use crate::chan_exception::{ChanError, ErrCode};
use crate::kline::{KLine, KLineUnit};
use crate::seg::Seg;
use crate::zs::ZS;
use crate::eigen_fx::scanned;

verus! {

/// Settings of buy points or of sell points.
#[derive(Debug)]
pub struct PointConfig {
    /// Divergence threshold in thousandths: out metric <= rate * in metric.
    /// Above 100 000 every exit diverges.
    pub divergence_rate_milli: u64,
    pub min_zs_cnt: usize,
    pub bsp1_only_multibi_zs: bool,
    pub macd_algo: MacdAlgo,
    pub bs1_peak: bool,
    pub target_types: Vec<BspType>,
    pub bsp2_follow_1: bool,
    pub bsp3_follow_1: bool,
    pub bsp3_peak: bool,
    pub bsp2s_follow_2: bool,
    pub strict_bsp3: bool,
}

impl PointConfig {
    /// Rate 0.9, one zone, area metric, every label a target, Type-2 and
    /// Type-3 following Type-1.
    pub fn default() -> (r: Self)
        ensures
            r.divergence_rate_milli == 900,
            r.target_types@.len() == 6,
    {
        PointConfig {
            divergence_rate_milli: 900,
            min_zs_cnt: 1,
            bsp1_only_multibi_zs: true,
            macd_algo: MacdAlgo::Area,
            bs1_peak: true,
            target_types: vec![BspType::T1, BspType::T1P, BspType::T2, BspType::T2S, BspType::T3A, BspType::T3B],
            bsp2_follow_1: true,
            bsp3_follow_1: true,
            bsp3_peak: false,
            bsp2s_follow_2: false,
            strict_bsp3: false,
        }
    }
}

/// Settings for buy points and for sell points.
#[derive(Debug)]
pub struct BSPointConfig {
    pub b_conf: PointConfig,
    pub s_conf: PointConfig,
}

impl BSPointConfig {
    pub fn default() -> (r: Self) {
        BSPointConfig { b_conf: PointConfig::default(), s_conf: PointConfig::default() }
    }

    pub open spec fn get_bs_config_spec(&self, is_buy: bool) -> &PointConfig {
        if is_buy { &self.b_conf } else { &self.s_conf }
    }

    pub fn get_bs_config(&self, is_buy: bool) -> (r: &PointConfig)
        ensures
            r == self.get_bs_config_spec(is_buy),
    {
        if is_buy { &self.b_conf } else { &self.s_conf }
    }
}

/// Numbers recorded with a point for later scoring.
#[derive(Debug, Clone, Copy, PartialEq, Eq, Structural)]
pub struct BspFeatures {
    pub bi_amp: u64,
    /// Height of the zone the point refers to.
    pub zs_height: Option<u64>,
    /// Out metric of the divergence test.
    pub divergence_out: Option<u64>,
    /// In metric of the divergence test.
    pub divergence_in: Option<u64>,
}

/// A buy or sell point at the end of a stroke.
#[derive(Debug)]
pub struct BSPoint {
    pub bi: usize,
    pub is_buy: bool,
    pub bs_type: Vec<BspType>,
    /// Stroke of the Type-1 point this one follows.
    pub relate_bsp1: Option<usize>,
    pub features: BspFeatures,
}

/// The metrics that integer bars support.
pub open spec fn metric_available(algo: MacdAlgo) -> bool {
    algo == MacdAlgo::Amp || algo == MacdAlgo::Peak || algo == MacdAlgo::FullArea || algo == MacdAlgo::Volumn
        || algo == MacdAlgo::VolumnAvg || algo == MacdAlgo::Area || algo == MacdAlgo::Amount || algo
        == MacdAlgo::AmountAvg || algo == MacdAlgo::TurnrateAvg
}

fn abs_u64(x: i64) -> (r: u64)
    ensures
        r as int == (if x >= 0 { x as int } else { -(x as int) }),
{
    if x >= 0 { x as u64 } else { (0i128 - x as i128) as u64 }
}

/// The metric of stroke `bi` that divergence compares, over the raw bars it
/// spans: the largest MACD magnitude (peak), their sum (full area), the sum of
/// the first run of one sign from the start, or from the end when `reverse`
/// (area), the price amplitude, or the traded volume (sum or mean). Other
/// metrics need inputs bars here do not carry and fail with `ParaError`.
pub fn stroke_metric(units: &Vec<KLineUnit>, klcs: &Vec<KLine>, bi: &Bi, algo: MacdAlgo, reverse: bool) -> (r: Result<u64, ChanError>)
    ensures
        algo == MacdAlgo::Amp ==> r is Ok && r.unwrap() as int == (if bi.spec_end_val() >= bi.spec_begin_val() {
            bi.spec_end_val() - bi.spec_begin_val()
        } else {
            bi.spec_begin_val() - bi.spec_end_val()
        }),
        r.is_err() <==> !metric_available(algo),
        r matches Err(e) ==> e.errcode == ErrCode::ParaError,
{
    if algo == MacdAlgo::Amp {
        return Ok(bi.amp());
    }
    if !(algo == MacdAlgo::Peak || algo == MacdAlgo::FullArea || algo == MacdAlgo::Volumn || algo == MacdAlgo::VolumnAvg
        || algo == MacdAlgo::Area || algo == MacdAlgo::Amount || algo == MacdAlgo::AmountAvg || algo == MacdAlgo::TurnrateAvg) {
        return Err(ChanError::with_msg("metric not available on integer bars", ErrCode::ParaError));
    }
    let b = bi.begin_klc.idx;
    let e = bi.end_klc.idx;
    if b >= klcs.len() || e >= klcs.len() {
        return Ok(0);
    }
    let lo = klcs[b].begin_klu;
    let hi = klcs[e].end_klu;
    if hi >= units.len() || lo > hi {
        return Ok(0);
    }
    match algo {
        MacdAlgo::Peak | MacdAlgo::FullArea | MacdAlgo::Volumn | MacdAlgo::VolumnAvg | MacdAlgo::Amount
        | MacdAlgo::AmountAvg | MacdAlgo::TurnrateAvg => {
            let mut acc: u64 = 0;
            let mut cnt: u64 = 0;
            let mut i = lo;
            while i <= hi
                invariant
                    hi < units@.len(),
                decreases hi + 1 - i,
            {
                let u = &units[i];
                let m = abs_u64(u.macd);
                match algo {
                    MacdAlgo::Peak => {
                        if m > acc {
                            acc = m;
                        }
                    },
                    MacdAlgo::FullArea => {
                        acc = if acc <= u64::MAX - m { acc + m } else { u64::MAX };
                    },
                    MacdAlgo::Amount | MacdAlgo::AmountAvg => {
                        let v = abs_u64(u.turnover);
                        acc = if acc <= u64::MAX - v { acc + v } else { u64::MAX };
                    },
                    MacdAlgo::TurnrateAvg => {
                        let v = abs_u64(u.turnrate);
                        acc = if acc <= u64::MAX - v { acc + v } else { u64::MAX };
                    },
                    _ => {
                        let v = abs_u64(u.volume);
                        acc = if acc <= u64::MAX - v { acc + v } else { u64::MAX };
                    },
                }
                if cnt < u64::MAX {
                    cnt += 1;
                }
                if i == hi {
                    break;
                }
                i += 1;
            }
            if (algo == MacdAlgo::VolumnAvg || algo == MacdAlgo::AmountAvg || algo == MacdAlgo::TurnrateAvg) && cnt > 0 {
                Ok(acc / cnt)
            } else {
                Ok(acc)
            }
        },
        MacdAlgo::Area => {
            let start = if reverse { hi } else { lo };
            let sign = units[start].macd > 0;
            let mut acc: u64 = 0;
            let mut k: usize = 0;
            while k <= hi - lo
                invariant
                    lo <= hi,
                    hi < units@.len(),
                decreases hi - lo + 1 - k,
            {
                let i = if reverse { hi - k } else { lo + k };
                let m = units[i].macd;
                if m == 0 || (m > 0) != sign {
                    break;
                }
                let a = abs_u64(m);
                acc = if acc <= u64::MAX - a { acc + a } else { u64::MAX };
                if k == hi - lo {
                    break;
                }
                k += 1;
            }
            Ok(acc)
        },
        _ => Ok(0),
    }
}

/// Distance between a stroke's start and end prices.
pub open spec fn spec_amp(b: Bi) -> u64 {
    (if b.spec_end_val() >= b.spec_begin_val() {
        b.spec_end_val() - b.spec_begin_val()
    } else {
        b.spec_begin_val() - b.spec_end_val()
    }) as u64
}

/// The leaving stroke passes the zone's band in its own direction.
pub open spec fn spec_end_bi_break(zs: &ZS, bi: &Bi) -> bool {
    (bi.dir == BiDir::Down && bi.spec_low() < zs.low) || (bi.dir == BiDir::Up && bi.spec_high() > zs.high)
}

/// Whether the out metric is at most `rate_milli` thousandths of the in metric.
pub open spec fn spec_diverges(rate_milli: u64, out_m: u64, in_m: u64) -> bool {
    rate_milli > 100_000 || (out_m as int) * 1000 <= (rate_milli as int) * (in_m as int)
}

/// Divergence across a zone: the leaving stroke `out_bi` must break the band,
/// and its metric (read backward) must be at most the configured share of the
/// entering stroke's metric. Returns the verdict and the two metrics.
pub fn is_divergence(
    zs: &ZS,
    conf: &PointConfig,
    bis: &Vec<Bi>,
    units: &Vec<KLineUnit>,
    klcs: &Vec<KLine>,
    out_bi: &Bi,
) -> (r: Result<(bool, Option<(u64, u64)>), ChanError>)
    ensures
        r matches Ok((d, m)) ==> (!spec_end_bi_break(zs, out_bi) ==> !d && m.is_none()) && (m matches Some(
            p,
        ) ==> d == spec_diverges(conf.divergence_rate_milli, p.0, p.1)),
        metric_available(conf.macd_algo) ==> r.is_ok(),
        !metric_available(conf.macd_algo) && spec_end_bi_break(zs, out_bi) && (zs.bi_in matches Some(i) && i < bis@.len())
            ==> (r matches Err(e) && e.errcode == ErrCode::ParaError),
        (r is Ok && spec_end_bi_break(zs, out_bi) && (zs.bi_in matches Some(i) && i < bis@.len())) ==> ({
            let (d, m) = r.unwrap();
            &&& m is Some
            &&& conf.macd_algo == MacdAlgo::Amp ==> m.unwrap().0 == spec_amp(*out_bi) && m.unwrap().1 == spec_amp(bis@[zs.bi_in.unwrap() as int])
        }),
{
    let breaks = (out_bi.is_down() && out_bi.low() < zs.low) || (out_bi.is_up() && out_bi.high() > zs.high);
    if !breaks {
        return Ok((false, None));
    }
    let in_idx = match zs.bi_in {
        Some(i) => i,
        None => {
            return Ok((false, None));
        },
    };
    if in_idx >= bis.len() {
        return Ok((false, None));
    }
    let in_m = stroke_metric(units, klcs, &bis[in_idx], conf.macd_algo, false)?;
    let out_m = stroke_metric(units, klcs, out_bi, conf.macd_algo, true)?;
    let rate = conf.divergence_rate_milli;
    let d = if rate > 100_000 {
        true
    } else {
        assert((rate as int) * (in_m as int) <= 100_000 * 0x1_0000_0000_0000_0000) by (nonlinear_arith)
            requires
                rate <= 100_000,
                in_m <= u64::MAX,
        ;
        assert((out_m as int) * 1000 <= 1000 * 0x1_0000_0000_0000_0000) by (nonlinear_arith)
            requires
                out_m <= u64::MAX,
        ;
        (out_m as u128) * 1000 <= (rate as u128) * (in_m as u128)
    };
    Ok((d, Some((out_m, in_m))))
}

/// Member `m` of a zone reaches beyond the leaving stroke `out` in its direction.
pub open spec fn member_beyond(out: &Bi, m: crate::eigen::LineItem) -> bool {
    (out.dir == BiDir::Down && m.low < out.spec_low()) || (out.dir == BiDir::Up && m.high > out.spec_high())
}

/// Whether the leaving stroke goes beyond every member of the zone up to
/// stroke `end_bi_idx` in its direction.
pub fn out_bi_is_peak(zs: &ZS, out: &Bi, end_bi_idx: usize) -> (r: bool)
    ensures
        r == forall|i: int| 0 <= i < zs.bi_lst@.len() && zs.bi_lst@[i].idx <= end_bi_idx ==> !member_beyond(
            out,
            #[trigger] zs.bi_lst@[i],
        ),
{
    let mut i: usize = 0;
    while i < zs.bi_lst.len()
        invariant
            i <= zs.bi_lst@.len(),
            forall|j: int| 0 <= j < i && zs.bi_lst@[j].idx <= end_bi_idx ==> !member_beyond(out, #[trigger] zs.bi_lst@[j]),
        decreases zs.bi_lst@.len() - i,
    {
        let m = zs.bi_lst[i];
        if m.idx <= end_bi_idx && ((out.is_down() && m.low < out.low()) || (out.is_up() && m.high > out.high())) {
            assert(member_beyond(out, zs.bi_lst@[i as int]));
            return false;
        }
        i += 1;
    }
    true
}

/// A strict Type-2 candidate breaks the Type-2 stroke's extreme.
pub fn bsp2s_break_bsp1(bsp2s_bi: &Bi, bsp2_break_bi: &Bi) -> (r: bool)
    ensures
        r == ((bsp2s_bi.dir == BiDir::Down && bsp2s_bi.spec_low() < bsp2_break_bi.spec_low()) || (bsp2s_bi.dir
            == BiDir::Up && bsp2s_bi.spec_high() > bsp2_break_bi.spec_high())),
{
    (bsp2s_bi.is_down() && bsp2s_bi.low() < bsp2_break_bi.low()) || (bsp2s_bi.is_up() && bsp2s_bi.high()
        > bsp2_break_bi.high())
}

/// A Type-3 candidate comes back into the zone's band.
pub fn bsp3_back2zs(bsp3_bi: &Bi, zs: &ZS) -> (r: bool)
    ensures
        r == ((bsp3_bi.dir == BiDir::Down && bsp3_bi.spec_low() < zs.high) || (bsp3_bi.dir == BiDir::Up
            && bsp3_bi.spec_high() > zs.low)),
{
    (bsp3_bi.is_down() && bsp3_bi.low() < zs.high) || (bsp3_bi.is_up() && bsp3_bi.high() > zs.low)
}

/// A Type-3 candidate stays beyond the zone's peak range.
pub fn bsp3_break_zspeak(bsp3_bi: &Bi, zs: &ZS) -> (r: bool)
    ensures
        r == ((bsp3_bi.dir == BiDir::Down && bsp3_bi.spec_high() >= zs.peak_high) || (bsp3_bi.dir == BiDir::Up
            && bsp3_bi.spec_low() <= zs.peak_low)),
{
    (bsp3_bi.is_down() && bsp3_bi.high() >= zs.peak_high) || (bsp3_bi.is_up() && bsp3_bi.low() <= zs.peak_low)
}

/// Labels joined by commas.
pub open spec fn join_labels(s: Seq<BspType>) -> Seq<char>
    decreases s.len(),
{
    if s.len() == 0 {
        Seq::empty()
    } else if s.len() == 1 {
        s[0].spec_label()
    } else {
        join_labels(s.drop_last()) + ","@ + s.last().spec_label()
    }
}

impl BSPoint {
    /// The point's labels joined by commas, in the order they were given.
    pub fn type_to_string(&self) -> (r: String)
        ensures
            r@ == join_labels(self.bs_type@),
    {
        let mut out = String::new();
        let mut i: usize = 0;
        while i < self.bs_type.len()
            invariant
                i <= self.bs_type@.len(),
                out@ == join_labels(self.bs_type@.subrange(0, i as int)),
            decreases self.bs_type@.len() - i,
        {
            let ghost before = out@;
            if i > 0 {
                out.append(",");
            }
            out.append(self.bs_type[i].label());
            proof {
                let t = self.bs_type@.subrange(0, i + 1);
                assert(t.drop_last() =~= self.bs_type@.subrange(0, i as int));
                if i == 0 {
                    assert(before =~= Seq::<char>::empty());
                    assert(out@ =~= t[0].spec_label());
                } else {
                    assert(out@ =~= join_labels(t.drop_last()) + ","@ + t.last().spec_label());
                }
            }
            i += 1;
        }
        assert(self.bs_type@.subrange(0, self.bs_type@.len() as int) =~= self.bs_type@);
        out
    }

    pub fn add_type(&mut self, bs_type: BspType)
        ensures
            final(self).bs_type@ == old(self).bs_type@.push(bs_type),
            final(self).bi == old(self).bi,
            final(self).is_buy == old(self).is_buy,
            final(self).relate_bsp1 == old(self).relate_bsp1,
            final(self).features == old(self).features,
    {
        self.bs_type.push(bs_type);
    }
}

/// The buy and sell points of one series.
#[derive(Debug)]
pub struct BSPointList {
    pub lst: Vec<BSPoint>,
    /// Every Type-1 point found, target or not.
    pub bsp1_lst: Vec<BSPoint>,
    pub config: BSPointConfig,
    /// Last stroke of the last confirmed segment; points from there on are recomputed.
    pub last_sure_pos: Option<usize>,
}

/// Every point carries at least one label.
pub open spec fn points_ok(s: Seq<BSPoint>) -> bool {
    forall|i: int| 0 <= i < s.len() ==> (#[trigger] s[i]).bs_type@.len() > 0
}

/// T3A is a target label for buy and sell points alike.
pub open spec fn t3a_target(c: &BSPointConfig) -> bool {
    c.b_conf.target_types@.contains(BspType::T3A) && c.s_conf.target_types@.contains(BspType::T3A)
}

/// First stroke a Type-3 search looks at: two after the Type-1 stroke, or the
/// second stroke when there is none.
pub open spec fn bsp3_start(bsp1_bi: Option<usize>) -> int {
    match bsp1_bi {
        Some(b) => b + 2,
        None => 1,
    }
}

/// Stroke `k` is one of every second stroke from `begin`, up to `j`.
pub open spec fn scanned_le(begin: int, k: int, j: int) -> bool {
    begin <= k <= j && (k - begin) % 2 == 0
}

/// No end bound, or `j` is within it.
pub open spec fn within(end: Option<usize>, j: int) -> bool {
    end matches Some(e) ==> j <= e
}

/// Stroke `j` may be a Type-3 point after `zone`: it lies in segment `nsi`
/// (unless that segment is among the last two), stays out of the zone's band,
/// and, when asked, beyond its peak range.
pub open spec fn after_ok(bis: Seq<Bi>, j: int, zone: ZS, peak: bool, nsi: int, n_segs: int) -> bool {
    &&& (bis[j].seg_idx == Some(nsi as usize) || !(nsi < n_segs && n_segs - nsi > 2))
    &&& !((bis[j].dir == BiDir::Down && bis[j].spec_low() < zone.high) || (bis[j].dir == BiDir::Up && bis[j].spec_high() > zone.low))
    &&& peak ==> ((bis[j].dir == BiDir::Down && bis[j].spec_high() >= zone.peak_high) || (bis[j].dir == BiDir::Up
        && bis[j].spec_low() <= zone.peak_low))
}

/// T3B is a target label for buy and sell points alike.
pub open spec fn t3b_target(c: &BSPointConfig) -> bool {
    c.b_conf.target_types@.contains(BspType::T3B) && c.s_conf.target_types@.contains(BspType::T3B)
}

/// Stroke `k` may still be looked at by the search before a zone: within the
/// bound, and in segment `nsi` or one of the last two segments.
pub open spec fn before_pass(bis: Seq<Bi>, k: int, end: Option<usize>, nsi: int, n_segs: int) -> bool {
    within(end, k) && (bis[k].seg_idx matches Some(x) && (x == nsi || !(x < n_segs && n_segs - x > 1)))
}

/// Stroke `k` comes back into the zone's band.
pub open spec fn back_into(b: Bi, zone: ZS) -> bool {
    (b.dir == BiDir::Down && b.spec_low() < zone.high) || (b.dir == BiDir::Up && b.spec_high() > zone.low)
}

/// The end bound of the search before a zone: that of the next segment, if any.
pub open spec fn before_end(segs: Seq<Seg>, next_si: Option<usize>, zss: Seq<ZS>) -> Option<usize> {
    match next_si {
        Some(n) => bsp3_end(segs[n as int], zss, segs.len() as int),
        None => None,
    }
}

/// Some point of `lst` at stroke `j` carries label `t`.
pub open spec fn has_label(lst: Seq<BSPoint>, j: int, t: BspType) -> bool {
    exists|i: int| 0 <= i < lst.len() && (#[trigger] lst[i]).bi == j && lst[i].bs_type@.contains(t)
}

/// `k` is the first point of `lst` at stroke `bi`.
pub open spec fn first_at(lst: Seq<BSPoint>, k: int, bi: usize) -> bool {
    0 <= k < lst.len() && lst[k].bi == bi && forall|j: int| 0 <= j < k ==> (#[trigger] lst[j]).bi != bi
}

/// `p` is a fresh point of label `t` at the end of stroke `bi`: a buy when the
/// stroke runs down, a sell when it runs up.
pub open spec fn point_is(p: BSPoint, bi: Bi, t: BspType, relate: Option<usize>, f: BspFeatures) -> bool {
    &&& p.bi == bi.idx
    &&& p.is_buy == (bi.dir == BiDir::Down)
    &&& p.bs_type@ == seq![t]
    &&& p.relate_bsp1 == relate
    &&& p.features == f
}

/// Position of the point at stroke `bi`, if any.
fn find_point(lst: &Vec<BSPoint>, bi: usize) -> (r: Option<usize>)
    ensures
        r matches Some(k) ==> k < lst@.len() && lst@[k as int].bi == bi && first_at(lst@, k as int, bi),
        r.is_none() ==> forall|k: int| 0 <= k < lst@.len() ==> (#[trigger] lst@[k]).bi != bi,
{
    let mut k: usize = 0;
    while k < lst.len()
        invariant
            k <= lst@.len(),
            forall|j: int| 0 <= j < k ==> (#[trigger] lst@[j]).bi != bi,
        decreases lst@.len() - k,
    {
        if lst[k].bi == bi {
            return Some(k);
        }
        k += 1;
    }
    None
}

fn contains_type(v: &Vec<BspType>, t: BspType) -> (r: bool)
    ensures
        r == v@.contains(t),
{
    let mut k: usize = 0;
    while k < v.len()
        invariant
            k <= v@.len(),
            forall|j: int| 0 <= j < k ==> v@[j] != t,
        decreases v@.len() - k,
    {
        if v[k] == t {
            assert(v@[k as int] == t);
            return true;
        }
        k += 1;
    }
    false
}

/// Keeps the points before stroke `pos` (none when there is no position).
fn keep_before(lst: Vec<BSPoint>, pos: Option<usize>) -> (r: Vec<BSPoint>)
    requires
        points_ok(lst@),
    ensures
        points_ok(r@),
        forall|i: int| 0 <= i < r@.len() ==> (pos matches Some(p) && (#[trigger] r@[i]).bi < p),
{
    let mut out: Vec<BSPoint> = Vec::new();
    let mut src = lst;
    let mut lst: Vec<BSPoint> = Vec::new();
    while src.len() > 0
        invariant
            points_ok(src@),
            points_ok(lst@),
        decreases src@.len(),
    {
        let ghost before = src@;
        let ghost l0 = lst@;
        let p = src.pop().unwrap();
        proof {
            assert(before[before.len() - 1] == p);
            assert forall|i: int| 0 <= i < src@.len() implies (#[trigger] src@[i]).bs_type@.len() > 0 by {
                assert(src@[i] == before[i]);
            }
        }
        lst.push(p);
        proof {
            assert forall|i: int| 0 <= i < lst@.len() implies (#[trigger] lst@[i]).bs_type@.len() > 0 by {
                if i < l0.len() {
                    assert(lst@[i] == l0[i]);
                }
            }
        }
    }
    while lst.len() > 0
        invariant
            points_ok(out@),
            points_ok(lst@),
            forall|i: int| 0 <= i < out@.len() ==> (pos matches Some(p) && (#[trigger] out@[i]).bi < p),
        decreases lst@.len(),
    {
        let ghost before = lst@;
        let p = lst.pop().unwrap();
        proof {
            assert(before[before.len() - 1] == p);
            assert(points_ok(lst@)) by {
                assert forall|i: int| 0 <= i < lst@.len() implies (#[trigger] lst@[i]).bs_type@.len() > 0 by {
                    assert(lst@[i] == before[i]);
                }
            }
        }
        let keep = match pos {
            Some(q) => p.bi < q,
            None => false,
        };
        if keep {
            let ghost o0 = out@;
            out.push(p);
            proof {
                assert forall|i: int| 0 <= i < out@.len() implies (#[trigger] out@[i]).bs_type@.len() > 0 && (pos matches Some(q) && out@[i].bi < q) by {
                    if i < o0.len() {
                        assert(out@[i] == o0[i]);
                    }
                }
            }
        }
    }
    out
}

impl BSPointList {
    pub fn new(config: BSPointConfig) -> (r: Self)
        ensures
            r.lst@.len() == 0,
            points_ok(r.lst@),
            points_ok(r.bsp1_lst@),
    {
        BSPointList { lst: Vec::new(), bsp1_lst: Vec::new(), config, last_sure_pos: None }
    }

    /// Records a point of label `bs_type` at the end of stroke `bi`: a point
    /// already there gains the label; otherwise a new point is kept when it is
    /// a target of the configuration (and every Type-1 is remembered).
    pub fn add_bs(&mut self, bs_type: BspType, bi: &Bi, relate_bsp1: Option<usize>, is_target_bsp: bool, features: BspFeatures)
        requires
            points_ok(old(self).lst@),
            points_ok(old(self).bsp1_lst@),
        ensures
            points_ok(final(self).lst@),
            points_ok(final(self).bsp1_lst@),
            final(self).config == old(self).config,
            forall|j: int, t: BspType| #[trigger] has_label(old(self).lst@, j, t) ==> has_label(final(self).lst@, j, t),
            ((exists|k: int| 0 <= k < old(self).lst@.len() && (#[trigger] old(self).lst@[k]).bi == bi.idx) || (is_target_bsp
                && old(self).config.get_bs_config_spec(bi.dir == BiDir::Down).target_types@.contains(bs_type)))
                ==> has_label(final(self).lst@, bi.idx as int, bs_type),
            forall|k: int| #[trigger] first_at(old(self).lst@, k, bi.idx) ==> {
                &&& final(self).lst@.len() == old(self).lst@.len()
                &&& final(self).bsp1_lst@ == old(self).bsp1_lst@
                &&& final(self).lst@[k].bs_type@ == old(self).lst@[k].bs_type@.push(bs_type)
                &&& final(self).lst@[k].bi == old(self).lst@[k].bi
                &&& final(self).lst@[k].is_buy == old(self).lst@[k].is_buy
                &&& final(self).lst@[k].relate_bsp1 == (if old(self).lst@[k].relate_bsp1.is_none() {
                    relate_bsp1
                } else {
                    old(self).lst@[k].relate_bsp1
                })
                &&& forall|j: int| 0 <= j < old(self).lst@.len() && j != k ==> #[trigger] final(self).lst@[j] == old(self).lst@[j]
            },
            (forall|k: int| 0 <= k < old(self).lst@.len() ==> (#[trigger] old(self).lst@[k]).bi != bi.idx) ==> {
                let target = is_target_bsp && old(self).config.get_bs_config_spec(bi.dir == BiDir::Down).target_types@.contains(bs_type);
                &&& target ==> final(self).lst@.len() == old(self).lst@.len() + 1 && final(self).lst@.drop_last() == old(self).lst@
                    && point_is(final(self).lst@.last(), *bi, bs_type, relate_bsp1, features)
                &&& !target ==> final(self).lst@ == old(self).lst@
                &&& (bs_type == BspType::T1 || bs_type == BspType::T1P) ==> final(self).bsp1_lst@.len() == old(self).bsp1_lst@.len() + 1
                    && final(self).bsp1_lst@.drop_last() == old(self).bsp1_lst@
                    && point_is(final(self).bsp1_lst@.last(), *bi, bs_type, relate_bsp1, features)
                &&& !(bs_type == BspType::T1 || bs_type == BspType::T1P) ==> final(self).bsp1_lst@ == old(self).bsp1_lst@
            },
    {
        let is_buy = bi.is_down();
        match find_point(&self.lst, bi.idx) {
            Some(k) => {
                let ghost l0 = self.lst@;
                self.lst[k].add_type(bs_type);
                match relate_bsp1 {
                    Some(r) => {
                        if self.lst[k].relate_bsp1.is_none() {
                            self.lst[k].relate_bsp1 = Some(r);
                        }
                    },
                    None => {},
                }
                proof {
                    assert forall|i: int| 0 <= i < self.lst@.len() implies (#[trigger] self.lst@[i]).bs_type@.len() > 0 by {
                        if i != k {
                            assert(self.lst@[i] == l0[i]);
                        }
                    }
                    assert forall|j: int| 0 <= j < l0.len() && j != k implies #[trigger] self.lst@[j] == l0[j] by {}
                    assert(self.lst@[k as int].bs_type@.contains(bs_type)) by {
                        assert(self.lst@[k as int].bs_type@.last() == bs_type);
                    }
                    assert(has_label(self.lst@, bi.idx as int, bs_type));
                    assert forall|j: int, t: BspType| #[trigger] has_label(l0, j, t) implies has_label(self.lst@, j, t) by {
                        let i = choose|i: int| 0 <= i < l0.len() && (#[trigger] l0[i]).bi == j && l0[i].bs_type@.contains(t);
                        if i == k {
                            let w = choose|w: int| 0 <= w < l0[i].bs_type@.len() && l0[i].bs_type@[w] == t;
                            assert(self.lst@[i].bs_type@[w] == t);
                        }
                        assert(self.lst@[i].bi == j);
                    }
                    assert forall|kk: int| #[trigger] first_at(l0, kk, bi.idx) implies kk == k by {
                        if kk < k {
                            assert(l0[kk].bi == bi.idx);
                        }
                        if k < kk {
                            assert(l0[k as int].bi == bi.idx);
                        }
                    }
                }
                return;
            },
            None => {},
        }
        let conf = self.config.get_bs_config(is_buy);
        let target = is_target_bsp && contains_type(&conf.target_types, bs_type);
        let is_one = bs_type == BspType::T1 || bs_type == BspType::T1P;
        if target {
            let ghost l0 = self.lst@;
            let v = vec![bs_type];
            assert(v@ =~= seq![bs_type]);
            self.lst.push(BSPoint { bi: bi.idx, is_buy, bs_type: v, relate_bsp1, features });
            proof {
                assert(self.lst@.drop_last() =~= l0);
                assert(self.lst@.last().bs_type@[0] == bs_type);
                assert(self.lst@[l0.len() as int].bi == bi.idx);
                assert(has_label(self.lst@, bi.idx as int, bs_type));
                assert forall|j: int, t: BspType| #[trigger] has_label(l0, j, t) implies has_label(self.lst@, j, t) by {
                    let i = choose|i: int| 0 <= i < l0.len() && (#[trigger] l0[i]).bi == j && l0[i].bs_type@.contains(t);
                    assert(self.lst@[i] == l0[i]);
                }
                assert forall|i: int| 0 <= i < self.lst@.len() implies (#[trigger] self.lst@[i]).bs_type@.len() > 0 by {
                    if i < l0.len() {
                        assert(self.lst@[i] == l0[i]);
                    }
                }
            }
        }
        if is_one {
            let ghost l1 = self.bsp1_lst@;
            let v1 = vec![bs_type];
            assert(v1@ =~= seq![bs_type]);
            self.bsp1_lst.push(BSPoint { bi: bi.idx, is_buy, bs_type: v1, relate_bsp1, features });
            proof {
                assert(self.bsp1_lst@.drop_last() =~= l1);
                assert forall|i: int| 0 <= i < self.bsp1_lst@.len() implies (#[trigger] self.bsp1_lst@[i]).bs_type@.len() > 0 by {
                    if i < l1.len() {
                        assert(self.bsp1_lst@[i] == l1[i]);
                    }
                }
            }
        }
    }

    pub fn len(&self) -> (r: usize)
        ensures
            r == self.lst@.len(),
    {
        self.lst.len()
    }

    pub fn is_empty(&self) -> (r: bool)
        ensures
            r == (self.lst@.len() == 0),
    {
        self.lst.len() == 0
    }

    pub fn get(&self, index: usize) -> (r: Option<&BSPoint>)
        ensures
            index < self.lst@.len() ==> r == Some(&self.lst@[index as int]),
            index >= self.lst@.len() ==> r.is_none(),
    {
        if index < self.lst.len() { Some(&self.lst[index]) } else { None }
    }

    /// Whether segment `seg` ends at or after the last confirmed position.
    pub fn seg_need_cal(&self, seg: &Seg) -> (r: bool)
        ensures
            r == (match self.last_sure_pos {
                None => true,
                Some(p) => seg.end_bi >= p,
            }),
    {
        match self.last_sure_pos {
            None => true,
            Some(p) => seg.end_bi >= p,
        }
    }

    /// Remembers the last stroke of the last confirmed segment.
    pub fn update_last_pos(&mut self, segs: &Vec<Seg>)
        ensures
            final(self).lst@ == old(self).lst@,
            final(self).bsp1_lst@ == old(self).bsp1_lst@,
    {
        self.last_sure_pos = None;
        let mut i = segs.len();
        while i > 0
            invariant
                i <= segs@.len(),
                self.lst@ == old(self).lst@,
                self.bsp1_lst@ == old(self).bsp1_lst@,
            decreases i,
        {
            if segs[i - 1].is_sure {
                self.last_sure_pos = Some(segs[i - 1].end_bi);
                return;
            }
            i -= 1;
        }
    }
}

/// Zones of `seg` with more than one stroke.
pub fn get_multi_bi_zs_cnt(seg: &Seg, zss: &Vec<ZS>) -> (r: usize)
    ensures
        r <= seg.zs_lst@.len(),
        r as int == multi_cnt(seg.zs_lst@, zss@, seg.zs_lst@.len() as int),
{
    let mut c: usize = 0;
    let mut k: usize = 0;
    while k < seg.zs_lst.len()
        invariant
            k <= seg.zs_lst@.len(),
            c <= k,
            c as int == multi_cnt(seg.zs_lst@, zss@, k as int),
        decreases seg.zs_lst@.len() - k,
    {
        let z = seg.zs_lst[k];
        if z < zss.len() && !zss[z].is_one_bi_zs() {
            c += 1;
        }
        k += 1;
    }
    c
}

/// Listed zones among the first `k` of `zl` that exist and hold more than one stroke.
pub open spec fn multi_cnt(zl: Seq<usize>, zss: Seq<ZS>, k: int) -> int
    decreases k,
{
    if k <= 0 {
        0
    } else {
        multi_cnt(zl, zss, k - 1) + (if zl[k - 1] < zss.len() && !zss[zl[k - 1] as int].spec_is_one_bi_zs() { 1int } else { 0 })
    }
}

/// The leaving stroke of the first listed multi-stroke zone (from position
/// `k` on) that has one.
pub open spec fn first_out(zl: Seq<usize>, zss: Seq<ZS>, k: int) -> Option<usize>
    decreases zl.len() - k,
{
    if k < 0 || k >= zl.len() {
        None
    } else if zl[k] < zss.len() && !zss[zl[k] as int].spec_is_one_bi_zs() && zss[zl[k] as int].bi_out is Some {
        zss[zl[k] as int].bi_out
    } else {
        first_out(zl, zss, k + 1)
    }
}

/// Last stroke a Type-3 point may sit on after segment `s`; none for no bound.
pub open spec fn bsp3_end(s: Seg, zss: Seq<ZS>, n_segs: int) -> Option<usize> {
    if multi_cnt(s.zs_lst@, zss, s.zs_lst@.len() as int) == 0 && s.idx >= n_segs - 1 {
        None
    } else {
        match first_out(s.zs_lst@, zss, 0) {
            Some(o) => Some(o),
            None => Some((if s.end_bi > 0 { s.end_bi - 1 } else { 0 }) as usize),
        }
    }
}

/// The first zone of `seg` with more than one stroke.
pub fn get_first_multi_bi_zs(seg: &Seg, zss: &Vec<ZS>) -> (r: Option<usize>)
    ensures
        r matches Some(z) ==> z < zss@.len() && !zss@[z as int].spec_is_one_bi_zs() && seg.zs_lst@.contains(z),
{
    let mut k: usize = 0;
    while k < seg.zs_lst.len()
        decreases seg.zs_lst@.len() - k,
    {
        let z = seg.zs_lst[k];
        if z < zss.len() && !zss[z].is_one_bi_zs() {
            assert(seg.zs_lst@[k as int] == z);
            return Some(z);
        }
        k += 1;
    }
    None
}

/// The last listed zone among the first `k` of `zl` that exists and holds more than one stroke.
pub open spec fn last_multi(zl: Seq<usize>, zss: Seq<ZS>, k: int) -> Option<usize>
    decreases k,
{
    if k <= 0 {
        None
    } else if zl[k - 1] < zss.len() && !zss[zl[k - 1] as int].spec_is_one_bi_zs() {
        Some(zl[k - 1])
    } else {
        last_multi(zl, zss, k - 1)
    }
}

/// The last zone of `seg` with more than one stroke.
pub fn get_final_multi_bi_zs(seg: &Seg, zss: &Vec<ZS>) -> (r: Option<usize>)
    ensures
        r matches Some(z) ==> z < zss@.len() && !zss@[z as int].spec_is_one_bi_zs() && seg.zs_lst@.contains(z),
        r == last_multi(seg.zs_lst@, zss@, seg.zs_lst@.len() as int),
{
    let mut k = seg.zs_lst.len();
    while k > 0
        invariant
            k <= seg.zs_lst@.len(),
            last_multi(seg.zs_lst@, zss@, seg.zs_lst@.len() as int) == last_multi(seg.zs_lst@, zss@, k as int),
        decreases k,
    {
        let z = seg.zs_lst[k - 1];
        if z < zss.len() && !zss[z].is_one_bi_zs() {
            assert(seg.zs_lst@[k - 1] == z);
            return Some(z);
        }
        k -= 1;
    }
    None
}

/// Last stroke a Type-3 point may sit on after segment `seg`: the stroke that
/// leaves its first multi-stroke zone, else the stroke before its last; none
/// (no bound) without a segment, or for a last segment without such zones.
pub fn cal_bsp3_bi_end_idx(seg: Option<&Seg>, zss: &Vec<ZS>, n_segs: usize) -> (r: Option<usize>)
    requires
        n_segs >= 1,
    ensures
        seg.is_none() ==> r.is_none(),
        seg matches Some(s) ==> r == bsp3_end(*s, zss@, n_segs as int),
{
    match seg {
        None => None,
        Some(s) => {
            if get_multi_bi_zs_cnt(s, zss) == 0 && s.idx >= n_segs - 1 {
                return None;
            }
            let mut end = if s.end_bi > 0 { s.end_bi - 1 } else { 0 };
            let mut k: usize = 0;
            while k < s.zs_lst.len()
                invariant_except_break
                    end == (if s.end_bi > 0 { s.end_bi - 1 } else { 0 }),
                invariant
                    k <= s.zs_lst@.len(),
                    first_out(s.zs_lst@, zss@, 0) == first_out(s.zs_lst@, zss@, k as int),
                ensures
                    match first_out(s.zs_lst@, zss@, 0) {
                        Some(o) => end == o,
                        None => end == (if s.end_bi > 0 { s.end_bi - 1 } else { 0 }),
                    },
                decreases s.zs_lst@.len() - k,
            {
                let z = s.zs_lst[k];
                if z < zss.len() && !zss[z].is_one_bi_zs() {
                    match zss[z].bi_out {
                        Some(o) => {
                            end = o;
                            break;
                        },
                        None => {},
                    }
                }
                k += 1;
            }
            Some(end)
        },
    }
}

impl BSPointList {
    /// Type-1 point at the end of `seg`: against its last zone when that zone
    /// is valid (more than one stroke, reaching the segment's end, entered more
    /// than two strokes before it), else a plain one when the segment has at
    /// least three strokes.
    pub fn cal_single_bs1point(&mut self, seg: &Seg, bis: &Vec<Bi>, zss: &Vec<ZS>, units: &Vec<KLineUnit>, klcs: &Vec<KLine>) -> (r: Result<(), ChanError>)
        requires
            points_ok(old(self).lst@),
            points_ok(old(self).bsp1_lst@),
        ensures
            points_ok(final(self).lst@),
            points_ok(final(self).bsp1_lst@),
    {
        if seg.end_bi >= bis.len() {
            return Ok(());
        }
        let is_buy = seg.is_down();
        let (only_multi, min_cnt) = {
            let conf = self.config.get_bs_config(is_buy);
            (conf.bsp1_only_multibi_zs, conf.min_zs_cnt)
        };
        let zs_cnt = if only_multi { get_multi_bi_zs_cnt(seg, zss) } else { seg.zs_lst.len() };
        let is_target = min_cnt == 0 || zs_cnt >= min_cnt;
        let nz = seg.zs_lst.len();
        let mut valid = false;
        if nz > 0 && seg.zs_lst[nz - 1] < zss.len() {
            let z = &zss[seg.zs_lst[nz - 1]];
            let reaches = match z.bi_out {
                Some(o) => o >= seg.end_bi,
                None => false,
            } || z.end_bi >= seg.end_bi;
            let entered = match z.bi_in {
                Some(i) => i < seg.end_bi && seg.end_bi - i > 2,
                None => false,
            };
            valid = !z.is_one_bi_zs() && reaches && entered;
            if valid {
                return self.treat_bsp1(seg, z, bis, units, klcs, is_target);
            }
        }
        if seg.end_bi >= seg.start_bi && seg.end_bi - seg.start_bi >= 2 {
            let end_bi = &bis[seg.end_bi];
            let peak = self.config.get_bs_config(is_buy).bs1_peak;
            let t = if peak { BspType::T1P } else { BspType::T1 };
            self.add_bs(t, end_bi, None, is_target, BspFeatures { bi_amp: end_bi.amp(), zs_height: None, divergence_out: None, divergence_in: None });
        }
        Ok(())
    }

    /// Type-1 point against the last zone: a target only when it diverges
    /// and, when asked, breaks every member of the zone.
    fn treat_bsp1(&mut self, seg: &Seg, z: &ZS, bis: &Vec<Bi>, units: &Vec<KLineUnit>, klcs: &Vec<KLine>, is_target: bool) -> (r: Result<(), ChanError>)
        requires
            points_ok(old(self).lst@),
            points_ok(old(self).bsp1_lst@),
            seg.end_bi < bis@.len(),
        ensures
            points_ok(final(self).lst@),
            points_ok(final(self).bsp1_lst@),
    {
        let is_buy = seg.is_down();
        let end_bi = &bis[seg.end_bi];
        let conf = self.config.get_bs_config(is_buy);
        let peak = conf.bs1_peak;
        let mut target = is_target;
        let break_peak = out_bi_is_peak(z, end_bi, seg.end_bi);
        if peak && !break_peak {
            target = false;
        }
        let (diver, metrics) = is_divergence(z, conf, bis, units, klcs, end_bi)?;
        if !diver {
            target = false;
        }
        let height = if z.high >= z.low { (z.high as i128 - z.low as i128) as u64 } else { 0 };
        let (dout, din) = match metrics {
            Some((o, i)) => (Some(o), Some(i)),
            None => (None, None),
        };
        let t = if peak { BspType::T1P } else { BspType::T1 };
        self.add_bs(t, end_bi, None, target, BspFeatures { bi_amp: end_bi.amp(), zs_height: Some(height), divergence_out: dout, divergence_in: din });
        Ok(())
    }

    /// Type-2 point at the end of `seg`, following the latest Type-1 point
    /// on the stroke that leaves one of its zones.
    pub fn cal_single_bs2point(&mut self, seg: &Seg, bis: &Vec<Bi>, zss: &Vec<ZS>)
        requires
            points_ok(old(self).lst@),
            points_ok(old(self).bsp1_lst@),
        ensures
            points_ok(final(self).lst@),
            points_ok(final(self).bsp1_lst@),
    {
        if seg.end_bi >= bis.len() || !self.config.get_bs_config(seg.is_down()).bsp2_follow_1 {
            return;
        }
        let mut last_bsp1: Option<usize> = None;
        let mut k: usize = 0;
        while k < seg.zs_lst.len()
            decreases seg.zs_lst@.len() - k,
        {
            let zi = seg.zs_lst[k];
            if zi < zss.len() {
                match zss[zi].bi_out {
                    Some(o) => {
                        if find_point(&self.bsp1_lst, o).is_some() {
                            last_bsp1 = Some(o);
                        }
                    },
                    None => {},
                }
            }
            k += 1;
        }
        match last_bsp1 {
            Some(b1) => {
                let end_bi = &bis[seg.end_bi];
                self.add_bs(BspType::T2, end_bi, Some(b1), true, BspFeatures { bi_amp: end_bi.amp(), zs_height: None, divergence_out: None, divergence_in: None });
            },
            None => {},
        }
    }

    /// Strict Type-2 point at the end of `seg` when it breaks the extreme of
    /// the last Type-2 point inside the segment.
    pub fn cal_single_bs2s_point(&mut self, seg: &Seg, bis: &Vec<Bi>)
        requires
            points_ok(old(self).lst@),
            points_ok(old(self).bsp1_lst@),
        ensures
            points_ok(final(self).lst@),
            points_ok(final(self).bsp1_lst@),
    {
        if seg.end_bi >= bis.len() || !self.config.get_bs_config(seg.is_down()).bsp2s_follow_2 {
            return;
        }
        let mut last_bsp2: Option<(usize, Option<usize>)> = None;
        let mut i = seg.start_bi;
        while i <= seg.end_bi
            invariant
                seg.end_bi < bis@.len(),
            decreases seg.end_bi + 1 - i,
        {
            match find_point(&self.lst, i) {
                Some(k) => {
                    if contains_type(&self.lst[k].bs_type, BspType::T2) {
                        last_bsp2 = Some((i, self.lst[k].relate_bsp1));
                    }
                },
                None => {},
            }
            if i == seg.end_bi {
                break;
            }
            i += 1;
        }
        match last_bsp2 {
            Some((b2, Some(b1))) => {
                if b2 < bis.len() && bsp2s_break_bsp1(&bis[seg.end_bi], &bis[b2]) {
                    let end_bi = &bis[seg.end_bi];
                    self.add_bs(BspType::T2S, end_bi, Some(b1), true, BspFeatures { bi_amp: end_bi.amp(), zs_height: None, divergence_out: None, divergence_in: None });
                }
            },
            _ => {},
        }
    }
}

impl BSPointList {
    /// Type-3 points after a Type-1: strokes of the next segment, every second
    /// one from two after the Type-1 stroke, that stay out of the next
    /// segment's first zone (and, when asked, beyond its peak range).
    fn treat_bsp3_after(
        &mut self,
        segs: &Vec<Seg>,
        ns: usize,
        bsp3_peak: bool,
        bis: &Vec<Bi>,
        zss: &Vec<ZS>,
        real_bsp1: Option<usize>,
        bsp1_bi_idx: Option<usize>,
        next_seg_idx: usize,
    )
        requires
            points_ok(old(self).lst@),
            points_ok(old(self).bsp1_lst@),
            ns < segs@.len(),
            crate::seg_list::bis_indexed(bis@),
        ensures
            points_ok(final(self).lst@),
            points_ok(final(self).bsp1_lst@),
            final(self).config == old(self).config,
            forall|j: int, t: BspType| #[trigger] has_label(old(self).lst@, j, t) ==> has_label(final(self).lst@, j, t),
            ({
                let next = segs@[ns as int];
                let s0 = bsp3_start(bsp1_bi_idx);
                let z0 = next.zs_lst@[0] as int;
                (next.end_bi >= next.start_bi + 2 && next.zs_lst@.len() > 0 && z0 < zss@.len()
                    && !zss@[z0].spec_is_one_bi_zs() && t3a_target(&old(self).config)) ==> forall|j: int|
                    #[trigger] scanned(s0, j, bis@.len() as int) && (forall|k: int| #[trigger] scanned_le(s0, k, j) ==> within(
                        bsp3_end(next, zss@, segs@.len() as int),
                        k,
                    ) && after_ok(bis@, k, zss@[z0], bsp3_peak, next_seg_idx as int, segs@.len() as int))
                    ==> has_label(final(self).lst@, j, BspType::T3A)
            }),
    {
        let nb0 = bis.len();
        let next = &segs[ns];
        if next.end_bi < next.start_bi || next.end_bi - next.start_bi < 2 || next.zs_lst.len() == 0 {
            return;
        }
        let zi = next.zs_lst[0];
        if zi >= zss.len() || zss[zi].is_one_bi_zs() {
            return;
        }
        let first_zs = &zss[zi];
        let end = cal_bsp3_bi_end_idx(Some(next), zss, segs.len());
        let ghost s0 = bsp3_start(bsp1_bi_idx);
        let mut i: usize = match bsp1_bi_idx {
            Some(b) => {
                if b > usize::MAX - 2 {
                    proof {
                        assert forall|j: int| #[trigger] scanned(s0, j, bis@.len() as int) implies false by {}
                    }
                    return;
                }
                b + 2
            },
            None => 1,
        };
        let ghost l_start = self.lst@;
        loop
            invariant
                zi < zss@.len(),
                nb0 == bis@.len(),
                crate::seg_list::bis_indexed(bis@),
                points_ok(self.lst@),
                points_ok(self.bsp1_lst@),
                self.config == old(self).config,
                i as int >= s0,
                (i - s0) % 2 == 0,
                l_start == old(self).lst@,
                end == bsp3_end(*next, zss@, segs@.len() as int),
                first_zs == &zss@[zi as int],
                forall|j: int, t: BspType| #[trigger] has_label(old(self).lst@, j, t) ==> has_label(self.lst@, j, t),
                t3a_target(&old(self).config) ==> forall|j: int| #[trigger] scanned(s0, j, i as int) ==> has_label(self.lst@, j, BspType::T3A),
            ensures
                t3a_target(&old(self).config) ==> forall|j: int| #[trigger] scanned(s0, j, bis@.len() as int) && (forall|k: int|
                    #[trigger] scanned_le(s0, k, j) ==> within(end, k) && after_ok(bis@, k, zss@[zi as int], bsp3_peak, next_seg_idx as int, segs@.len() as int))
                    ==> has_label(self.lst@, j, BspType::T3A),
                forall|j: int, t: BspType| #[trigger] has_label(old(self).lst@, j, t) ==> has_label(self.lst@, j, t),
                points_ok(self.lst@),
                points_ok(self.bsp1_lst@),
                self.config == old(self).config,
            decreases bis@.len() - i,
        {
            if i >= bis.len() {
                proof {
                    assert forall|j: int| t3a_target(&old(self).config) && #[trigger] scanned(s0, j, bis@.len() as int) implies has_label(self.lst@, j, BspType::T3A) by {
                        assert(scanned(s0, j, i as int));
                    }
                }
                break;
            }
            let b = &bis[i];
            let ok = match end {
                Some(e) => i <= e,
                None => true,
            } && !(b.seg_idx != Some(next_seg_idx) && next_seg_idx < segs.len() && segs.len() - next_seg_idx > 2)
                && !bsp3_back2zs(b, first_zs) && !(bsp3_peak && !bsp3_break_zspeak(b, first_zs));
            if !ok {
                proof {
                    assert(!(within(end, i as int) && after_ok(bis@, i as int, zss@[zi as int], bsp3_peak, next_seg_idx as int, segs@.len() as int)));
                    assert forall|j: int| #[trigger] scanned(s0, j, bis@.len() as int) && (forall|k: int|
                        #[trigger] scanned_le(s0, k, j) ==> within(end, k) && after_ok(bis@, k, zss@[zi as int], bsp3_peak, next_seg_idx as int, segs@.len() as int))
                        && t3a_target(&old(self).config) implies has_label(self.lst@, j, BspType::T3A) by {
                        if j >= i {
                            assert(scanned_le(s0, i as int, j));
                        } else {
                            assert(scanned(s0, j, i as int));
                        }
                    }
                }
                break;
            }
            let height = if first_zs.high >= first_zs.low { (first_zs.high as i128 - first_zs.low as i128) as u64 } else { 0 };
            proof {
                assert(b.idx == i);
                if t3a_target(&old(self).config) {
                    assert(self.config.get_bs_config_spec(b.dir == BiDir::Down).target_types@.contains(BspType::T3A));
                }
            }
            self.add_bs(BspType::T3A, b, real_bsp1, true, BspFeatures { bi_amp: b.amp(), zs_height: Some(height), divergence_out: None, divergence_in: None });
            proof {
                if t3a_target(&old(self).config) {
                    assert(has_label(self.lst@, i as int, BspType::T3A));
                }
                assert forall|j: int| t3a_target(&old(self).config) && #[trigger] scanned(s0, j, i + 1) implies has_label(self.lst@, j, BspType::T3A) by {
                    if j < i {
                        assert(scanned(s0, j, i as int));
                    }
                }
            }
            if bis.len() - i <= 2 {
                proof {
                    assert forall|j: int| t3a_target(&old(self).config) && #[trigger] scanned(s0, j, bis@.len() as int) implies has_label(self.lst@, j, BspType::T3A) by {
                        if j > i {
                            assert(false) by (nonlinear_arith)
                                requires
                                    (i - s0) % 2 == 0,
                                    (j - s0) % 2 == 0,
                                    i < j,
                                    j < bis@.len(),
                                    bis@.len() - i <= 2,
                            ;
                        }
                        assert(scanned(s0, j, i + 1));
                    }
                }
                break;
            }
            let ghost oi = i as int;
            i += 2;
            proof {
                assert forall|j: int| t3a_target(&old(self).config) && #[trigger] scanned(s0, j, i as int) implies has_label(self.lst@, j, BspType::T3A) by {
                    if j == oi + 1 {
                        assert(false) by (nonlinear_arith)
                            requires
                                (oi - s0) % 2 == 0,
                                (j - s0) % 2 == 0,
                                j == oi + 1,
                        ;
                    }
                    assert(scanned(s0, j, oi + 1));
                }
                assert((i - s0) % 2 == 0) by (nonlinear_arith)
                    requires
                        (oi - s0) % 2 == 0,
                        i == oi + 2,
                ;
            }
        }
        proof {
            assert(*next == segs@[ns as int]);
            assert(next.zs_lst@[0] == zi);
            assert(end == bsp3_end(segs@[ns as int], zss@, segs@.len() as int));
        }
    }

    /// Type-3 point before a zone: the first stroke, every second one from two
    /// after the Type-1 stroke, that stays out of the segment's last
    /// multi-stroke zone.
    fn treat_bsp3_before(
        &mut self,
        segs: &Vec<Seg>,
        si: usize,
        next_si: Option<usize>,
        bsp1_bi: Option<usize>,
        strict_bsp3: bool,
        bis: &Vec<Bi>,
        zss: &Vec<ZS>,
        real_bsp1: Option<usize>,
        next_seg_idx: usize,
    )
        requires
            points_ok(old(self).lst@),
            points_ok(old(self).bsp1_lst@),
            si < segs@.len(),
            next_si matches Some(n) ==> n < segs@.len(),
            crate::seg_list::bis_indexed(bis@),
        ensures
            points_ok(final(self).lst@),
            points_ok(final(self).bsp1_lst@),
            final(self).config == old(self).config,
            forall|j: int, t: BspType| #[trigger] has_label(old(self).lst@, j, t) ==> has_label(final(self).lst@, j, t),
            ({
                let cmp = last_multi(segs@[si as int].zs_lst@, zss@, segs@[si as int].zs_lst@.len() as int);
                let s0 = bsp3_start(bsp1_bi);
                let end = before_end(segs@, next_si, zss@);
                (bsp1_bi is Some && cmp is Some && (strict_bsp3 ==> zss@[cmp.unwrap() as int].bi_out == bsp1_bi)
                    && t3b_target(&old(self).config)) ==> forall|j: int| #[trigger] scanned(s0, j, bis@.len() as int)
                    && before_pass(bis@, j, end, next_seg_idx as int, segs@.len() as int) && !back_into(bis@[j], zss@[cmp.unwrap() as int])
                    && (forall|k: int| #[trigger] scanned(s0, k, j) ==> before_pass(bis@, k, end, next_seg_idx as int, segs@.len() as int)
                    && back_into(bis@[k], zss@[cmp.unwrap() as int])) ==> has_label(final(self).lst@, j, BspType::T3B)
            }),
    {
        let nb0 = bis.len();
        let seg = &segs[si];
        let cmp = get_final_multi_bi_zs(seg, zss);
        let (c, b1) = match (cmp, bsp1_bi) {
            (Some(c), Some(b1)) => (c, b1),
            _ => {
                return;
            },
        };
        let cmp_zs = &zss[c];
        if strict_bsp3 && cmp_zs.bi_out != Some(b1) {
            return;
        }
        let end = match next_si {
            Some(n) => cal_bsp3_bi_end_idx(Some(&segs[n]), zss, segs.len()),
            None => None,
        };
        let ghost s0 = bsp3_start(bsp1_bi);
        if b1 > usize::MAX - 2 {
            proof {
                assert forall|j: int| #[trigger] scanned(s0, j, bis@.len() as int) implies false by {}
            }
            return;
        }
        let mut i = b1 + 2;
        loop
            invariant
                nb0 == bis@.len(),
                crate::seg_list::bis_indexed(bis@),
                points_ok(self.lst@),
                points_ok(self.bsp1_lst@),
                self.config == old(self).config,
                c < zss@.len(),
                cmp_zs == &zss@[c as int],
                end == before_end(segs@, next_si, zss@),
                i as int >= s0,
                (i - s0) % 2 == 0,
                forall|j: int, t: BspType| #[trigger] has_label(old(self).lst@, j, t) ==> has_label(self.lst@, j, t),
                forall|k: int| #[trigger] scanned(s0, k, i as int) ==> before_pass(bis@, k, end, next_seg_idx as int, segs@.len() as int)
                    && back_into(bis@[k], zss@[c as int]),
            ensures
                points_ok(self.lst@),
                points_ok(self.bsp1_lst@),
                self.config == old(self).config,
                forall|j: int, t: BspType| #[trigger] has_label(old(self).lst@, j, t) ==> has_label(self.lst@, j, t),
                t3b_target(&old(self).config) ==> forall|j: int| #[trigger] scanned(s0, j, bis@.len() as int)
                    && before_pass(bis@, j, end, next_seg_idx as int, segs@.len() as int) && !back_into(bis@[j], zss@[c as int])
                    && (forall|k: int| #[trigger] scanned(s0, k, j) ==> before_pass(bis@, k, end, next_seg_idx as int, segs@.len() as int)
                    && back_into(bis@[k], zss@[c as int])) ==> has_label(self.lst@, j, BspType::T3B),
            decreases bis@.len() - i,
        {
            if i >= bis.len() {
                proof {
                    assert forall|j: int| #[trigger] scanned(s0, j, bis@.len() as int) implies back_into(bis@[j], zss@[c as int]) by {
                        assert(scanned(s0, j, i as int));
                    }
                }
                break;
            }
            let b = &bis[i];
            let _ns = segs.len();
            let pass = match end {
                Some(e) => i <= e,
                None => true,
            } && match b.seg_idx {
                Some(x) => !(x != next_seg_idx && x < _ns && _ns - x > 1),
                None => false,
            };
            if !pass {
                proof {
                    assert(!before_pass(bis@, i as int, end, next_seg_idx as int, segs@.len() as int));
                    assert forall|j: int| t3b_target(&old(self).config) && #[trigger] scanned(s0, j, bis@.len() as int)
                        && before_pass(bis@, j, end, next_seg_idx as int, segs@.len() as int) && !back_into(bis@[j], zss@[c as int])
                        && (forall|k: int| #[trigger] scanned(s0, k, j) ==> before_pass(bis@, k, end, next_seg_idx as int, segs@.len() as int)
                        && back_into(bis@[k], zss@[c as int])) implies has_label(self.lst@, j, BspType::T3B) by {
                        if j < i {
                            assert(scanned(s0, j, i as int));
                        } else if j > i {
                            assert(scanned(s0, i as int, j));
                        }
                    }
                }
                break;
            }
            if !bsp3_back2zs(b, cmp_zs) {
                let height = if cmp_zs.high >= cmp_zs.low { (cmp_zs.high as i128 - cmp_zs.low as i128) as u64 } else { 0 };
                proof {
                    assert(b.idx == i);
                    if t3b_target(&old(self).config) {
                        assert(self.config.get_bs_config_spec(b.dir == BiDir::Down).target_types@.contains(BspType::T3B));
                    }
                }
                self.add_bs(BspType::T3B, b, real_bsp1, true, BspFeatures { bi_amp: b.amp(), zs_height: Some(height), divergence_out: None, divergence_in: None });
                proof {
                    assert forall|j: int| t3b_target(&old(self).config) && #[trigger] scanned(s0, j, bis@.len() as int)
                        && before_pass(bis@, j, end, next_seg_idx as int, segs@.len() as int) && !back_into(bis@[j], zss@[c as int])
                        && (forall|k: int| #[trigger] scanned(s0, k, j) ==> before_pass(bis@, k, end, next_seg_idx as int, segs@.len() as int)
                        && back_into(bis@[k], zss@[c as int])) implies has_label(self.lst@, j, BspType::T3B) by {
                        if j < i {
                            assert(scanned(s0, j, i as int));
                        } else if j > i {
                            assert(scanned(s0, i as int, j));
                        }
                    }
                }
                break;
            }
            if bis.len() - i <= 2 {
                proof {
                    assert forall|j: int| #[trigger] scanned(s0, j, bis@.len() as int) implies j <= i by {
                        if j > i {
                            assert(false) by (nonlinear_arith)
                                requires
                                    (i - s0) % 2 == 0,
                                    (j - s0) % 2 == 0,
                                    i < j,
                                    j < bis@.len(),
                                    bis@.len() - i <= 2,
                            ;
                        }
                    }
                    assert forall|j: int| #[trigger] scanned(s0, j, bis@.len() as int) implies back_into(bis@[j], zss@[c as int]) by {
                        if j < i {
                            assert(scanned(s0, j, i as int));
                        }
                    }
                }
                break;
            }
            let ghost oi = i as int;
            i += 2;
            proof {
                assert forall|k: int| #[trigger] scanned(s0, k, i as int) implies before_pass(bis@, k, end, next_seg_idx as int, segs@.len() as int)
                    && back_into(bis@[k], zss@[c as int]) by {
                    if k == oi + 1 {
                        assert(false) by (nonlinear_arith)
                            requires
                                (oi - s0) % 2 == 0,
                                (k - s0) % 2 == 0,
                                k == oi + 1,
                        ;
                    }
                    if k < oi {
                        assert(scanned(s0, k, oi));
                    }
                }
                assert((i - s0) % 2 == 0) by (nonlinear_arith)
                    requires
                        (oi - s0) % 2 == 0,
                        i == oi + 2,
                ;
            }
        }
        proof {
            assert(cmp == last_multi(segs@[si as int].zs_lst@, zss@, segs@[si as int].zs_lst@.len() as int));
        }
    }

    /// Type-3 points for every segment not yet settled.
    pub fn cal_seg_bs3point(&mut self, segs: &Vec<Seg>, bis: &Vec<Bi>, zss: &Vec<ZS>)
        requires
            crate::seg_list::bis_indexed(bis@),
            points_ok(old(self).lst@),
            points_ok(old(self).bsp1_lst@),
        ensures
            points_ok(final(self).lst@),
            points_ok(final(self).bsp1_lst@),
            final(self).config == old(self).config,
            forall|j: int, t: BspType| #[trigger] has_label(old(self).lst@, j, t) ==> has_label(final(self).lst@, j, t),
    {
        let n = segs.len();
        let mut si: usize = 0;
        while si < n
            invariant
                n == segs@.len(),
                crate::seg_list::bis_indexed(bis@),
                self.config == old(self).config,
                forall|j: int, t: BspType| #[trigger] has_label(old(self).lst@, j, t) ==> has_label(self.lst@, j, t),
                points_ok(self.lst@),
                points_ok(self.bsp1_lst@),
            decreases n - si,
        {
            let seg = &segs[si];
            if self.seg_need_cal(seg) {
                let nz = seg.zs_lst.len();
                let out = if nz > 0 && seg.zs_lst[nz - 1] < zss.len() { zss[seg.zs_lst[nz - 1]].bi_out } else { None };
                let (conf_buy, next_si, next_seg_idx, real_bsp1, bsp1_bi) = match out {
                    Some(o) => {
                        let related = if find_point(&self.bsp1_lst, o).is_some() { Some(o) } else { None };
                        (seg.is_down(), if si + 1 < n { Some(si + 1) } else { None }, si + 1, related, Some(o))
                    },
                    None => (seg.is_up(), Some(si), si, None, None),
                };
                let (follow, peak, strict) = {
                    let conf = self.config.get_bs_config(conf_buy);
                    (conf.bsp3_follow_1, conf.bsp3_peak, conf.strict_bsp3)
                };
                let has_bsp1 = match bsp1_bi {
                    Some(b) => find_point(&self.lst, b).is_some(),
                    None => false,
                };
                if !(follow && !has_bsp1) {
                    match next_si {
                        Some(ns) => self.treat_bsp3_after(segs, ns, peak, bis, zss, real_bsp1, bsp1_bi, next_seg_idx),
                        None => {},
                    }
                    self.treat_bsp3_before(segs, si, next_si, bsp1_bi, strict, bis, zss, real_bsp1, next_seg_idx);
                }
            }
            si += 1;
        }
    }

    /// Recomputes the points: drops those from the last confirmed position on,
    /// then looks for Type-1, Type-2 (and strict Type-2) and Type-3 points in
    /// the segments not yet settled.
    pub fn cal(&mut self, bis: &Vec<Bi>, segs: &Vec<Seg>, zss: &Vec<ZS>, units: &Vec<KLineUnit>, klcs: &Vec<KLine>) -> (r: Result<(), ChanError>)
        requires
            crate::seg_list::bis_indexed(bis@),
            points_ok(old(self).lst@),
            points_ok(old(self).bsp1_lst@),
        ensures
            points_ok(final(self).lst@),
            points_ok(final(self).bsp1_lst@),
    {
        let mut cur: Vec<BSPoint> = Vec::new();
        std::mem::swap(&mut cur, &mut self.lst);
        self.lst = keep_before(cur, self.last_sure_pos);
        let mut cur1: Vec<BSPoint> = Vec::new();
        std::mem::swap(&mut cur1, &mut self.bsp1_lst);
        self.bsp1_lst = keep_before(cur1, self.last_sure_pos);
        let n = segs.len();
        let mut si: usize = 0;
        while si < n
            invariant
                n == segs@.len(),
                points_ok(self.lst@),
                points_ok(self.bsp1_lst@),
            decreases n - si,
        {
            if self.seg_need_cal(&segs[si]) {
                self.cal_single_bs1point(&segs[si], bis, zss, units, klcs)?;
            }
            si += 1;
        }
        let follow2s = self.config.b_conf.bsp2s_follow_2 || self.config.s_conf.bsp2s_follow_2;
        si = 0;
        while si < n
            invariant
                n == segs@.len(),
                points_ok(self.lst@),
                points_ok(self.bsp1_lst@),
            decreases n - si,
        {
            if self.seg_need_cal(&segs[si]) {
                self.cal_single_bs2point(&segs[si], bis, zss);
                if follow2s {
                    self.cal_single_bs2s_point(&segs[si], bis);
                }
            }
            si += 1;
        }
        self.cal_seg_bs3point(segs, bis, zss);
        self.update_last_pos(segs);
        Ok(())
    }
}

} // verus!
