use vstd::prelude::*;
use crate::bi::BiConfig;
use crate::bi_list::{lemma_bilist_frame, stroke_ok, BiList};
use crate::bsp::{points_ok, BSPointConfig, BSPointList};
use crate::cenum::SegType;
use crate::chan_exception::ChanError;
use crate::kline::{lemma_fold_step_prefix, max4, min4, spec_fold_step, KLineList, KLineUnit};
use crate::seg::{seg_ok, segs_ok, SegConfig};
use crate::seg_list::{bis_indexed, SegListChan};
use crate::zs::ZSConfig;
use crate::zs_list::{bis_ranges_ok, zone_list_ok, zone_scanned, ZSList};

verus! {

/// Settings of the whole analysis.
#[derive(Debug)]
pub struct ChanConfig {
    pub bi_conf: BiConfig,
    pub seg_conf: SegConfig,
    pub zs_conf: ZSConfig,
    pub bs_point_conf: BSPointConfig,
    /// Recompute segments and zones after every bar, with tentative strokes.
    pub trigger_step: bool,
    /// Repair a bar whose low or high is not the extreme of its prices.
    pub autofix: bool,
}

impl ChanConfig {
    pub fn default() -> (r: Self)
        ensures
            r.trigger_step,
            !r.autofix,
    {
        ChanConfig {
            bi_conf: BiConfig::default(),
            seg_conf: SegConfig::default(),
            zs_conf: ZSConfig::default(),
            bs_point_conf: BSPointConfig::default(),
            trigger_step: true,
            autofix: false,
        }
    }
}

/// The pipeline: bars, merged bars, strokes, segments and zones of one series.
#[derive(Debug)]
pub struct Analyzer {
    pub kline_list: KLineList,
    pub bi_list: BiList,
    pub seg_list: SegListChan,
    pub zs_list: ZSList,
    pub bs_point_lst: BSPointList,
    pub step_calculation: bool,
    pub autofix: bool,
}

pub proof fn lemma_strokes_indexed(bl: &BiList, klcs: Seq<crate::kline::KLine>)
    requires
        bl.wf(klcs),
    ensures
        bis_indexed(bl.bi_list@),
        bis_ranges_ok(bl.bi_list@),
{
    assert forall|i: int| 0 <= i < bl.bi_list@.len() implies (#[trigger] bl.bi_list@[i]).idx == i by {
        assert(stroke_ok(&bl.config, klcs, bl.bi_list@, i));
    }
    assert forall|i: int| 0 <= i < bl.bi_list@.len() implies (#[trigger] bl.bi_list@[i]).spec_low() <= bl.bi_list@[i].spec_high() by {
        assert(stroke_ok(&bl.config, klcs, bl.bi_list@, i));
    }
}

/// A bar with its low and high widened to the extremes of its four prices.
pub open spec fn repaired(u: KLineUnit) -> KLineUnit {
    KLineUnit {
        low: min4(u.low as int, u.open as int, u.high as int, u.close as int) as i64,
        high: max4(u.low as int, u.open as int, u.high as int, u.close as int) as i64,
        ..u
    }
}

/// Widens a bar's low and high to the extremes of its four prices.
pub fn repair(u: &KLineUnit) -> (r: KLineUnit)
    ensures
        r == repaired(*u),
        r.spec_valid(),
{
    let fixed = KLineUnit::new(u.idx, u.time, u.open, u.high, u.low, u.close, u.volume, true);
    match fixed {
        Ok(f) => KLineUnit { macd: u.macd, turnover: u.turnover, turnrate: u.turnrate, ..f },
        Err(_) => *u,
    }
}

/// The zone's entering and leaving strokes are the ones next to it, when they exist.
pub open spec fn links_ok(z: crate::zs::ZS, nb: int) -> bool {
    &&& z.bi_in == (if z.begin_bi > 0 { Some((z.begin_bi - 1) as usize) } else { None })
    &&& z.bi_out == (if z.end_bi + 1 < nb { Some((z.end_bi + 1) as usize) } else { None })
}

/// Segment `x` (as it was, in `segs0` over zones `zs0`) now lists, in
/// ascending order, the zones a scan down from the last zone reaches whose
/// first stroke lies inside it; it is settled exactly when at least three
/// confirmed segments start at it or later; and each zone the scan reaches
/// has its entering and leaving strokes recorded.
pub open spec fn attached(
    segs: Seq<crate::seg::Seg>,
    zs: Seq<crate::zs::ZS>,
    segs0: Seq<crate::seg::Seg>,
    zs0: Seq<crate::zs::ZS>,
    x: int,
    nb: int,
) -> bool {
    let seg = segs0[x];
    &&& zone_list_ok(segs[x].zs_lst@, zs0, seg.start_bi as int, seg.end_bi as int)
    &&& segs[x].ele_inside_is_sure == (sure_count(segs0, x) >= 3)
    &&& forall|z: int| 0 <= z < zs0.len() && zone_scanned(zs0, z, seg.start_bi as int) ==> links_ok(#[trigger] zs[z], nb)
}

/// Confirmed segments from index `i` on.
pub open spec fn sure_count(segs: Seq<crate::seg::Seg>, i: int) -> int
    decreases segs.len() - i,
{
    if i < 0 || i >= segs.len() {
        0
    } else {
        (if segs[i].is_sure { 1int } else { 0 }) + sure_count(segs, i + 1)
    }
}

pub open spec fn min3(x: int) -> int {
    if x > 3 { 3 } else { x }
}

/// Segment `si` and every later one are not yet settled.
pub open spec fn unsettled_from(segs: Seq<crate::seg::Seg>, si: int) -> bool {
    0 <= si < segs.len() && forall|j: int| si <= j < segs.len() ==> !(#[trigger] segs[j]).ele_inside_is_sure
}

proof fn lemma_zone_list_same(l: Seq<usize>, a: Seq<crate::zs::ZS>, b: Seq<crate::zs::ZS>, start: int, end: int)
    requires
        a.len() == b.len(),
        forall|j: int| 0 <= j < a.len() ==> (#[trigger] a[j]).begin_bi == b[j].begin_bi && a[j].end_bi == b[j].end_bi,
        zone_list_ok(l, a, start, end),
    ensures
        zone_list_ok(l, b, start, end),
        forall|z: int| 0 <= z < a.len() ==> zone_scanned(a, z, start) == zone_scanned(b, z, start),
{
    assert forall|z: int| 0 <= z < a.len() implies zone_scanned(a, z, start) == zone_scanned(b, z, start) by {
        if zone_scanned(a, z, start) {
            assert forall|w: int| z <= w < b.len() implies #[trigger] b[w].end_bi >= start by {
                assert(a[w].end_bi >= start);
            }
        }
        if zone_scanned(b, z, start) {
            assert forall|w: int| z <= w < a.len() implies #[trigger] a[w].end_bi >= start by {
                assert(b[w].end_bi >= start);
            }
        }
    }
    assert forall|z: int| 0 <= z < b.len() implies (l.contains(z as usize) <==> zone_scanned(b, z, start) && start
        <= #[trigger] b[z].begin_bi <= end) by {
        assert(a[z].begin_bi == b[z].begin_bi);
    }
}

/// Index of the segment that holds stroke `k`, or the one after the last
/// segment for a stroke past it.
pub open spec fn spec_seg_of(segs: Seq<crate::seg::Seg>, k: int) -> Option<usize> {
    if segs.len() > 0 && k > segs.last().end_bi {
        Some(segs.len() as usize)
    } else {
        Some((choose|j: int| 0 <= j < segs.len() && (#[trigger] segs[j]).start_bi <= k <= segs[j].end_bi) as usize)
    }
}

/// Contiguous segments hold each stroke in exactly one of them.
proof fn lemma_seg_unique(segs: Seq<crate::seg::Seg>, a: int, b: int, k: int)
    requires
        forall|j: int| 0 <= j < segs.len() ==> #[trigger] seg_ok(segs, j),
        0 <= a < segs.len(),
        0 <= b < segs.len(),
        segs[a].start_bi <= k <= segs[a].end_bi,
        segs[b].start_bi <= k <= segs[b].end_bi,
    ensures
        a == b,
{
    if a < b {
        lemma_end_increasing(segs, a, b - 1);
        assert(seg_ok(segs, b));
    } else if b < a {
        lemma_end_increasing(segs, b, a - 1);
        assert(seg_ok(segs, a));
    }
}

proof fn lemma_end_increasing(segs: Seq<crate::seg::Seg>, a: int, b: int)
    requires
        forall|j: int| 0 <= j < segs.len() ==> #[trigger] seg_ok(segs, j),
        0 <= a <= b < segs.len(),
    ensures
        segs[a].end_bi <= segs[b].end_bi,
        segs[a].start_bi <= segs[b].start_bi,
    decreases b - a,
{
    if a < b {
        lemma_end_increasing(segs, a, b - 1);
        assert(seg_ok(segs, b));
        assert(seg_ok(segs, b - 1));
    }
}

proof fn lemma_in_seg(segs: Seq<crate::seg::Seg>, j: int, k: int)
    requires
        forall|i: int| 0 <= i < segs.len() ==> #[trigger] seg_ok(segs, i),
        0 <= j < segs.len(),
        segs[j].start_bi <= k <= segs[j].end_bi,
    ensures
        spec_seg_of(segs, k) == Some(j as usize),
{
    lemma_end_increasing(segs, j, segs.len() - 1);
    assert(0 <= j < segs.len() && segs[j].start_bi <= k <= segs[j].end_bi);
    let c = choose|i: int| 0 <= i < segs.len() && (#[trigger] segs[i]).start_bi <= k <= segs[i].end_bi;
    lemma_seg_unique(segs, c, j, k);
}

proof fn lemma_past_last(segs: Seq<crate::seg::Seg>, k: int)
    requires
        segs.len() > 0,
        k > segs.last().end_bi,
    ensures
        spec_seg_of(segs, k) == Some(segs.len() as usize),
{
}

impl Analyzer {
    /// Every layer holds its invariant over the layer below.
    pub open spec fn wf(&self) -> bool {
        &&& self.kline_list.wf()
        &&& self.bi_list.wf(self.kline_list.lst@)
        &&& forall|k: int| 0 <= k < self.seg_list.lst@.len() ==> #[trigger] seg_ok(self.seg_list.lst@, k)
        &&& self.zs_list.wf()
        &&& points_ok(self.bs_point_lst.lst@)
        &&& points_ok(self.bs_point_lst.bsp1_lst@)
    }

    pub fn new(kl_type: String, conf: ChanConfig) -> (r: Self)
        ensures
            r.wf(),
            r.kline_list.units@.len() == 0,
            r.step_calculation == conf.trigger_step,
    {
        let bi_list = BiList::new(conf.bi_conf);
        let kline_list = KLineList::new(kl_type);
        Analyzer {
            kline_list,
            bi_list,
            seg_list: SegListChan::new(conf.seg_conf, SegType::Bi),
            zs_list: ZSList::new(conf.zs_conf),
            bs_point_lst: BSPointList::new(conf.bs_point_conf),
            step_calculation: conf.trigger_step,
            autofix: conf.autofix,
        }
    }

    /// Appends one bar and updates the merged bars and strokes; in step mode
    /// also segments and zones when the strokes changed. A bar rejected as
    /// invalid or out of time order leaves everything as it was.
    #[verifier::rlimit(60)]
    pub fn add_single_klu(&mut self, klu: KLineUnit) -> (r: Result<(), ChanError>)
        requires
            old(self).wf(),
        ensures
            final(self).wf(),
            ({
                let v = if old(self).autofix { repaired(klu) } else { klu };
                &&& (!v.spec_valid() || (old(self).kline_list.units@.len() > 0 && v.time
                    <= old(self).kline_list.units@.last().time)) ==> r.is_err()
                    && final(self).kline_list.units@ == old(self).kline_list.units@
                    && final(self).kline_list.lst@ == old(self).kline_list.lst@
                    && final(self).bi_list.bi_list@ == old(self).bi_list.bi_list@
                    && final(self).seg_list.lst@ == old(self).seg_list.lst@
                &&& r.is_ok() ==> final(self).kline_list.units@ == old(self).kline_list.units@.push(
                    KLineUnit { idx: old(self).kline_list.units@.len() as usize, ..v },
                ) && final(self).kline_list.lst@ == spec_fold_step(
                    old(self).kline_list.lst@,
                    KLineUnit { idx: old(self).kline_list.units@.len() as usize, ..v },
                )
            }),
    {
        let klu = if self.autofix { repair(&klu) } else { klu };
        let old_len = self.kline_list.len();
        let ghost old_klcs = self.kline_list.lst@;
        let ghost u = KLineUnit { idx: self.kline_list.units@.len() as usize, ..klu };
        self.kline_list.add_single_klu(klu)?;
        proof {
            lemma_fold_step_prefix(old_klcs, u);
            lemma_bilist_frame(&self.bi_list, old_klcs, self.kline_list.lst@);
        }
        let n = self.kline_list.len();
        let changed = if n > old_len && n >= 2 {
            self.bi_list.update_bi(&self.kline_list.lst, self.step_calculation)?
        } else if self.step_calculation {
            let last = self.kline_list.lst[n - 1];
            proof {
                assert(crate::kline::kl_item_ok(self.kline_list.lst@, n - 1));
            }
            self.bi_list.try_add_virtual_bi(&self.kline_list.lst, &last, true)?
        } else {
            false
        };
        if changed && self.step_calculation {
            self.cal_seg_and_zs()?;
        }
        Ok(())
    }
}

impl Analyzer {
    /// Recomputes segments, the segment of each stroke, the zones, the zones
    /// of each segment, and the buy/sell points.
    pub fn cal_seg_and_zs(&mut self) -> (r: Result<(), ChanError>)
        requires
            old(self).wf(),
        ensures
            final(self).wf(),
            final(self).kline_list.units@ == old(self).kline_list.units@,
            final(self).kline_list.lst@ == old(self).kline_list.lst@,
            r.is_ok() ==> segs_ok(final(self).seg_list.lst@, final(self).bi_list.bi_list@.len() as int),
    {
        proof {
            lemma_strokes_indexed(&self.bi_list, self.kline_list.lst@);
        }
        self.seg_list.update(&self.bi_list.bi_list)?;
        self.cal_seg();
        proof {
            lemma_strokes_indexed(&self.bi_list, self.kline_list.lst@);
        }
        self.zs_list.cal_bi_zs(&self.bi_list.bi_list, &self.seg_list.lst)?;
        self.update_zs_in_seg();
        proof {
            lemma_strokes_indexed(&self.bi_list, self.kline_list.lst@);
        }
        self.bs_point_lst.cal(&self.bi_list.bi_list, &self.seg_list.lst, &self.zs_list.zs_lst, &self.kline_list.units, &self.kline_list.lst)?;
        Ok(())
    }

    /// Sets the segment of each stroke not yet settled: the segment that holds
    /// it, or the one after the last segment for strokes past it.
    fn cal_seg(&mut self)
        requires
            old(self).wf(),
            segs_ok(old(self).seg_list.lst@, old(self).bi_list.bi_list@.len() as int),
        ensures
            final(self).wf(),
            final(self).kline_list.units@ == old(self).kline_list.units@,
            final(self).kline_list.lst@ == old(self).kline_list.lst@,
            final(self).seg_list.lst@ == old(self).seg_list.lst@,
            final(self).bi_list.bi_list@.len() == old(self).bi_list.bi_list@.len(),
            final(self).seg_list.lst@.len() > 0 ==> forall|k: int| final(self).seg_list.lst@.last().start_bi <= k
                < final(self).bi_list.bi_list@.len() ==> #[trigger] final(self).bi_list.bi_list@[k].seg_idx
                == spec_seg_of(final(self).seg_list.lst@, k),
    {
        let ghost klcs = self.kline_list.lst@;
        let nb = self.bi_list.bi_list.len();
        let ns = self.seg_list.lst.len();
        if ns == 0 {
            let mut i: usize = 0;
            while i < nb
                invariant
                    self.bi_list.wf(klcs),
                    klcs == self.kline_list.lst@,
                    self.bi_list.bi_list@.len() == nb,
                    self.kline_list.units@ == old(self).kline_list.units@,
                    self.kline_list.wf(),
                    self.seg_list.lst@ == old(self).seg_list.lst@,
                    self.zs_list.wf(),
                    points_ok(self.bs_point_lst.lst@),
                    points_ok(self.bs_point_lst.bsp1_lst@),
                    forall|k: int| 0 <= k < self.seg_list.lst@.len() ==> #[trigger] seg_ok(self.seg_list.lst@, k),
                decreases nb - i,
            {
                self.bi_list.set_seg_idx(Ghost(klcs), i, 0);
                i += 1;
            }
            return;
        }
        let mut sure_cnt: usize = 0;
        let mut begin: usize = ns - 1;
        let mut k: usize = ns;
        while k > 0
            invariant
                k <= ns,
                begin < ns,
                ns == self.seg_list.lst@.len(),
            decreases k,
        {
            if self.seg_list.lst[k - 1].is_sure {
                sure_cnt = if sure_cnt < 3 { sure_cnt + 1 } else { 3 };
            } else {
                sure_cnt = 0;
            }
            begin = k - 1;
            if sure_cnt > 2 {
                break;
            }
            k -= 1;
        }
        let begin_start = self.seg_list.lst[begin].start_bi;
        proof {
            lemma_end_increasing(self.seg_list.lst@, begin as int, ns - 1);
        }
        let mut cur: usize = ns - 1;
        let mut i: usize = nb;
        proof {
            assert(seg_ok(self.seg_list.lst@, ns - 1));
        }
        while i > 0
            invariant
                i <= nb,
                cur < ns,
                ns == self.seg_list.lst@.len(),
                self.bi_list.wf(klcs),
                klcs == self.kline_list.lst@,
                self.bi_list.bi_list@.len() == nb,
                self.kline_list.units@ == old(self).kline_list.units@,
                self.kline_list.wf(),
                self.seg_list.lst@ == old(self).seg_list.lst@,
                self.zs_list.wf(),
                points_ok(self.bs_point_lst.lst@),
                points_ok(self.bs_point_lst.bsp1_lst@),
                forall|k: int| 0 <= k < self.seg_list.lst@.len() ==> #[trigger] seg_ok(self.seg_list.lst@, k),
                self.seg_list.lst@[cur as int].start_bi <= i,
                cur + 1 < ns ==> i <= self.seg_list.lst@[cur as int].end_bi + 1,
                forall|k: int| i <= k < nb ==> #[trigger] self.bi_list.bi_list@[k].seg_idx == spec_seg_of(self.seg_list.lst@, k),
                begin_start <= self.seg_list.lst@[ns - 1].start_bi,
            ensures
                i <= self.seg_list.lst@[ns - 1].start_bi,
                forall|k: int| i <= k < nb ==> #[trigger] self.bi_list.bi_list@[k].seg_idx == spec_seg_of(self.seg_list.lst@, k),
            decreases i,
        {
            let bi_idx = i - 1;
            let has = self.bi_list.bi_list[bi_idx].seg_idx.is_some();
            if has && bi_idx < begin_start {
                assert(i <= self.seg_list.lst@[ns - 1].start_bi);
                break;
            }
            proof {
                assert(seg_ok(self.seg_list.lst@, cur as int));
                assert(seg_ok(self.seg_list.lst@, ns - 1));
            }
            if bi_idx > self.seg_list.lst[cur].end_bi {
                proof {
                    lemma_past_last(self.seg_list.lst@, bi_idx as int);
                }
                self.bi_list.set_seg_idx(Ghost(klcs), bi_idx, cur + 1);
            } else {
                if bi_idx < self.seg_list.lst[cur].start_bi && cur > 0 {
                    proof {
                        assert(seg_ok(self.seg_list.lst@, cur - 1));
                    }
                    cur -= 1;
                }
                proof {
                    assert(seg_ok(self.seg_list.lst@, cur as int));
                    lemma_in_seg(self.seg_list.lst@, cur as int, bi_idx as int);
                }
                self.bi_list.set_seg_idx(Ghost(klcs), bi_idx, cur);
            }
            i -= 1;
        }
    }

    /// Attaches to each segment not yet settled the zones that start inside
    /// it, and records each such zone's entering and leaving strokes. A segment
    /// followed by enough confirmed ones is marked settled.
    fn update_zs_in_seg(&mut self)
        requires
            old(self).wf(),
            segs_ok(old(self).seg_list.lst@, old(self).bi_list.bi_list@.len() as int),
        ensures
            final(self).wf(),
            final(self).kline_list.units@ == old(self).kline_list.units@,
            final(self).kline_list.lst@ == old(self).kline_list.lst@,
            final(self).bi_list.bi_list@ == old(self).bi_list.bi_list@,
            segs_ok(final(self).seg_list.lst@, final(self).bi_list.bi_list@.len() as int),
            final(self).seg_list.lst@.len() == old(self).seg_list.lst@.len(),
            final(self).zs_list.zs_lst@.len() == old(self).zs_list.zs_lst@.len(),
            forall|si: int| #[trigger] unsettled_from(old(self).seg_list.lst@, si) ==> attached(
                final(self).seg_list.lst@,
                final(self).zs_list.zs_lst@,
                old(self).seg_list.lst@,
                old(self).zs_list.zs_lst@,
                si,
                old(self).bi_list.bi_list@.len() as int,
            ),
    {
        let nb = self.bi_list.bi_list.len();
        let ns = self.seg_list.lst.len();
        let nz = self.zs_list.zs_lst.len();
        let ghost segs0 = self.seg_list.lst@;
        let ghost zs0 = self.zs_list.zs_lst@;
        let mut sure_cnt: usize = 0;
        let mut k: usize = ns;
        while k > 0
            invariant
                k <= ns,
                ns == self.seg_list.lst@.len(),
                nz == self.zs_list.zs_lst@.len(),
                nb == self.bi_list.bi_list@.len(),
                segs0 == old(self).seg_list.lst@,
                zs0 == old(self).zs_list.zs_lst@,
                zs0.len() == nz,
                segs0.len() == ns,
                self.wf(),
                self.bi_list.bi_list@ == old(self).bi_list.bi_list@,
                self.kline_list.units@ == old(self).kline_list.units@,
                self.kline_list.lst@ == old(self).kline_list.lst@,
                segs_ok(self.seg_list.lst@, nb as int),
                self.zs_list.config == old(self).zs_list.config,
                sure_cnt as int == min3(sure_count(segs0, k as int)),
                unsettled_from(segs0, k as int) || k == ns,
                forall|j: int| 0 <= j < nz ==> (#[trigger] self.zs_list.zs_lst@[j]).begin_bi == zs0[j].begin_bi
                    && self.zs_list.zs_lst@[j].end_bi == zs0[j].end_bi,
                forall|j: int| 0 <= j < ns ==> (#[trigger] self.seg_list.lst@[j]).start_bi == segs0[j].start_bi
                    && self.seg_list.lst@[j].end_bi == segs0[j].end_bi && self.seg_list.lst@[j].is_sure == segs0[j].is_sure
                    && (j < k ==> self.seg_list.lst@[j].ele_inside_is_sure == segs0[j].ele_inside_is_sure),
                forall|x: int| k <= x < ns ==> #[trigger] attached(self.seg_list.lst@, self.zs_list.zs_lst@, segs0, zs0, x, nb as int),
            ensures
                forall|si: int| #[trigger] unsettled_from(segs0, si) ==> k <= si,
            decreases k,
        {
            let si = k - 1;
            if self.seg_list.lst[si].ele_inside_is_sure {
                proof {
                    assert forall|x: int| #[trigger] unsettled_from(segs0, x) implies k <= x by {
                        if x < k {
                            assert(self.seg_list.lst@[si as int].ele_inside_is_sure == segs0[si as int].ele_inside_is_sure);
                            assert(segs0[si as int].ele_inside_is_sure);
                        }
                    }
                }
                break;
            }
            if self.seg_list.lst[si].is_sure && sure_cnt < 3 {
                sure_cnt += 1;
            }
            let start = self.seg_list.lst[si].start_bi;
            let end = self.seg_list.lst[si].end_bi;
            let (asc, stop) = self.zs_list.zones_starting_in(start, end);
            proof {
                lemma_zone_list_same(asc@, self.zs_list.zs_lst@, zs0, start as int, end as int);
            }
            let ghost zs_in = self.zs_list.zs_lst@;
            let ghost segs_in = self.seg_list.lst@;

            let mut z = stop;
            while z < nz
                invariant
                    stop <= z <= nz,
                    nz == self.zs_list.zs_lst@.len(),
                    nb == self.bi_list.bi_list@.len(),
                    self.zs_list.config == old(self).zs_list.config,
                    self.wf(),
                    si < ns,
                    ns == self.seg_list.lst@.len(),
                    self.bi_list.bi_list@ == old(self).bi_list.bi_list@,
                    self.kline_list.units@ == old(self).kline_list.units@,
                    self.kline_list.lst@ == old(self).kline_list.lst@,
                    segs_ok(self.seg_list.lst@, nb as int),
                    forall|j: int| 0 <= j < nz ==> (#[trigger] self.zs_list.zs_lst@[j]).begin_bi == zs0[j].begin_bi
                        && self.zs_list.zs_lst@[j].end_bi == zs0[j].end_bi,
                    zs0.len() == nz,
                    zs_in.len() == nz,
                    self.seg_list.lst@ == segs_in,
                    forall|j: int| 0 <= j < nz && links_ok(zs_in[j], nb as int) ==> links_ok(#[trigger] self.zs_list.zs_lst@[j], nb as int),
                    forall|j: int| stop <= j < z ==> links_ok(#[trigger] self.zs_list.zs_lst@[j], nb as int),
                decreases nz - z,
            {
                let zbegin = self.zs_list.zs_lst[z].begin_bi;
                let zend = self.zs_list.zs_lst[z].end_bi;
                let bi_in = if zbegin > 0 { Some(zbegin - 1) } else { None };
                let bi_out = if zend < nb && nb - zend > 1 { Some(zend + 1) } else { None };
                let ghost before = self.zs_list.zs_lst@;
                self.zs_list.set_zone_links(z, bi_in, bi_out);
                proof {
                    assert forall|j: int| 0 <= j < nz && links_ok(zs_in[j], nb as int) implies links_ok(#[trigger] self.zs_list.zs_lst@[j], nb as int) by {
                        if j != z {
                            assert(self.zs_list.zs_lst@[j] == before[j]);
                        }
                    }
                    assert forall|j: int| stop <= j < z + 1 implies links_ok(#[trigger] self.zs_list.zs_lst@[j], nb as int) by {
                        if j != z {
                            assert(self.zs_list.zs_lst@[j] == before[j]);
                        }
                    }
                }
                z += 1;
            }
            assert(self.seg_list.wf(nb as int));
            let ghost asc_v = asc@;
            let ghost segs_pre = self.seg_list.lst@;
            assert(segs_pre == segs_in);
            self.seg_list.set_zones(si, asc, sure_cnt > 2);
            assert(self.seg_list.wf(nb as int));
            proof {
                assert(sure_count(segs0, si as int) == (if segs0[si as int].is_sure { 1int } else { 0 }) + sure_count(segs0, k as int));
                assert(self.seg_list.lst@[si as int].zs_lst@ == asc_v);
                assert forall|j: int| 0 <= j < ns implies (#[trigger] self.seg_list.lst@[j]).start_bi == segs0[j].start_bi
                    && self.seg_list.lst@[j].end_bi == segs0[j].end_bi && self.seg_list.lst@[j].is_sure == segs0[j].is_sure
                    && (j < si ==> self.seg_list.lst@[j].ele_inside_is_sure == segs0[j].ele_inside_is_sure) by {
                    assert(segs_in[j].start_bi == segs0[j].start_bi && segs_in[j].end_bi == segs0[j].end_bi
                        && segs_in[j].is_sure == segs0[j].is_sure);
                    if j < k {
                        assert(segs_in[j].ele_inside_is_sure == segs0[j].ele_inside_is_sure);
                    }
                    if j != si {
                        assert(self.seg_list.lst@[j] == segs_in[j]);
                    } else {
                        assert(self.seg_list.lst@[j].end_bi == segs_pre[j].end_bi);
                        assert(self.seg_list.lst@[j].start_bi == segs_pre[j].start_bi);
                        assert(self.seg_list.lst@[j].is_sure == segs_pre[j].is_sure);
                    }
                }
                assert forall|zz: int| 0 <= zz < nz && zone_scanned(zs0, zz, segs0[si as int].start_bi as int)
                    implies links_ok(#[trigger] self.zs_list.zs_lst@[zz], nb as int) by {
                    assert(zone_scanned(zs_in, zz, start as int));
                    assert(stop <= zz);
                }
                assert(zone_list_ok(self.seg_list.lst@[si as int].zs_lst@, zs0, segs0[si as int].start_bi as int, segs0[si as int].end_bi as int));
                assert(self.seg_list.lst@[si as int].ele_inside_is_sure == (sure_count(segs0, si as int) >= 3));
                assert forall|x: int| si <= x < ns implies #[trigger] attached(self.seg_list.lst@, self.zs_list.zs_lst@, segs0, zs0, x, nb as int) by {
                    if x > si {
                        assert(attached(segs_in, zs_in, segs0, zs0, x, nb as int));
                        assert(self.seg_list.lst@[x] == segs_in[x]);
                        assert forall|zz: int| 0 <= zz < nz && zone_scanned(zs0, zz, segs0[x].start_bi as int)
                            implies links_ok(#[trigger] self.zs_list.zs_lst@[zz], nb as int) by {
                            assert(links_ok(zs_in[zz], nb as int));
                        }
                    }
                }
            }
            let ghost prev_k = k;
            k -= 1;
            assert(k == si);
            assert(sure_cnt as int == min3(sure_count(segs0, k as int)));
            assert(unsettled_from(segs0, k as int));
        }
    }

    /// Appends bars in order; in batch mode segments and zones are computed
    /// once at the end.
    pub fn update(&mut self, klus: &Vec<KLineUnit>) -> (r: Result<(), ChanError>)
        requires
            old(self).wf(),
        ensures
            final(self).wf(),
    {
        let mut i: usize = 0;
        while i < klus.len()
            invariant
                self.wf(),
            decreases klus@.len() - i,
        {
            self.add_single_klu(klus[i])?;
            i += 1;
        }
        if !self.step_calculation {
            self.cal_seg_and_zs()?;
        }
        Ok(())
    }
}

} // verus!
