use vstd::prelude::*;
use crate::bi::{
    bi_check_ok, check_fx_valid, end_is_peak, gap_count, is_fractal, klc_span, lemma_begin_klu_increasing,
    opposite_fx, satisfy_bi_span, span_ok, spec_bi_dir, spec_check_fx_valid, spec_end_is_peak, Bi, BiConfig,
};
use crate::cenum::{BiDir, FxType, KlineDir};
use crate::chan_exception::ChanError;
use crate::kline::{kl_item_ok, kl_link_ok, klcs_shape, prefix_kept, KLine};

verus! {

/// `k` is the copy of a settled fractal merged bar of `klcs`.
pub open spec fn settled_in(klcs: Seq<KLine>, k: KLine) -> bool {
    &&& 0 <= k.idx < klcs.len()
    &&& klcs[k.idx as int] == k
    &&& is_fractal(k.fx)
}

/// `b` and `e` may be the ends of a confirmed stroke: opposite settled
/// fractals in order, the end beyond the start, and the span rule met.
pub open spec fn sure_pair(cfg: &BiConfig, klcs: Seq<KLine>, b: KLine, e: KLine) -> bool {
    &&& settled_in(klcs, b)
    &&& settled_in(klcs, e)
    &&& b.idx < e.idx
    &&& e.fx == opposite_fx(b.fx)
    &&& bi_check_ok(b, e, spec_bi_dir(b.fx))
    &&& span_ok(cfg, klcs, b.idx as int, e.idx as int)
}

pub open spec fn chain_link(cfg: &BiConfig, klcs: Seq<KLine>, se: Seq<KLine>, j: int) -> bool {
    sure_pair(cfg, klcs, se[j - 1], se[j])
}

/// The confirmed ends kept by a tentative stroke from `b`: each step between
/// them was a confirmed stroke.
pub open spec fn chain_ok(cfg: &BiConfig, klcs: Seq<KLine>, b: KLine, se: Seq<KLine>) -> bool {
    se.len() > 0 ==> sure_pair(cfg, klcs, b, se[0]) && forall|j: int| 0 < j < se.len() ==> #[trigger] chain_link(cfg, klcs, se, j)
}

/// Stroke `k` of `bis` is in order: it sits at its index, starts on a settled
/// fractal, runs in the direction that fractal gives, ends beyond its start,
/// starts where the stroke before it ends, and, when confirmed, ends on the
/// opposite fractal with the span rule met. Only the last stroke may be tentative.
pub open spec fn stroke_ok(cfg: &BiConfig, klcs: Seq<KLine>, bis: Seq<Bi>, k: int) -> bool {
    let s = bis[k];
    &&& s.idx == k
    &&& settled_in(klcs, s.begin_klc)
    &&& s.dir == spec_bi_dir(s.begin_klc.fx)
    &&& s.begin_klc.idx < s.end_klc.idx
    &&& s.end_klc.idx < klcs.len()
    &&& bi_check_ok(s.begin_klc, s.end_klc, s.dir)
    &&& s.is_sure ==> sure_pair(cfg, klcs, s.begin_klc, s.end_klc) && s.sure_end@.len() == 0
    &&& !s.is_sure ==> k == bis.len() - 1 && chain_ok(cfg, klcs, s.begin_klc, s.sure_end@)
    &&& k > 0 ==> s.begin_klc == bis[k - 1].end_klc
}

pub open spec fn strokes_ok(cfg: &BiConfig, klcs: Seq<KLine>, bis: Seq<Bi>) -> bool {
    forall|k: int| 0 <= k < bis.len() ==> #[trigger] stroke_ok(cfg, klcs, bis, k)
}

pub open spec fn all_sure(bis: Seq<Bi>) -> bool {
    forall|k: int| 0 <= k < bis.len() ==> (#[trigger] bis[k]).is_sure
}

/// `klc` extends the end of stroke `last`: a higher top (or, tentatively, an
/// up merged bar) for an up stroke, a lower bottom (or a down merged bar) for
/// a down one.
pub open spec fn extends_end(last: Bi, klc: KLine, for_virtual: bool) -> bool {
    let check_top = if for_virtual { klc.dir == KlineDir::Up } else { klc.fx == FxType::Top };
    let check_bottom = if for_virtual { klc.dir == KlineDir::Down } else { klc.fx == FxType::Bottom };
    (last.dir == BiDir::Up && check_top && klc.high >= last.spec_end_val()) || (last.dir == BiDir::Down
        && check_bottom && klc.low <= last.spec_end_val())
}

/// Whether the tentative suffix may re-aim the end of the last stroke at `klc`
/// instead of the stroke before.
pub open spec fn spec_can_update_peak(cfg: &BiConfig, klcs: Seq<KLine>, bis: Seq<Bi>, klc: KLine) -> bool {
    if cfg.bi_allow_sub_peak || bis.len() < 2 {
        false
    } else {
        let last = bis.last();
        let second = bis[bis.len() - 2];
        &&& !(last.dir == BiDir::Down && klc.high < last.spec_begin_val())
        &&& !(last.dir == BiDir::Up && klc.low > last.spec_begin_val())
        &&& spec_end_is_peak(klcs, second.begin_klc.idx as int, klc.idx as int)
        &&& !(last.dir == BiDir::Down && last.spec_end_val() < second.spec_begin_val())
        &&& !(last.dir == BiDir::Up && last.spec_end_val() > second.spec_begin_val())
    }
}

/// Whether a stroke may run from merged bar `b` to merged bar `e`.
pub open spec fn spec_can_make_bi(cfg: &BiConfig, klcs: Seq<KLine>, e: int, b: int, for_virtual: bool) -> bool {
    &&& span_ok(cfg, klcs, b, e)
    &&& spec_check_fx_valid(klcs, b, e, cfg.bi_fx_check, for_virtual)
    &&& (cfg.bi_end_is_peak ==> spec_end_is_peak(klcs, b, e))
}

pub proof fn lemma_gap_count_monotone(klcs: Seq<KLine>, b: int, e: int, e2: int)
    requires
        b <= e <= e2,
    ensures
        gap_count(klcs, b, e) <= gap_count(klcs, b, e2),
        gap_count(klcs, b, e2) >= 0,
    decreases e2 - b,
{
    if e2 > e {
        lemma_gap_count_monotone(klcs, b, e, e2 - 1);
    } else if e2 > b {
        lemma_gap_count_monotone(klcs, b, e2 - 1, e2 - 1);
    }
}

/// The span rule, once met, stays met when the end moves later.
pub proof fn lemma_span_monotone(cfg: &BiConfig, klcs: Seq<KLine>, b: int, e: int, e2: int)
    requires
        klcs_shape(klcs),
        0 <= b < e <= e2 < klcs.len(),
        span_ok(cfg, klcs, b, e),
    ensures
        span_ok(cfg, klcs, b, e2),
{
    lemma_gap_count_monotone(klcs, b, e, e2);
    lemma_gap_count_monotone(klcs, b, e, e);
    if e < e2 {
        assert forall|i: int| 0 <= i < klcs.len() implies klcs[i].begin_klu <= klcs[i].end_klu by {
            assert(kl_item_ok(klcs, i));
        }
        assert forall|i: int| 0 < i < klcs.len() implies #[trigger] klcs[i].begin_klu == klcs[i - 1].end_klu + 1 by {
            assert(kl_link_ok(klcs, i));
        }
        lemma_begin_klu_increasing(klcs, e, e2);
        assert(kl_item_ok(klcs, e));
    }
}

/// Stroke list with its tentative suffix.
#[derive(Debug)]
pub struct BiList {
    pub bi_list: Vec<Bi>,
    /// End of the last stroke, or the last fractal seen before the first stroke.
    pub last_end: Option<KLine>,
    pub config: BiConfig,
    /// Fractal merged bars seen before the first stroke formed.
    pub free_klc_lst: Vec<KLine>,
}

impl BiList {
    pub open spec fn wf(&self, klcs: Seq<KLine>) -> bool {
        &&& klcs_shape(klcs)
        &&& strokes_ok(&self.config, klcs, self.bi_list@)
        &&& forall|i: int| 0 <= i < self.free_klc_lst@.len() ==> #[trigger] settled_in(klcs, self.free_klc_lst@[i])
    }

    /// Every settled merged bar the list refers to lies before index `m`.
    pub open spec fn all_before(&self, m: int) -> bool {
        &&& forall|k: int| 0 <= k < self.bi_list@.len() ==> (#[trigger] self.bi_list@[k]).begin_klc.idx < m
            && (self.bi_list@[k].is_sure ==> self.bi_list@[k].end_klc.idx < m)
            && forall|j: int| 0 <= j < self.bi_list@[k].sure_end@.len() ==> #[trigger] self.bi_list@[k].sure_end@[j].idx < m
        &&& forall|i: int| 0 <= i < self.free_klc_lst@.len() ==> #[trigger] self.free_klc_lst@[i].idx < m
    }

    pub fn new(bi_conf: BiConfig) -> (r: Self)
        ensures
            r.bi_list@.len() == 0,
            r.free_klc_lst@.len() == 0,
            r.last_end.is_none(),
            r.config == bi_conf,
            forall|klcs: Seq<KLine>| klcs_shape(klcs) ==> r.wf(klcs),
    {
        BiList { bi_list: Vec::new(), last_end: None, config: bi_conf, free_klc_lst: Vec::new() }
    }

    pub fn len(&self) -> (r: usize)
        ensures
            r == self.bi_list@.len(),
    {
        self.bi_list.len()
    }

    /// Index of the end merged bar of the last stroke.
    pub fn get_last_klu_of_last_bi(&self) -> (r: Option<usize>)
        ensures
            r == (if self.bi_list@.len() == 0 {
                None::<usize>
            } else {
                Some(self.bi_list@.last().end_klc.idx)
            }),
    {
        if self.bi_list.len() == 0 {
            None
        } else {
            Some(self.bi_list[self.bi_list.len() - 1].end_klc.idx)
        }
    }

    /// Whether a stroke may run from `last_end` to `klc`: span rule, fractal
    /// validity by the configured check, and, when asked, no bar between passing the end.
    pub fn can_make_bi(&self, klcs: &Vec<KLine>, klc: &KLine, last_end: &KLine, for_virtual: bool) -> (r: Result<bool, ChanError>)
        requires
            klcs_shape(klcs@),
            1 <= last_end.idx,
            last_end.idx < klc.idx,
            klc.idx < klcs@.len(),
            !for_virtual ==> klc.idx + 1 < klcs@.len(),
        ensures
            r == Ok::<bool, ChanError>(spec_can_make_bi(&self.config, klcs@, klc.idx as int, last_end.idx as int, for_virtual)),
    {
        let satisfy = if self.config.is_fx_algo() {
            true
        } else {
            proof {
                assert forall|i: int| 0 <= i < klcs@.len() implies klcs@[i].begin_klu <= klcs@[i].end_klu by {
                    assert(kl_item_ok(klcs@, i));
                }
                assert forall|i: int| 0 < i < klcs@.len() implies #[trigger] klcs@[i].begin_klu == klcs@[i - 1].end_klu + 1 by {
                    assert(kl_link_ok(klcs@, i));
                }
            }
            satisfy_bi_span(&self.config, klcs, last_end.idx, klc.idx)
        };
        if !satisfy {
            return Ok(false);
        }
        if !check_fx_valid(klcs, last_end.idx, klc.idx, self.config.bi_fx_check, for_virtual) {
            return Ok(false);
        }
        if self.config.bi_end_is_peak && !end_is_peak(klcs, last_end.idx, klc.idx) {
            return Ok(false);
        }
        Ok(true)
    }

    /// Appends a stroke from `pre_klc` to `cur_klc`. Fails with `BiErr`,
    /// changing nothing, when the ends do not make a stroke.
    pub fn add_new_bi(&mut self, Ghost(klcs): Ghost<Seq<KLine>>, pre_klc: KLine, cur_klc: KLine, is_sure: bool) -> (r: Result<(), ChanError>)
        requires
            old(self).wf(klcs),
            all_sure(old(self).bi_list@),
            settled_in(klcs, pre_klc),
            old(self).bi_list@.len() > 0 ==> old(self).bi_list@.last().end_klc == pre_klc,
            pre_klc.idx < cur_klc.idx,
            cur_klc.idx < klcs.len(),
            is_sure ==> settled_in(klcs, cur_klc) && cur_klc.fx == opposite_fx(pre_klc.fx)
                && span_ok(&old(self).config, klcs, pre_klc.idx as int, cur_klc.idx as int),
        ensures
            final(self).wf(klcs),
            final(self).config == old(self).config,
            final(self).free_klc_lst@ == old(self).free_klc_lst@,
            r.is_ok() ==> final(self).bi_list@.len() == old(self).bi_list@.len() + 1
                && final(self).bi_list@.drop_last() == old(self).bi_list@
                && final(self).bi_list@.last().begin_klc == pre_klc
                && final(self).bi_list@.last().end_klc == cur_klc
                && final(self).bi_list@.last().is_sure == is_sure,
            r.is_err() ==> final(self).bi_list@ == old(self).bi_list@,
            r.is_ok() <==> bi_check_ok(pre_klc, cur_klc, spec_bi_dir(pre_klc.fx)),
    {
        let n = self.bi_list.len();
        let b = Bi::new(pre_klc, cur_klc, n, is_sure)?;
        let ghost old_bis = self.bi_list@;
        self.bi_list.push(b);
        proof {
            let bis = self.bi_list@;
            assert(bis.drop_last() =~= old_bis);
            assert forall|k: int| 0 <= k < bis.len() implies #[trigger] stroke_ok(&self.config, klcs, bis, k) by {
                if k < n {
                    assert(stroke_ok(&self.config, klcs, old_bis, k));
                    assert(old_bis[k].is_sure);
                    assert(bis[k] == old_bis[k]);
                    if k > 0 {
                        assert(bis[k - 1] == old_bis[k - 1]);
                    }
                } else {
                    assert(bis[k] == b);
                    if k > 0 {
                        assert(bis[k - 1] == old_bis.last());
                    }
                }
            }
        }
        Ok(())
    }

    /// Drops the tentative suffix: a tentative stroke goes back to its first
    /// kept confirmed end and the strokes between its kept ends come back;
    /// one with no kept end is removed. Afterwards every stroke is confirmed.
    pub fn delete_virtual_bi(&mut self, Ghost(klcs): Ghost<Seq<KLine>>) -> (r: Result<(), ChanError>)
        requires
            old(self).wf(klcs),
        ensures
            r.is_ok(),
            final(self).wf(klcs),
            all_sure(final(self).bi_list@),
            final(self).config == old(self).config,
            final(self).free_klc_lst@ == old(self).free_klc_lst@,
            old(self).bi_list@.len() > 0 && old(self).bi_list@.last().is_sure ==> final(self).bi_list@ == old(self).bi_list@,
            all_sure(old(self).bi_list@) ==> final(self).bi_list@ == old(self).bi_list@,
            forall|k: int| 0 <= k < old(self).bi_list@.len() - 1 ==> k < final(self).bi_list@.len()
                && #[trigger] final(self).bi_list@[k] == old(self).bi_list@[k],
            final(self).bi_list@.len() + 1 >= old(self).bi_list@.len(),
            final(self).last_end == (if final(self).bi_list@.len() == 0 {
                None::<KLine>
            } else {
                Some(final(self).bi_list@.last().end_klc)
            }),
    {
        let n = self.bi_list.len();
        if n > 0 && !self.bi_list[n - 1].is_sure {
            let ghost old_bis = self.bi_list@;
            proof {
                assert(stroke_ok(&self.config, klcs, old_bis, n - 1));
                assert forall|k: int| 0 <= k < n - 1 implies (#[trigger] old_bis[k]).is_sure by {
                    assert(stroke_ok(&self.config, klcs, old_bis, k));
                }
            }
            let last = self.bi_list.pop().unwrap();
            let se = last.sure_end;
            let ghost se_s = se@;
            let ghost pre_bis = self.bi_list@;
            proof {
                assert(pre_bis =~= old_bis.drop_last());
                assert forall|k: int| 0 <= k < pre_bis.len() implies #[trigger] stroke_ok(&self.config, klcs, pre_bis, k) by {
                    assert(stroke_ok(&self.config, klcs, old_bis, k));
                    assert(pre_bis[k] == old_bis[k]);
                    if k > 0 {
                        assert(pre_bis[k - 1] == old_bis[k - 1]);
                    }
                }
            }
            if se.len() > 0 {
                let first = se[0];
                proof {
                    assert(sure_pair(&self.config, klcs, last.begin_klc, first));
                }
                let restored = Bi {
                    begin_klc: last.begin_klc,
                    end_klc: first,
                    dir: last.dir,
                    idx: last.idx,
                    bi_type: last.bi_type,
                    is_sure: true,
                    sure_end: Vec::new(),
                    seg_idx: last.seg_idx,
                };
                self.bi_list.push(restored);
                proof {
                    let bis = self.bi_list@;
                    assert forall|k: int| 0 <= k < bis.len() implies #[trigger] stroke_ok(&self.config, klcs, bis, k) by {
                        if k < n - 1 {
                            assert(stroke_ok(&self.config, klcs, pre_bis, k));
                            assert(bis[k] == pre_bis[k]);
                            if k > 0 {
                                assert(bis[k - 1] == pre_bis[k - 1]);
                            }
                        } else {
                            if k > 0 {
                                assert(bis[k - 1] == old_bis[k - 1]);
                            }
                        }
                    }
                }
                let mut j: usize = 1;
                while j < se.len()
                    invariant
                        1 <= j <= se@.len(),
                        se@ == se_s,
                        se_s.len() > 0,
                        chain_ok(&self.config, klcs, last.begin_klc, se_s),
                        self.wf(klcs),
                        all_sure(self.bi_list@),
                        self.bi_list@.len() == n - 1 + j,
                        self.bi_list@.last().end_klc == se_s[j - 1],
                        self.free_klc_lst@ == old(self).free_klc_lst@,
                        self.config == old(self).config,
                        n <= old(self).bi_list@.len(),
                        old(self).bi_list@ == old_bis,
                        forall|k: int| 0 <= k < n - 1 ==> #[trigger] self.bi_list@[k] == old_bis[k],
                    decreases se@.len() - j,
                {
                    let prev_end = se[j - 1];
                    let next_end = se[j];
                    proof {
                        assert(chain_link(&self.config, klcs, se_s, j as int));
                    }
                    let ghost before = self.bi_list@;
                    let res = self.add_new_bi(Ghost(klcs), prev_end, next_end, true);
                    proof {
                        assert(res.is_ok());
                        assert forall|k: int| 0 <= k < self.bi_list@.len() implies (#[trigger] self.bi_list@[k]).is_sure by {
                            if k < before.len() {
                                assert(self.bi_list@[k] == before[k]);
                            }
                        }
                        assert forall|k: int| 0 <= k < n - 1 implies #[trigger] self.bi_list@[k] == old_bis[k] by {
                            assert(self.bi_list@[k] == before[k]);
                        }
                    }
                    j += 1;
                }
            }
        }
        let m = self.bi_list.len();
        self.last_end = if m > 0 { Some(self.bi_list[m - 1].end_klc) } else { None };
        proof {
            assert forall|k: int| 0 <= k < self.bi_list@.len() implies (#[trigger] self.bi_list@[k]).is_sure by {
                assert(stroke_ok(&self.config, klcs, self.bi_list@, k));
            }
        }
        Ok(())
    }
}

impl BiList {
    /// Moves the end of the last stroke to `klc` when `klc` extends it: a higher
    /// top for an up stroke, a lower bottom for a down one (for a tentative end,
    /// a merged bar of the matching direction).
    pub fn try_update_end(&mut self, klcs: &Vec<KLine>, klc: &KLine, for_virtual: bool) -> (r: Result<bool, ChanError>)
        requires
            old(self).wf(klcs@),
            all_sure(old(self).bi_list@),
            klc.idx < klcs@.len(),
            klcs@[klc.idx as int] == *klc,
            old(self).bi_list@.len() > 0 ==> klc.idx > old(self).bi_list@.last().end_klc.idx,
        ensures
            r.is_ok(),
            final(self).wf(klcs@),
            final(self).config == old(self).config,
            final(self).free_klc_lst@ == old(self).free_klc_lst@,
            final(self).bi_list@.len() == old(self).bi_list@.len(),
            forall|k: int| 0 <= k < old(self).bi_list@.len() - 1 ==> #[trigger] final(self).bi_list@[k] == old(self).bi_list@[k],
            r == Ok::<bool, ChanError>(false) ==> final(self).bi_list@ == old(self).bi_list@,
            r == Ok::<bool, ChanError>(true) ==> final(self).bi_list@.last().end_klc == *klc
                && final(self).bi_list@.last().begin_klc == old(self).bi_list@.last().begin_klc,
            !for_virtual ==> all_sure(final(self).bi_list@),
            for_virtual && r == Ok::<bool, ChanError>(true) ==> !final(self).bi_list@.last().is_sure
                && final(self).bi_list@.last().sure_end@ == seq![old(self).bi_list@.last().end_klc],
            old(self).bi_list@.len() > 0 && extends_end(old(self).bi_list@.last(), *klc, for_virtual) ==> r == Ok::<bool, ChanError>(true),
    {
        let n = self.bi_list.len();
        if n == 0 {
            return Ok(false);
        }
        let ghost old_bis = self.bi_list@;
        let check_top = if for_virtual { klc.dir == KlineDir::Up } else { klc.fx == FxType::Top };
        let check_bottom = if for_virtual { klc.dir == KlineDir::Down } else { klc.fx == FxType::Bottom };
        let last = &self.bi_list[n - 1];
        if (last.is_up() && check_top && klc.high >= last.get_end_val()) || (last.is_down() && check_bottom
            && klc.low <= last.get_end_val()) {
            proof {
                assert(stroke_ok(&self.config, klcs@, old_bis, n - 1));
                assert(old_bis[n - 1].is_sure);
            }
            let mut b = self.bi_list.pop().unwrap();
            let res = if for_virtual { b.update_virtual_end(*klc) } else { b.update_new_end(*klc) };
            proof {
                assert(res.is_ok());
                if !for_virtual {
                    lemma_span_monotone(&self.config, klcs@, b.begin_klc.idx as int, old_bis[n - 1].end_klc.idx as int, klc.idx as int);
                } else {
                    assert(b.sure_end@ =~= seq![old_bis[n - 1].end_klc]);
                }
            }
            self.bi_list.push(b);
            self.last_end = Some(*klc);
            proof {
                let bis = self.bi_list@;
                assert forall|k: int| 0 <= k < bis.len() implies #[trigger] stroke_ok(&self.config, klcs@, bis, k) by {
                    assert(stroke_ok(&self.config, klcs@, old_bis, k));
                    if k < n - 1 {
                        assert(bis[k] == old_bis[k]);
                    }
                    if k > 0 {
                        assert(bis[k - 1] == old_bis[k - 1]);
                    }
                }
                assert forall|k: int| 0 <= k < old_bis.len() - 1 implies #[trigger] bis[k] == old_bis[k] by {}
                if !for_virtual {
                    assert forall|k: int| 0 <= k < bis.len() implies (#[trigger] bis[k]).is_sure by {
                        if k < n - 1 {
                            assert(bis[k] == old_bis[k]);
                        }
                    }
                }
            }
            return Ok(true);
        }
        Ok(false)
    }

    /// Whether the end of the stroke before the last may move to `klc` in
    /// place of the last stroke.
    pub fn can_update_peak(&self, klcs: &Vec<KLine>, klc: &KLine) -> (r: Result<bool, ChanError>)
        requires
            self.wf(klcs@),
            klc.idx < klcs@.len(),
            self.bi_list@.len() >= 2 ==> self.bi_list@[self.bi_list@.len() - 2].begin_klc.idx < klc.idx,
        ensures
            r == Ok::<bool, ChanError>(spec_can_update_peak(&self.config, klcs@, self.bi_list@, *klc)),
    {
        let n = self.bi_list.len();
        if self.config.bi_allow_sub_peak || n < 2 {
            return Ok(false);
        }
        let last = &self.bi_list[n - 1];
        let second = &self.bi_list[n - 2];
        if last.is_down() && klc.high < last.get_begin_val() {
            return Ok(false);
        }
        if last.is_up() && klc.low > last.get_begin_val() {
            return Ok(false);
        }
        if !end_is_peak(klcs, second.begin_klc.idx, klc.idx) {
            return Ok(false);
        }
        if last.is_down() && last.get_end_val() < second.get_begin_val() {
            return Ok(false);
        }
        if last.is_up() && last.get_end_val() > second.get_begin_val() {
            return Ok(false);
        }
        Ok(true)
    }

    /// Replaces the last stroke by moving the end of the one before to the more
    /// extreme `klc`, when allowed; for a tentative move the replaced ends are kept.
    pub fn update_peak(&mut self, klcs: &Vec<KLine>, klc: &KLine, for_virtual: bool) -> (r: Result<bool, ChanError>)
        requires
            old(self).wf(klcs@),
            all_sure(old(self).bi_list@),
            klc.idx < klcs@.len(),
            klcs@[klc.idx as int] == *klc,
            old(self).bi_list@.len() > 0 ==> klc.idx > old(self).bi_list@.last().end_klc.idx,
        ensures
            r.is_ok(),
            final(self).wf(klcs@),
            final(self).config == old(self).config,
            final(self).free_klc_lst@ == old(self).free_klc_lst@,
            r == Ok::<bool, ChanError>(false) ==> final(self).bi_list@ == old(self).bi_list@,
            r == Ok::<bool, ChanError>(true) ==> final(self).bi_list@.len() + 1 == old(self).bi_list@.len()
                && final(self).bi_list@.last().end_klc == *klc,
            forall|k: int| 0 <= k < old(self).bi_list@.len() - 2 ==> k < final(self).bi_list@.len()
                && #[trigger] final(self).bi_list@[k] == old(self).bi_list@[k],
            final(self).bi_list@.len() + 1 >= old(self).bi_list@.len(),
            !for_virtual ==> all_sure(final(self).bi_list@),
    {
        let n = self.bi_list.len();
        proof {
            if n >= 2 {
                assert(stroke_ok(&self.config, klcs@, self.bi_list@, n - 2));
                assert(stroke_ok(&self.config, klcs@, self.bi_list@, n - 1));
            }
        }
        if !self.can_update_peak(klcs, klc)? {
            return Ok(false);
        }
        let ghost old_bis = self.bi_list@;
        let tmp = self.bi_list.pop().unwrap();
        proof {
            let bis = self.bi_list@;
            assert(bis =~= old_bis.drop_last());
            assert forall|k: int| 0 <= k < bis.len() implies #[trigger] stroke_ok(&self.config, klcs@, bis, k) by {
                assert(stroke_ok(&self.config, klcs@, old_bis, k));
                assert(bis[k] == old_bis[k]);
                if k > 0 {
                    assert(bis[k - 1] == old_bis[k - 1]);
                }
            }
            assert(all_sure(bis)) by {
                assert forall|k: int| 0 <= k < bis.len() implies (#[trigger] bis[k]).is_sure by {
                    assert(old_bis[k].is_sure);
                }
            }
            assert(stroke_ok(&self.config, klcs@, old_bis, n - 1));
        }
        let ghost mid_bis = self.bi_list@;
        if !self.try_update_end(klcs, klc, for_virtual)? {
            self.bi_list.push(tmp);
            proof {
                assert(self.bi_list@ =~= old_bis);
            }
            return Ok(false);
        }
        if for_virtual {
            let ghost upd = self.bi_list@;
            let mut b = self.bi_list.pop().unwrap();
            b.append_sure_end(tmp.end_klc);
            self.bi_list.push(b);
            proof {
                let bis = self.bi_list@;
                let se = bis.last().sure_end@;
                assert(se =~= seq![old_bis[n - 2].end_klc, tmp.end_klc]);
                assert(chain_link(&self.config, klcs@, se, 1));
                assert(stroke_ok(&self.config, klcs@, upd, n - 2));
                assert forall|k: int| 0 <= k < bis.len() implies #[trigger] stroke_ok(&self.config, klcs@, bis, k) by {
                    assert(stroke_ok(&self.config, klcs@, upd, k));
                    if k < n - 2 {
                        assert(bis[k] == upd[k]);
                    }
                    if k > 0 {
                        assert(bis[k - 1] == upd[k - 1]);
                    }
                }
                assert forall|k: int| 0 <= k < old_bis.len() - 2 implies k < bis.len() && #[trigger] bis[k] == old_bis[k] by {
                    assert(bis[k] == upd[k]);
                    assert(upd[k] == mid_bis[k]);
                }
            }
        } else {
            proof {
                let bis = self.bi_list@;
                assert forall|k: int| 0 <= k < old_bis.len() - 2 implies k < bis.len() && #[trigger] bis[k] == old_bis[k] by {
                    assert(bis[k] == mid_bis[k]);
                }
            }
        }
        Ok(true)
    }

    /// Before the first stroke: tries to pair the fractal `klc` with a cached
    /// fractal of the opposite kind; on success the first stroke is made and
    /// the cache cleared, else `klc` joins the cache.
    pub fn try_create_first_bi(&mut self, klcs: &Vec<KLine>, klc: &KLine) -> (r: Result<bool, ChanError>)
        requires
            old(self).wf(klcs@),
            old(self).bi_list@.len() == 0,
            settled_in(klcs@, *klc),
            klc.idx + 1 < klcs@.len(),
        ensures
            final(self).wf(klcs@),
            final(self).config == old(self).config,
            all_sure(final(self).bi_list@),
            r == Ok::<bool, ChanError>(true) ==> final(self).bi_list@.len() == 1 && final(self).free_klc_lst@.len() == 0
                && final(self).bi_list@[0].end_klc == *klc,
            r == Ok::<bool, ChanError>(false) ==> final(self).bi_list@.len() == 0
                && final(self).free_klc_lst@ == old(self).free_klc_lst@.push(*klc),
            r.is_err() ==> final(self).bi_list@.len() == 0,
    {
        let mut i: usize = 0;
        while i < self.free_klc_lst.len()
            invariant
                self.wf(klcs@),
                self.bi_list@.len() == 0,
                self.free_klc_lst@ == old(self).free_klc_lst@,
                self.config == old(self).config,
                settled_in(klcs@, *klc),
                klc.idx + 1 < klcs@.len(),
            decreases self.free_klc_lst@.len() - i,
        {
            let f = self.free_klc_lst[i];
            proof {
                assert(settled_in(klcs@, self.free_klc_lst@[i as int]));
                if f.idx == 0 {
                    assert(klcs@[0].fx == FxType::Unknown);
                }
            }
            if f.fx != klc.fx && f.idx < klc.idx {
                if self.can_make_bi(klcs, klc, &f, false)? {
                    self.add_new_bi(Ghost(klcs@), f, *klc, true)?;
                    self.free_klc_lst = Vec::new();
                    self.last_end = Some(*klc);
                    return Ok(true);
                }
            }
            i += 1;
        }
        self.free_klc_lst.push(*klc);
        self.last_end = Some(*klc);
        proof {
            assert forall|j: int| 0 <= j < self.free_klc_lst@.len() implies #[trigger] settled_in(klcs@, self.free_klc_lst@[j]) by {
                if j < old(self).free_klc_lst@.len() {
                    assert(settled_in(klcs@, old(self).free_klc_lst@[j]));
                }
            }
        }
        Ok(false)
    }
}

impl BiList {
    /// Confirmed update on the newly settled merged bar `klc`: drops the
    /// tentative suffix, then extends the last stroke, starts a new one, or
    /// moves a peak, as `klc` allows. Reports whether the last stroke's end changed.
    pub fn update_bi_sure(&mut self, klcs: &Vec<KLine>, klc: &KLine) -> (r: Result<bool, ChanError>)
        requires
            old(self).wf(klcs@),
            klc.idx + 1 < klcs@.len(),
            klcs@[klc.idx as int] == *klc,
        ensures
            final(self).wf(klcs@),
            final(self).config == old(self).config,
            all_sure(final(self).bi_list@),
            final(self).bi_list@.len() + 2 >= old(self).bi_list@.len(),
            forall|k: int| 0 <= k < old(self).bi_list@.len() - 3 ==> k < final(self).bi_list@.len()
                && #[trigger] final(self).bi_list@[k] == old(self).bi_list@[k],
            ({
                let old_bis = old(self).bi_list@;
                let last = old_bis.last();
                (all_sure(old_bis) && old_bis.len() > 0 && is_fractal(klc.fx) && klc.idx > last.end_klc.idx
                    && klc.fx != last.end_klc.fx
                    && spec_can_make_bi(&old(self).config, klcs@, klc.idx as int, last.end_klc.idx as int, false)
                    && bi_check_ok(last.end_klc, *klc, spec_bi_dir(last.end_klc.fx))) ==> r == Ok::<bool, ChanError>(true)
                    && final(self).bi_list@.drop_last() == old_bis && final(self).bi_list@.last().begin_klc == last.end_klc
                    && final(self).bi_list@.last().end_klc == *klc && final(self).bi_list@.last().is_sure
            }),
            ({
                let old_bis = old(self).bi_list@;
                (all_sure(old_bis) && old_bis.len() > 0 && klc.idx > old_bis.last().end_klc.idx
                    && klc.fx == old_bis.last().end_klc.fx && extends_end(old_bis.last(), *klc, false))
                    ==> r == Ok::<bool, ChanError>(true) && final(self).bi_list@.len() == old_bis.len()
                    && final(self).bi_list@.last().end_klc == *klc
                    && final(self).bi_list@.last().begin_klc == old_bis.last().begin_klc
            }),
    {
        let tmp_end = self.get_last_klu_of_last_bi();
        let _ = self.delete_virtual_bi(Ghost(klcs@));
        if klc.fx == FxType::Unknown {
            return Ok(tmp_end != self.get_last_klu_of_last_bi());
        }
        proof {
            if klc.idx == 0 {
                assert(klcs@[0].fx == FxType::Unknown);
            }
        }
        let n = self.bi_list.len();
        if n == 0 {
            return self.try_create_first_bi(klcs, klc);
        }
        let last_end = self.bi_list[n - 1].end_klc;
        proof {
            assert(stroke_ok(&self.config, klcs@, self.bi_list@, n - 1));
            if last_end.idx == 0 {
                assert(klcs@[0].fx == FxType::Unknown);
            }
        }
        if klc.idx <= last_end.idx {
            return Ok(false);
        }
        if klc.fx == last_end.fx {
            return self.try_update_end(klcs, klc, false);
        }
        if self.can_make_bi(klcs, klc, &last_end, false)? {
            let ghost before = self.bi_list@;
            self.add_new_bi(Ghost(klcs@), last_end, *klc, true)?;
            proof {
                let bis = self.bi_list@;
                assert forall|k: int| 0 <= k < bis.len() implies (#[trigger] bis[k]).is_sure by {
                    if k < before.len() {
                        assert(bis[k] == bis.drop_last()[k]);
                    }
                }
                assert forall|k: int| 0 <= k < old(self).bi_list@.len() - 3 implies k < bis.len()
                    && #[trigger] bis[k] == old(self).bi_list@[k] by {
                    assert(bis[k] == bis.drop_last()[k]);
                    assert(before[k] == old(self).bi_list@[k]);
                }
            }
            self.last_end = Some(*klc);
            return Ok(true);
        }
        if self.update_peak(klcs, klc, false)? {
            return Ok(true);
        }
        Ok(tmp_end != self.get_last_klu_of_last_bi())
    }

    /// Tentative update on the last merged bar `klc`: extends the last stroke to
    /// it, or adds a tentative stroke ending at it or at the latest merged bar
    /// before it that can end one.
    pub fn try_add_virtual_bi(&mut self, klcs: &Vec<KLine>, klc: &KLine, need_del_end: bool) -> (r: Result<bool, ChanError>)
        requires
            old(self).wf(klcs@),
            klc.idx < klcs@.len(),
            klcs@[klc.idx as int] == *klc,
            !need_del_end ==> all_sure(old(self).bi_list@),
        ensures
            final(self).wf(klcs@),
            final(self).config == old(self).config,
            final(self).bi_list@.len() + 2 >= old(self).bi_list@.len(),
            !need_del_end ==> final(self).bi_list@.len() + 1 >= old(self).bi_list@.len(),
            forall|k: int| 0 <= k < old(self).bi_list@.len() - 3 ==> k < final(self).bi_list@.len()
                && #[trigger] final(self).bi_list@[k] == old(self).bi_list@[k],
            !need_del_end ==> forall|k: int| 0 <= k < old(self).bi_list@.len() - 2 ==> k < final(self).bi_list@.len()
                && #[trigger] final(self).bi_list@[k] == old(self).bi_list@[k],
    {
        if need_del_end {
            let _ = self.delete_virtual_bi(Ghost(klcs@));
        }
        let n = self.bi_list.len();
        if n == 0 {
            return Ok(false);
        }
        let last_end = self.bi_list[n - 1].end_klc;
        let up = self.bi_list[n - 1].is_up();
        proof {
            assert(stroke_ok(&self.config, klcs@, self.bi_list@, n - 1));
            if last_end.idx == 0 {
                assert(klcs@[0].fx == FxType::Unknown);
            }
        }
        if klc.idx <= last_end.idx {
            return Ok(false);
        }
        if (up && klc.high >= last_end.high) || (!up && klc.low <= last_end.low) {
            let ghost old_bis = self.bi_list@;
            let mut b = self.bi_list.pop().unwrap();
            let res = b.update_virtual_end(*klc);
            proof {
                assert(res.is_ok());
                assert(b.sure_end@ =~= seq![last_end]);
            }
            self.bi_list.push(b);
            proof {
                let bis = self.bi_list@;
                assert forall|k: int| 0 <= k < bis.len() implies #[trigger] stroke_ok(&self.config, klcs@, bis, k) by {
                    assert(stroke_ok(&self.config, klcs@, old_bis, k));
                    if k < n - 1 {
                        assert(bis[k] == old_bis[k]);
                    }
                    if k > 0 {
                        assert(bis[k - 1] == old_bis[k - 1]);
                    }
                }
            }
            return Ok(true);
        }
        let ghost mid_l = self.bi_list@;
        let mut i: usize = klc.idx;
        while i > last_end.idx
            invariant
                self.bi_list@ == mid_l,
                mid_l.len() + 1 >= old(self).bi_list@.len(),
                !need_del_end ==> mid_l == old(self).bi_list@,
                forall|k: int| 0 <= k < old(self).bi_list@.len() - 1 ==> k < mid_l.len()
                    && #[trigger] mid_l[k] == old(self).bi_list@[k],
                self.wf(klcs@),
                all_sure(self.bi_list@),
                self.bi_list@.len() == n,
                n > 0,
                self.bi_list@.last().end_klc == last_end,
                self.config == old(self).config,
                settled_in(klcs@, last_end),
                1 <= last_end.idx,
                i < klcs@.len(),
            decreases i,
        {
            let cur = klcs[i];
            proof {
                assert(kl_item_ok(klcs@, i as int));
            }
            if self.can_make_bi(klcs, &cur, &last_end, true)? {
                let r = self.add_new_bi(Ghost(klcs@), last_end, cur, false);
                proof {
                    let bis = self.bi_list@;
                    if r.is_ok() {
                        assert forall|k: int| 0 <= k < mid_l.len() implies #[trigger] bis[k] == mid_l[k] by {
                            assert(bis[k] == bis.drop_last()[k]);
                        }
                    }
                }
                r?;
                return Ok(true);
            }
            if self.update_peak(klcs, &cur, true)? {
                return Ok(true);
            }
            i -= 1;
        }
        Ok(false)
    }

    /// One update after a new merged bar settled: confirmed update on the
    /// second to last merged bar, then, when asked, a tentative one on the last.
    pub fn update_bi(&mut self, klcs: &Vec<KLine>, cal_virtual: bool) -> (r: Result<bool, ChanError>)
        requires
            old(self).wf(klcs@),
            klcs@.len() >= 2,
        ensures
            final(self).wf(klcs@),
            final(self).config == old(self).config,
            !cal_virtual ==> all_sure(final(self).bi_list@),
            forall|k: int| 0 <= k < old(self).bi_list@.len() - 4 ==> k < final(self).bi_list@.len()
                && #[trigger] final(self).bi_list@[k] == old(self).bi_list@[k],
    {
        let n = klcs.len();
        proof {
            assert(kl_item_ok(klcs@, n - 2));
            assert(kl_item_ok(klcs@, n - 1));
        }
        let klc = klcs[n - 2];
        let last_klc = klcs[n - 1];
        let flag1 = self.update_bi_sure(klcs, &klc)?;
        if cal_virtual {
            let flag2 = self.try_add_virtual_bi(klcs, &last_klc, false)?;
            Ok(flag1 || flag2)
        } else {
            Ok(flag1)
        }
    }
}

/// Strokes alternate and chain: stroke `k` sits at index `k`, starts where
/// stroke `k - 1` ends, and runs the other way.
pub proof fn lemma_strokes_alternate(cfg: &BiConfig, klcs: Seq<KLine>, bis: Seq<Bi>, k: int)
    requires
        strokes_ok(cfg, klcs, bis),
        1 <= k < bis.len(),
    ensures
        bis[k].idx == k,
        bis[k].begin_klc == bis[k - 1].end_klc,
        bis[k].dir != bis[k - 1].dir,
{
    assert(stroke_ok(cfg, klcs, bis, k));
    assert(stroke_ok(cfg, klcs, bis, k - 1));
}

/// An up stroke starts on a bottom and, once confirmed, ends on a top; a down
/// stroke the reverse; and the end price lies above the start price exactly
/// when the stroke is up.
pub proof fn lemma_stroke_fractals(cfg: &BiConfig, klcs: Seq<KLine>, bis: Seq<Bi>, k: int)
    requires
        klcs_shape(klcs),
        strokes_ok(cfg, klcs, bis),
        0 <= k < bis.len(),
    ensures
        bis[k].dir == BiDir::Up ==> bis[k].begin_klc.fx == FxType::Bottom,
        bis[k].dir == BiDir::Down ==> bis[k].begin_klc.fx == FxType::Top,
        bis[k].is_sure && bis[k].dir == BiDir::Up ==> bis[k].end_klc.fx == FxType::Top,
        bis[k].is_sure && bis[k].dir == BiDir::Down ==> bis[k].end_klc.fx == FxType::Bottom,
        (bis[k].spec_end_val() > bis[k].spec_begin_val()) <==> bis[k].dir == BiDir::Up,
{
    let s = bis[k];
    assert(stroke_ok(cfg, klcs, bis, k));
    assert(kl_item_ok(klcs, s.begin_klc.idx as int));
    assert(kl_item_ok(klcs, s.end_klc.idx as int));
}

/// In the normal, strict setting every confirmed stroke spans at least four
/// merged bars, gaps counted as the settings say.
pub proof fn lemma_sure_stroke_span(cfg: &BiConfig, klcs: Seq<KLine>, bis: Seq<Bi>, k: int)
    requires
        strokes_ok(cfg, klcs, bis),
        0 <= k < bis.len(),
        bis[k].is_sure,
        !cfg.spec_is_fx_algo(),
        cfg.is_strict,
    ensures
        klc_span(cfg, klcs, bis[k].begin_klc.idx as int, bis[k].end_klc.idx as int) >= 4,
{
    assert(stroke_ok(cfg, klcs, bis, k));
}

pub proof fn lemma_settled_frame(old: Seq<KLine>, new: Seq<KLine>, k: KLine)
    requires
        klcs_shape(old),
        prefix_kept(old, new),
        settled_in(old, k),
    ensures
        settled_in(new, k),
        k.idx < old.len() - 1,
{
}

pub proof fn lemma_gap_count_frame(old: Seq<KLine>, new: Seq<KLine>, b: int, e: int)
    requires
        prefix_kept(old, new),
        0 <= b,
        e < old.len() - 1,
    ensures
        gap_count(old, b, e) == gap_count(new, b, e),
    decreases e - b,
{
    if b < e {
        lemma_gap_count_frame(old, new, b, e - 1);
        assert(new[e - 1] == old[e - 1]);
        assert(new[e] == old[e]);
    }
}

pub proof fn lemma_pair_frame(cfg: &BiConfig, old: Seq<KLine>, new: Seq<KLine>, b: KLine, e: KLine)
    requires
        klcs_shape(old),
        prefix_kept(old, new),
        sure_pair(cfg, old, b, e),
    ensures
        sure_pair(cfg, new, b, e),
{
    lemma_settled_frame(old, new, b);
    lemma_settled_frame(old, new, e);
    lemma_gap_count_frame(old, new, b.idx as int, e.idx as int);
    assert(new[e.idx as int] == old[e.idx as int]);
    assert(new[b.idx as int] == old[b.idx as int]);
}

/// The stroke invariant survives the merged bars growing: strokes only refer
/// to settled merged bars, which later bars leave alone.
pub proof fn lemma_bilist_frame(bl: &BiList, old: Seq<KLine>, new: Seq<KLine>)
    requires
        bl.wf(old),
        klcs_shape(new),
        prefix_kept(old, new),
    ensures
        bl.wf(new),
{
    let cfg = &bl.config;
    let bis = bl.bi_list@;
    assert forall|k: int| 0 <= k < bis.len() implies #[trigger] stroke_ok(cfg, new, bis, k) by {
        assert(stroke_ok(cfg, old, bis, k));
        let s = bis[k];
        lemma_settled_frame(old, new, s.begin_klc);
        if s.is_sure {
            lemma_pair_frame(cfg, old, new, s.begin_klc, s.end_klc);
        } else {
            let se = s.sure_end@;
            if se.len() > 0 {
                lemma_pair_frame(cfg, old, new, s.begin_klc, se[0]);
                assert forall|j: int| 0 < j < se.len() implies #[trigger] chain_link(cfg, new, se, j) by {
                    assert(chain_link(cfg, old, se, j));
                    lemma_pair_frame(cfg, old, new, se[j - 1], se[j]);
                }
            }
        }
    }
    assert forall|i: int| 0 <= i < bl.free_klc_lst@.len() implies #[trigger] settled_in(new, bl.free_klc_lst@[i]) by {
        lemma_settled_frame(old, new, bl.free_klc_lst@[i]);
    }
}

impl BiList {
    /// Records that stroke `i` lies in segment `seg`.
    pub fn set_seg_idx(&mut self, Ghost(klcs): Ghost<Seq<KLine>>, i: usize, seg: usize)
        requires
            old(self).wf(klcs),
            i < old(self).bi_list@.len(),
        ensures
            final(self).wf(klcs),
            final(self).config == old(self).config,
            final(self).bi_list@.len() == old(self).bi_list@.len(),
            final(self).bi_list@[i as int].seg_idx == Some(seg),
            forall|k: int| 0 <= k < old(self).bi_list@.len() && k != i ==> #[trigger] final(self).bi_list@[k] == old(self).bi_list@[k],
            all_sure(old(self).bi_list@) ==> all_sure(final(self).bi_list@),
    {
        let ghost old_bis = self.bi_list@;
        self.bi_list[i].set_seg_idx(seg);
        proof {
            let bis = self.bi_list@;
            assert forall|k: int| 0 <= k < bis.len() implies #[trigger] stroke_ok(&self.config, klcs, bis, k) by {
                assert(stroke_ok(&self.config, klcs, old_bis, k));
                if k > 0 {
                    assert(bis[k - 1].end_klc == old_bis[k - 1].end_klc);
                }
            }
            if all_sure(old_bis) {
                assert forall|k: int| 0 <= k < bis.len() implies (#[trigger] bis[k]).is_sure by {
                    assert(old_bis[k].is_sure);
                }
            }
        }
    }
}

} // verus!
