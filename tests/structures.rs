use chan_core::bi::{Bi, BiConfig};
use chan_core::bsp::{get_final_multi_bi_zs, get_first_multi_bi_zs, bsp2s_break_bsp1, bsp3_back2zs, bsp3_break_zspeak, is_divergence, stroke_metric, BSPointConfig, BSPointList, BspFeatures, PointConfig};
use chan_core::cenum::{BiDir, BspType, FxCheckMethod, FxType, KlineDir, LeftSegMethod, MacdAlgo};
use chan_core::chan_exception::ErrCode;
use chan_core::demark::DemarkEngine;
use chan_core::eigen::{Eigen, LineItem};
use chan_core::eigen_fx::EigenFX;
use chan_core::handle::Handle;
use chan_core::kline::{KLine, KLineUnit};
use chan_core::seg::{Seg, SegConfig};
use chan_core::zs::{ZSConfig, ZS};
use chan_core::zs_list::ZSList;

fn klc(idx: usize, high: i64, low: i64, fx: FxType) -> KLine {
    KLine { idx, begin_klu: idx, end_klu: idx, time_begin: 0, time_end: 0, high, low, dir: KlineDir::Up, fx }
}

fn item(idx: usize, dir: BiDir, low: i64, high: i64) -> LineItem {
    LineItem { idx, dir, high, low, is_sure: true }
}

fn stroke(idx: usize, up: bool, low: i64, high: i64) -> Bi {
    let (b, e) = if up {
        (klc(idx * 4, low + 1, low, FxType::Bottom), klc(idx * 4 + 4, high, high - 1, FxType::Top))
    } else {
        (klc(idx * 4, high, high - 1, FxType::Top), klc(idx * 4 + 4, low + 1, low, FxType::Bottom))
    };
    Bi::new(b, e, idx, true).unwrap()
}

#[test]
fn zone_of_three_strokes() {
    let lst = vec![item(1, BiDir::Down, 5, 7), item(3, BiDir::Down, 4, 6), item(5, BiDir::Down, 5, 7)];
    let z = ZS::new(&lst, true, Some(0)).unwrap();
    assert_eq!((z.low, z.high), (5, 6));
    assert_eq!((z.peak_low, z.peak_high), (4, 7));
    assert_eq!((z.begin_bi, z.end_bi), (1, 5));
    assert!(!z.is_one_bi_zs());
}

#[test]
fn zone_needs_a_shared_band() {
    let lst = vec![item(1, BiDir::Down, 5, 7), item(3, BiDir::Down, 8, 9)];
    let e = ZS::new(&lst, true, None).unwrap_err();
    assert_eq!(e.errcode, ErrCode::FeatureError);
}

#[test]
fn zone_extends_and_combines() {
    let mut z1 = ZS::new(&vec![item(1, BiDir::Down, 5, 7), item(3, BiDir::Down, 4, 6), item(5, BiDir::Down, 5, 7)], true, Some(0)).unwrap();
    assert!(z1.try_add_to_end(&item(7, BiDir::Down, 6, 9)));
    assert_eq!(z1.end_bi, 7);
    assert_eq!(z1.peak_high, 9);
    assert!(!z1.try_add_to_end(&item(9, BiDir::Down, 10, 12)));
    let z2 = ZS::new(&vec![item(11, BiDir::Down, 6, 8), item(13, BiDir::Down, 6, 9), item(15, BiDir::Down, 5, 8)], true, Some(0)).unwrap();
    assert_eq!(z1.combine(&z2, "zs").unwrap(), true);
    assert_eq!((z1.low, z1.high), (5, 8));
    assert_eq!(z1.end_bi, 15);
    assert_eq!(z1.sub_zs_lst.len(), 2);
    let z3 = ZS::new(&vec![item(17, BiDir::Down, 20, 22), item(19, BiDir::Down, 21, 23)], true, Some(0)).unwrap();
    assert_eq!(z1.combine(&z3, "peak").unwrap(), false);
    let e = z1.combine(&z3, "bogus").unwrap_err();
    assert_eq!(e.errcode, ErrCode::ParaError);
    let z4 = ZS::new(&vec![item(21, BiDir::Down, 20, 22), item(23, BiDir::Down, 21, 23)], true, Some(1)).unwrap();
    assert_eq!(z1.combine(&z4, "zs").unwrap(), false);
}

#[test]
fn zone_list_builds_from_three_waiting_strokes() {
    let mut zl = ZSList::new(ZSConfig::default());
    zl.add_to_free_lst(item(1, BiDir::Down, 5, 7), true, Some(0)).unwrap();
    zl.update(item(3, BiDir::Down, 4, 6), true, Some(0)).unwrap();
    assert_eq!(zl.zs_lst.len(), 0);
    zl.update(item(5, BiDir::Down, 5, 7), true, Some(0)).unwrap();
    assert_eq!(zl.zs_lst.len(), 1);
    assert_eq!((zl.zs_lst[0].low, zl.zs_lst[0].high), (5, 6));
    zl.update(item(7, BiDir::Down, 6, 8), true, Some(0)).unwrap();
    assert_eq!(zl.zs_lst[0].end_bi, 7);
    assert_eq!(zl.len(), 1);
}

#[test]
fn one_stroke_zones_when_allowed() {
    let zl = ZSList::new(ZSConfig::new(None, None, Some(true), None));
    let z = zl.try_construct_zs(&vec![item(3, BiDir::Up, 1, 4)], true, None).unwrap();
    assert!(z.is_one_bi_zs());
    let zl2 = ZSList::new(ZSConfig::default());
    assert!(zl2.try_construct_zs(&vec![item(3, BiDir::Up, 1, 4)], true, None).is_none());
}

#[test]
fn stroke_needs_a_fractal_start_and_a_matching_end() {
    let e = Bi::new(klc(0, 10, 5, FxType::Unknown), klc(5, 4, 1, FxType::Bottom), 0, true).unwrap_err();
    assert_eq!(e.errcode, ErrCode::BiErr);
    let e = Bi::new(klc(0, 10, 5, FxType::Top), klc(5, 14, 11, FxType::Bottom), 0, true).unwrap_err();
    assert_eq!(e.errcode, ErrCode::BiErr);
    let b = Bi::new(klc(0, 10, 5, FxType::Top), klc(5, 4, 1, FxType::Bottom), 0, true).unwrap();
    assert_eq!(b.dir, BiDir::Down);
    assert_eq!((b.high(), b.low()), (10, 1));
    assert_eq!(b.get_klc_cnt(), 6);
}

#[test]
fn stroke_config_parsing() {
    let c = BiConfig::new(Some(String::from("fx")), Some(false), Some("loss"), None, None, None).unwrap();
    assert!(c.is_fx_algo());
    assert_eq!(c.bi_fx_check, FxCheckMethod::Loss);
    assert!(!c.is_strict);
    let e = BiConfig::new(None, None, Some("nope"), None, None, None).unwrap_err();
    assert_eq!(e.errcode, ErrCode::ParaError);
    let d = BiConfig::default();
    assert_eq!(d.bi_fx_check, FxCheckMethod::Half);
    assert!(!d.is_fx_algo());
}

#[test]
fn segment_config_parsing() {
    assert_eq!(SegConfig::new(None, Some("all")).unwrap().left_method, LeftSegMethod::All);
    assert_eq!(SegConfig::new(Some("chan"), None).unwrap().left_method, LeftSegMethod::Peak);
    assert_eq!(SegConfig::new(Some("break"), None).unwrap_err().errcode, ErrCode::ParaError);
    assert_eq!(SegConfig::new(None, Some("left")).unwrap_err().errcode, ErrCode::ParaError);
}

#[test]
fn confirmed_segment_must_move_its_way() {
    let s0 = stroke(0, true, 10, 20);
    let s2 = stroke(2, true, 8, 9);
    let e = Seg::new(0, &s0, &s2, true, Some(BiDir::Up), "t").unwrap_err();
    assert_eq!(e.errcode, ErrCode::SegEndValueErr);
    let t = Seg::new(0, &s0, &s2, false, Some(BiDir::Up), "t").unwrap();
    assert!(!t.is_sure);
    let s1 = stroke(1, true, 10, 30);
    let short = Seg::new(0, &s0, &s1, true, None, "t").unwrap();
    assert!(!short.is_sure);
    let s4 = stroke(2, true, 15, 40);
    let ok = Seg::new(0, &s0, &s4, true, None, "t").unwrap();
    assert!(ok.is_sure);
    assert_eq!(ok.amp(), 30);
    assert_eq!(ok.cal_bi_cnt(), 3);
}

#[test]
fn element_combining() {
    let mut e = Eigen::new(item(1, BiDir::Down, 5, 10), KlineDir::Up);
    assert_eq!(e.try_add(item(3, BiDir::Down, 6, 9), false, None).unwrap(), KlineDir::Combine);
    assert_eq!((e.high, e.low), (10, 6));
    assert_eq!(e.try_add(item(5, BiDir::Down, 7, 12), false, None).unwrap(), KlineDir::Up);
    assert_eq!(e.lst.len(), 2);
    let mut bad = Eigen::new(item(1, BiDir::Down, 5, 10), KlineDir::Included);
    assert_eq!(bad.try_add(item(3, BiDir::Down, 6, 9), false, None).unwrap_err().errcode, ErrCode::CombinerErr);
    assert_eq!(e.get_peak_klu(true).unwrap().idx, 1);
}

#[test]
fn characteristic_fractal_of_an_up_segment() {
    let bis: Vec<Bi> = Vec::new();
    let mut fx = EigenFX::new(BiDir::Up, false, chan_core::cenum::SegType::Bi);
    assert!(!fx.add(item(1, BiDir::Down, 10, 20), &bis).unwrap());
    assert!(!fx.add(item(3, BiDir::Down, 15, 30), &bis).unwrap());
    assert!(fx.add(item(5, BiDir::Down, 12, 25), &bis).unwrap());
    assert_eq!(fx.ele1.as_ref().unwrap().fx, FxType::Top);
    assert_eq!(fx.get_peak_bi_idx().unwrap(), 2);
    let empty = EigenFX::new(BiDir::Down, true, chan_core::cenum::SegType::Bi);
    assert_eq!(empty.get_peak_bi_idx().unwrap_err().errcode, ErrCode::SegEigenErr);
}

#[test]
fn signal_helpers() {
    let down = stroke(3, false, 10, 20);
    let up = stroke(4, true, 10, 20);
    let z = ZS::new(&vec![item(1, BiDir::Down, 12, 25), item(3, BiDir::Down, 14, 24), item(5, BiDir::Down, 13, 22)], true, None).unwrap();
    assert_eq!((z.low, z.high), (14, 22));
    assert!(bsp3_back2zs(&down, &z));
    assert!(!bsp3_back2zs(&stroke(6, false, 30, 40), &z));
    assert!(bsp3_break_zspeak(&stroke(6, false, 30, 40), &z));
    assert!(bsp2s_break_bsp1(&stroke(7, false, 5, 20), &down));
    assert!(!bsp2s_break_bsp1(&up, &down));
    assert!(z.end_bi_break(&item(7, BiDir::Down, 10, 20)));
    assert!(!z.end_bi_break(&item(7, BiDir::Up, 10, 20)));
}

#[test]
fn divergence_compares_exit_with_entry() {
    let mut z = ZS::new(&vec![item(2, BiDir::Down, 12, 25), item(4, BiDir::Down, 14, 24), item(6, BiDir::Down, 13, 22)], true, None).unwrap();
    let bis = vec![stroke(0, false, 30, 40), stroke(1, false, 10, 40)];
    z.set_bi_in(1);
    let mut conf = PointConfig::default();
    conf.macd_algo = MacdAlgo::Amp;
    let units: Vec<KLineUnit> = Vec::new();
    let klcs: Vec<KLine> = Vec::new();
    // Entry moves 30, exit 9: 9 <= 0.9 * 30.
    let (d, m) = is_divergence(&z, &conf, &bis, &units, &klcs, &stroke(7, false, 11, 20)).unwrap();
    assert!(d);
    assert_eq!(m, Some((9, 30)));
    // Exit of 29 does not diverge.
    let (d2, _) = is_divergence(&z, &conf, &bis, &units, &klcs, &stroke(7, false, 1, 30)).unwrap();
    assert!(!d2);
    // An exit that stays in the band is no divergence.
    let (d3, m3) = is_divergence(&z, &conf, &bis, &units, &klcs, &stroke(7, false, 15, 20)).unwrap();
    assert!(!d3);
    assert_eq!(m3, None);
    conf.macd_algo = MacdAlgo::Slope;
    assert_eq!(is_divergence(&z, &conf, &bis, &units, &klcs, &stroke(7, false, 11, 20)).unwrap_err().errcode, ErrCode::ParaError);
}

#[test]
fn macd_metrics_over_raw_bars() {
    let mut units = Vec::new();
    let macds = [3i64, 4, -2, 5, 6];
    for (i, m) in macds.iter().enumerate() {
        let mut u = KLineUnit::new(i, i as i64, 5, 10, 1, 6, 7, false).unwrap();
        u.macd = *m;
        u.turnover = 100 * (i as i64 + 1);
        u.turnrate = 4;
        units.push(u);
    }
    let klcs = vec![klc(0, 10, 1, FxType::Bottom), KLine { idx: 1, begin_klu: 1, end_klu: 4, time_begin: 0, time_end: 0, high: 20, low: 2, dir: KlineDir::Up, fx: FxType::Top }];
    let b = Bi::new(klcs[0], klcs[1], 0, true).unwrap();
    assert_eq!(stroke_metric(&units, &klcs, &b, MacdAlgo::FullArea, false).unwrap(), 20);
    assert_eq!(stroke_metric(&units, &klcs, &b, MacdAlgo::Peak, false).unwrap(), 6);
    assert_eq!(stroke_metric(&units, &klcs, &b, MacdAlgo::Area, false).unwrap(), 7);
    assert_eq!(stroke_metric(&units, &klcs, &b, MacdAlgo::Area, true).unwrap(), 11);
    assert_eq!(stroke_metric(&units, &klcs, &b, MacdAlgo::Volumn, false).unwrap(), 35);
    assert_eq!(stroke_metric(&units, &klcs, &b, MacdAlgo::VolumnAvg, false).unwrap(), 7);
    assert_eq!(stroke_metric(&units, &klcs, &b, MacdAlgo::Amp, false).unwrap(), 19);
    assert_eq!(stroke_metric(&units, &klcs, &b, MacdAlgo::Amount, false).unwrap(), 1500);
    assert_eq!(stroke_metric(&units, &klcs, &b, MacdAlgo::AmountAvg, false).unwrap(), 300);
    assert_eq!(stroke_metric(&units, &klcs, &b, MacdAlgo::TurnrateAvg, false).unwrap(), 4);
    assert_eq!(stroke_metric(&units, &klcs, &b, MacdAlgo::Rsi, false).unwrap_err().errcode, ErrCode::ParaError);
}

#[test]
fn points_are_deduplicated_by_stroke() {
    let mut l = BSPointList::new(BSPointConfig::default());
    let b = stroke(5, false, 10, 20);
    let f = BspFeatures { bi_amp: 10, zs_height: None, divergence_out: None, divergence_in: None };
    l.add_bs(BspType::T1, &b, None, true, f);
    assert_eq!(l.lst.len(), 1);
    assert!(l.lst[0].is_buy);
    assert_eq!(l.bsp1_lst.len(), 1);
    l.add_bs(BspType::T2, &b, Some(1), true, f);
    assert_eq!(l.lst.len(), 1);
    assert_eq!(l.lst[0].bs_type, vec![BspType::T1, BspType::T2]);
    assert_eq!(l.lst[0].relate_bsp1, Some(1));
    let s = stroke(6, true, 10, 20);
    l.add_bs(BspType::T1, &s, None, false, f);
    assert_eq!(l.lst.len(), 1);
    assert_eq!(l.bsp1_lst.len(), 2);
}

#[test]
fn handles_walk_the_arena() {
    let arena = vec![10, 20, 30];
    let h = Handle::new(&arena, 1);
    assert_eq!(*h.to_ref(&arena), 20);
    assert_eq!(h.next(&arena).unwrap().index(), 2);
    assert!(h.next_step_by(&arena, 2).is_none());
    assert_eq!(h.prev().unwrap().index(), 0);
    assert!(h.prev_step_by(2).is_none());
    let mut a2 = arena.clone();
    *h.as_mut(&mut a2) = 99;
    assert_eq!(a2, vec![10, 99, 30]);
    let mut h2 = h.copy();
    h2.update_index(0);
    assert_eq!(h2.index(), 0);
}

#[test]
fn demark_setup_and_countdown() {
    let mut d = DemarkEngine::new();
    let first = d.update(100);
    assert_eq!(first.setup_idx, 0);
    let mut last = first;
    for k in 1..=8 {
        last = d.update(100 - k);
    }
    assert_eq!(last.setup_trend, -1);
    assert_eq!(last.setup_idx, 8);
    let ninth = d.update(90);
    assert_eq!(ninth.setup_idx, 0);
    assert_eq!(ninth.countdown_trend, -1);
    let up = d.update(95);
    assert_eq!(up.setup_trend, 1);
    assert_eq!(up.setup_idx, 1);
}

fn down_segment_with_zone() -> (Vec<Bi>, Seg, Vec<ZS>) {
    let bis = vec![
        stroke(0, false, 60, 100),
        stroke(1, true, 60, 80),
        stroke(2, false, 65, 80),
        stroke(3, true, 65, 82),
        stroke(4, false, 66, 82),
        stroke(5, true, 66, 79),
        stroke(6, false, 50, 79),
    ];
    let mut z = ZS::new(&vec![item(1, BiDir::Up, 60, 80), item(3, BiDir::Up, 65, 82), item(5, BiDir::Up, 66, 79)], true, Some(0)).unwrap();
    z.set_bi_in(0);
    z.set_bi_out(6);
    let mut seg = Seg::new(0, &bis[0], &bis[6], true, None, "t").unwrap();
    seg.add_zs(0);
    (bis, seg, vec![z])
}

fn amp_config() -> BSPointConfig {
    let mut b = PointConfig::default();
    b.macd_algo = MacdAlgo::Amp;
    b.bs1_peak = false;
    let mut s = PointConfig::default();
    s.macd_algo = MacdAlgo::Amp;
    s.bs1_peak = false;
    BSPointConfig { b_conf: b, s_conf: s }
}

#[test]
fn type1_buy_on_divergent_exit() {
    let (bis, seg, zss) = down_segment_with_zone();
    assert_eq!((zss[0].low, zss[0].high), (66, 79));
    assert!(seg.is_sure);
    let mut l = BSPointList::new(amp_config());
    let units: Vec<KLineUnit> = Vec::new();
    let klcs: Vec<KLine> = Vec::new();
    l.cal_single_bs1point(&seg, &bis, &zss, &units, &klcs).unwrap();
    assert_eq!(l.lst.len(), 1);
    let p = &l.lst[0];
    assert_eq!(p.bi, 6);
    assert!(p.is_buy);
    assert_eq!(p.bs_type, vec![BspType::T1]);
    assert_eq!(p.relate_bsp1, None);
    assert_eq!(p.features.divergence_out, Some(29));
    assert_eq!(p.features.divergence_in, Some(40));
    assert_eq!(p.features.zs_height, Some(13));
}

#[test]
fn type1_without_divergence_is_no_target() {
    let (mut bis, seg, zss) = down_segment_with_zone();
    bis[6] = stroke(6, false, 30, 79);
    let mut l = BSPointList::new(amp_config());
    let units: Vec<KLineUnit> = Vec::new();
    let klcs: Vec<KLine> = Vec::new();
    l.cal_single_bs1point(&seg, &bis, &zss, &units, &klcs).unwrap();
    assert_eq!(l.lst.len(), 0);
    assert_eq!(l.bsp1_lst.len(), 1);
}

#[test]
fn type2_follows_type1_on_zone_exit() {
    let (bis, seg, zss) = down_segment_with_zone();
    let mut l = BSPointList::new(amp_config());
    let units: Vec<KLineUnit> = Vec::new();
    let klcs: Vec<KLine> = Vec::new();
    l.cal_single_bs1point(&seg, &bis, &zss, &units, &klcs).unwrap();
    l.cal_single_bs2point(&seg, &bis, &zss);
    assert_eq!(l.lst.len(), 1);
    assert_eq!(l.lst[0].bs_type, vec![BspType::T1, BspType::T2]);
    assert_eq!(l.lst[0].relate_bsp1, Some(6));
    assert_eq!(l.lst[0].type_to_string(), "1,2");
    assert_eq!(l.len(), 1);
    assert!(!l.is_empty());
    assert_eq!(l.get(0).unwrap().bi, 6);
    assert!(l.get(1).is_none());
}

#[test]
fn type3_after_the_zone_that_follows_a_type1() {
    let (mut bis, seg0, mut zss) = down_segment_with_zone();
    bis.push(stroke(7, true, 50, 90));
    bis.push(stroke(8, false, 70, 90));
    bis.push(stroke(9, true, 70, 75));
    bis.push(stroke(10, false, 55, 75));
    bis.push(stroke(11, true, 55, 68));
    bis.push(stroke(12, false, 56, 68));
    bis.push(stroke(13, true, 56, 66));
    bis.push(stroke(14, false, 57, 66));
    bis.push(stroke(15, true, 57, 95));
    for (k, b) in bis.iter_mut().enumerate() {
        b.seg_idx = Some(if k <= 6 { 0 } else { 1 });
    }
    let mut z1 = ZS::new(&vec![item(10, BiDir::Down, 55, 75), item(12, BiDir::Down, 56, 68), item(14, BiDir::Down, 57, 66)], true, Some(1)).unwrap();
    z1.set_bi_in(9);
    z1.set_bi_out(15);
    assert_eq!((z1.low, z1.high), (57, 66));
    zss.push(z1);
    let mut seg1 = Seg::new(1, &bis[7], &bis[15], true, None, "t").unwrap();
    seg1.add_zs(1);
    assert!(seg1.is_up());
    let units: Vec<KLineUnit> = Vec::new();
    let klcs: Vec<KLine> = Vec::new();
    let segs = vec![seg0, seg1];
    let mut l = BSPointList::new(amp_config());
    l.cal_single_bs1point(&segs[0], &bis, &zss, &units, &klcs).unwrap();
    l.cal_seg_bs3point(&segs, &bis, &zss);
    assert_eq!(l.lst.len(), 2);
    let p = &l.lst[1];
    assert_eq!(p.bi, 8);
    assert!(p.is_buy);
    assert_eq!(p.bs_type, vec![BspType::T3A]);
    assert_eq!(p.relate_bsp1, Some(6));
}

#[test]
fn zone_lookups_within_segments() {
    let (bis, seg, zss) = down_segment_with_zone();
    assert!(zss[0].is_inside(&seg));
    assert_eq!(get_first_multi_bi_zs(&seg, &zss), Some(0));
    assert_eq!(get_final_multi_bi_zs(&seg, &zss), Some(0));
    let later = Seg::new(1, &bis[3], &bis[6], false, None, "t").unwrap();
    assert!(!zss[0].is_inside(&later));
}
