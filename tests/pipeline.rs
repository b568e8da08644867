use chan_core::analyzer::{Analyzer, ChanConfig};
use chan_core::bi::{Bi, BiConfig};
use chan_core::cenum::{BiDir, FxType, KlineDir};
use chan_core::chan_exception::ErrCode;
use chan_core::kline::{KLine, KLineList, KLineUnit};

fn bar(i: usize, high: i64, low: i64) -> KLineUnit {
    KLineUnit::new(i, 1_000 + i as i64 * 60, low, high, low, high, 100, false).unwrap()
}

fn run(hl: &[(i64, i64)]) -> Analyzer {
    let mut a = Analyzer::new(String::from("K_DAY"), ChanConfig::default());
    for (i, (h, l)) in hl.iter().enumerate() {
        a.add_single_klu(bar(i, *h, *l)).unwrap();
    }
    a.cal_seg_and_zs().unwrap();
    a
}

/// A deterministic random walk of bars.
fn walk(n: usize, seed: u64) -> Vec<(i64, i64)> {
    let mut x = seed;
    let mut p: i64 = 10_000;
    let mut out = Vec::new();
    for _ in 0..n {
        x = x.wrapping_mul(6364136223846793005).wrapping_add(1442695040888963407);
        let step = ((x >> 33) % 41) as i64 - 20;
        let spread = ((x >> 20) % 15) as i64 + 1;
        p += step;
        out.push((p + spread, p - spread));
    }
    out
}

/// Zigzag legs of `leg` bars each, one tick per bar.
fn zigzag(legs: usize, leg: i64) -> Vec<(i64, i64)> {
    let mut out = Vec::new();
    let mut p: i64 = 100;
    out.push((p + 1, p));
    for k in 0..legs {
        for _ in 0..leg {
            if k % 2 == 0 {
                p += 1;
            } else {
                p -= 1;
            }
            out.push((p + 1, p));
        }
    }
    out
}

fn nested(a: &KLine, b: &KLine) -> bool {
    (a.high >= b.high && a.low <= b.low) || (b.high >= a.high && b.low <= a.low)
}

#[test]
fn trivial_ascending_has_no_structure() {
    let hl: Vec<(i64, i64)> = (1..=10).map(|i| (i, i)).collect();
    let a = run(&hl);
    assert_eq!(a.kline_list.lst.len(), 10);
    assert!(a.kline_list.lst.iter().all(|k| k.fx == FxType::Unknown));
    assert_eq!(a.bi_list.bi_list.len(), 0);
    assert_eq!(a.seg_list.lst.len(), 0);
    assert_eq!(a.zs_list.zs_lst.len(), 0);
}

#[test]
fn single_v_has_bottom_fractal_only() {
    let hl = [(10, 9), (9, 8), (8, 7), (7, 6), (6, 5), (7, 6), (8, 7), (9, 8), (10, 9), (11, 10)];
    let a = run(&hl);
    let k = &a.kline_list.lst;
    assert_eq!(k.len(), 10);
    assert_eq!(k[4].fx, FxType::Bottom);
    for (i, kl) in k.iter().enumerate() {
        if i != 4 {
            assert_eq!(kl.fx, FxType::Unknown);
        }
    }
    // The first and last merged bars lack a neighbour, so no stroke can end there.
    assert_eq!(a.bi_list.bi_list.len(), 0);
    assert_eq!(a.bi_list.free_klc_lst.len(), 1);
}

#[test]
fn zigzag_strokes_alternate_between_fractals() {
    let a = run(&zigzag(5, 6));
    let bis = &a.bi_list.bi_list;
    assert!(bis.len() >= 3);
    assert_eq!(bis[0].dir, BiDir::Down);
    assert_eq!(bis[0].begin_klc.idx, 6);
    assert_eq!(bis[0].end_klc.idx, 12);
    assert_eq!(bis[1].begin_klc.idx, 12);
    assert_eq!(bis[1].end_klc.idx, 18);
    assert_eq!(bis[0].get_begin_val(), 107);
    assert_eq!(bis[0].get_end_val(), 100);
    assert_eq!(bis[0].amp(), 7);
}

#[test]
fn containment_is_absorbed_by_direction() {
    let mut l = KLineList::new(String::from("K_DAY"));
    l.add_single_klu(bar(0, 10, 5)).unwrap();
    l.add_single_klu(bar(1, 12, 7)).unwrap();
    // Inside the up bar: keeps the higher extremes.
    l.add_single_klu(bar(2, 11, 8)).unwrap();
    assert_eq!(l.lst.len(), 2);
    assert_eq!((l.lst[1].high, l.lst[1].low), (12, 8));
    assert_eq!(l.lst[1].dir, KlineDir::Up);
    assert_eq!((l.lst[1].begin_klu, l.lst[1].end_klu), (1, 2));
    l.add_single_klu(bar(3, 9, 4)).unwrap();
    // Inside the down bar: keeps the lower extremes.
    l.add_single_klu(bar(4, 10, 3)).unwrap();
    assert_eq!(l.lst.len(), 3);
    assert_eq!((l.lst[2].high, l.lst[2].low), (9, 3));
    assert_eq!(l.lst[1].fx, FxType::Top);
    assert_eq!(l.get_peak_klu(1, true).unwrap(), 1);
    assert_eq!(l.get_peak_klu(2, false).unwrap(), 4);
}

#[test]
fn invalid_bar_is_rejected_and_nothing_changes() {
    let mut a = Analyzer::new(String::from("K_DAY"), ChanConfig::default());
    a.add_single_klu(bar(0, 10, 5)).unwrap();
    let bad = KLineUnit { idx: 1, time: 2_000, open: 11, high: 10, low: 5, close: 6, volume: 1, turnover: 0, turnrate: 0, macd: 0 };
    let e = a.add_single_klu(bad).unwrap_err();
    assert_eq!(e.errcode, ErrCode::KlDataInvalid);
    assert_eq!(a.kline_list.units.len(), 1);
    let late = KLineUnit { idx: 1, time: 1_000, open: 6, high: 10, low: 5, close: 6, volume: 1, turnover: 0, turnrate: 0, macd: 0 };
    let e = a.add_single_klu(late).unwrap_err();
    assert_eq!(e.errcode, ErrCode::KlTimeInconsistent);
    assert_eq!(a.kline_list.units.len(), 1);
}

#[test]
fn bar_autofix_repairs_extremes() {
    let e = KLineUnit::new(0, 0, 11, 10, 5, 6, 1, false).unwrap_err();
    assert_eq!(e.errcode, ErrCode::KlDataInvalid);
    let u = KLineUnit::new(0, 0, 11, 10, 5, 4, 1, true).unwrap();
    assert_eq!((u.high, u.low), (11, 4));
}

#[test]
fn merged_bars_never_nest() {
    for seed in [1u64, 7, 42] {
        let a = run(&walk(800, seed));
        let k = &a.kline_list.lst;
        for i in 0..k.len() - 1 {
            assert!(!nested(&k[i], &k[i + 1]));
        }
    }
}

#[test]
fn strokes_alternate_and_chain() {
    for seed in [3u64, 11, 99] {
        let a = run(&walk(800, seed));
        let bis = &a.bi_list.bi_list;
        assert!(bis.len() > 5);
        for (k, b) in bis.iter().enumerate() {
            assert_eq!(b.idx, k);
            if k > 0 {
                assert_ne!(b.dir, bis[k - 1].dir);
                assert_eq!(b.begin_klc.idx, bis[k - 1].end_klc.idx);
            }
        }
    }
}

#[test]
fn strokes_run_between_opposite_fractals() {
    let a = run(&walk(800, 5));
    for b in a.bi_list.bi_list.iter() {
        let up = b.dir == BiDir::Up;
        assert_eq!(b.begin_klc.fx, if up { FxType::Bottom } else { FxType::Top });
        if b.is_sure {
            assert_eq!(b.end_klc.fx, if up { FxType::Top } else { FxType::Bottom });
        }
        assert_eq!(b.get_end_val() > b.get_begin_val(), up);
    }
}

#[test]
fn sure_strokes_span_four_merged_bars() {
    let mut conf = ChanConfig::default();
    conf.bi_conf = BiConfig::new(None, Some(true), None, Some(false), None, None).unwrap();
    let mut a = Analyzer::new(String::from("K_DAY"), conf);
    for (i, (h, l)) in walk(800, 8).iter().enumerate() {
        a.add_single_klu(bar(i, *h, *l)).unwrap();
    }
    for b in a.bi_list.bi_list.iter().filter(|b: &&Bi| b.is_sure) {
        assert!(b.end_klc.idx - b.begin_klc.idx >= 4);
    }
}

#[test]
fn segments_chain_and_alternate() {
    for seed in [2u64, 13, 77] {
        let a = run(&walk(1500, seed));
        let segs = &a.seg_list.lst;
        assert!(!segs.is_empty());
        assert_eq!(segs[0].start_bi, 0);
        for j in 0..segs.len() {
            if j > 0 {
                assert_eq!(segs[j].start_bi, segs[j - 1].end_bi + 1);
            }
            if segs[j].is_sure {
                if j > 0 {
                    assert_ne!(segs[j].dir, segs[j - 1].dir);
                }
                if segs[j].is_up() {
                    assert!(segs[j].end_val > segs[j].begin_val);
                } else {
                    assert!(segs[j].end_val < segs[j].begin_val);
                }
                assert!(segs[j].end_bi >= segs[j].start_bi + 2);
            }
        }
    }
}

#[test]
fn zones_hold_their_band() {
    for seed in [4u64, 21, 123] {
        let a = run(&walk(1500, seed));
        let zs = &a.zs_list.zs_lst;
        for z in zs.iter() {
            assert!(z.peak_low <= z.low && z.low <= z.high && z.high <= z.peak_high);
            assert!(z.bi_lst.len() >= 3);
            for m in z.bi_lst.iter() {
                assert!(m.low <= z.high && m.high >= z.low);
            }
        }
    }
}

#[test]
fn merged_bars_of_a_prefix_are_kept() {
    let hl = walk(600, 17);
    let full = run(&hl);
    for m in [50usize, 200, 599] {
        let part = run(&hl[..m]);
        let a = &part.kline_list.lst;
        let b = &full.kline_list.lst;
        for i in 0..a.len() - 1 {
            assert_eq!(a[i], b[i]);
        }
    }
}

#[test]
fn sure_strokes_of_a_prefix_are_kept() {
    let hl = walk(600, 23);
    let full = run(&hl);
    let part = run(&hl[..300]);
    let sure: Vec<&Bi> = part.bi_list.bi_list.iter().filter(|b| b.is_sure).collect();
    // All but the last two confirmed strokes of the prefix stay as they were.
    for b in sure.iter().take(sure.len().saturating_sub(2)) {
        let f = &full.bi_list.bi_list[b.idx];
        assert_eq!(f.begin_klc.idx, b.begin_klc.idx);
        assert_eq!(f.end_klc.idx, b.end_klc.idx);
    }
}

#[test]
fn truncating_segments_twice_is_truncating_once() {
    let mut a = run(&walk(1500, 31));
    let n = a.seg_list.lst.len();
    assert!(n >= 2);
    a.seg_list.truncate_after(0);
    assert_eq!(a.seg_list.lst.len(), 1);
    a.seg_list.truncate_after(0);
    assert_eq!(a.seg_list.lst.len(), 1);
    a.seg_list.truncate_after(5);
    assert_eq!(a.seg_list.lst.len(), 1);
}

#[test]
fn flipped_bars_flip_fractals() {
    let mut hl = walk(400, 55);
    // The first merged bar is seeded upward in both runs; keep the second bar outside it.
    hl[1] = (hl[0].0 + 5, hl[0].1 + 5);
    let flipped: Vec<(i64, i64)> = hl.iter().map(|(h, l)| (-l, -h)).collect();
    let a = run(&hl);
    let b = run(&flipped);
    let ka = &a.kline_list.lst;
    let kb = &b.kline_list.lst;
    assert_eq!(ka.len(), kb.len());
    for i in 1..ka.len() {
        let want = match ka[i].fx {
            FxType::Top => FxType::Bottom,
            FxType::Bottom => FxType::Top,
            FxType::Unknown => FxType::Unknown,
        };
        assert_eq!(kb[i].fx, want);
        assert_eq!(kb[i].high, -ka[i].low);
    }
    let sa = &a.bi_list.bi_list;
    let sb = &b.bi_list.bi_list;
    assert_eq!(sa.len(), sb.len());
    for i in 0..sa.len() {
        assert_ne!(sa[i].dir, sb[i].dir);
    }
}

#[test]
fn batch_mode_matches_step_mode_on_segments() {
    let hl = walk(900, 9);
    let step = run(&hl);
    let mut conf = ChanConfig::default();
    conf.trigger_step = false;
    let mut batch = Analyzer::new(String::from("K_DAY"), conf);
    let units: Vec<KLineUnit> = hl.iter().enumerate().map(|(i, (h, l))| bar(i, *h, *l)).collect();
    batch.update(&units).unwrap();
    assert_eq!(batch.kline_list.lst.len(), step.kline_list.lst.len());
    assert!(batch.bi_list.bi_list.iter().all(|b| b.is_sure));
}

fn walk_with_macd(n: usize, seed: u64) -> Vec<KLineUnit> {
    let hl = walk(n, seed);
    let mut out = Vec::new();
    let mut ema: i64 = hl[0].0;
    for (i, (h, l)) in hl.iter().enumerate() {
        let mid = (h + l) / 2;
        ema = (ema * 9 + mid) / 10;
        let mut u = bar(i, *h, *l);
        u.macd = mid - ema;
        out.push(u);
    }
    out
}

#[test]
fn signals_sit_on_segment_strokes_with_labels() {
    let mut a = Analyzer::new(String::from("K_DAY"), ChanConfig::default());
    for u in walk_with_macd(3000, 61) {
        a.add_single_klu(u).unwrap();
    }
    a.cal_seg_and_zs().unwrap();
    let bis = &a.bi_list.bi_list;
    let pts = &a.bs_point_lst.lst;
    for (i, p) in pts.iter().enumerate() {
        assert!(!p.bs_type.is_empty());
        assert!(p.bi < bis.len());
        assert_eq!(p.is_buy, bis[p.bi].dir == BiDir::Down);
        for q in pts.iter().skip(i + 1) {
            assert_ne!(p.bi, q.bi);
        }
    }
}

#[test]
fn segment_list_validity_and_direction() {
    let a = run(&walk(1500, 13));
    assert!(a.seg_list.is_valid());
    assert!(a.seg_list.exist_sure_seg() || a.seg_list.lst.iter().all(|s| !s.is_sure));
    let bis = &a.bi_list.bi_list;
    let last = a.seg_list.lst.last().unwrap();
    if last.end_bi + 2 < bis.len() {
        let want = if bis[bis.len() - 1].get_end_val() >= bis[last.end_bi + 1].get_begin_val() { BiDir::Up } else { BiDir::Down };
        assert_eq!(a.seg_list.get_seg_dir(bis, bis.len() - 1), want);
    }
    assert!(!a.seg_list.left_bi_break(bis) || bis.len() > last.end_bi + 1);
}

#[test]
fn autofix_pipeline_repairs_instead_of_rejecting() {
    let mut conf = ChanConfig::default();
    conf.autofix = true;
    let mut a = Analyzer::new(String::from("K_DAY"), conf);
    let bad = KLineUnit { idx: 0, time: 2_000, open: 11, high: 10, low: 5, close: 4, volume: 1, turnover: 0, turnrate: 0, macd: 3 };
    a.add_single_klu(bad).unwrap();
    let u = a.kline_list.units[0];
    assert_eq!((u.low, u.high, u.macd), (4, 11, 3));
    assert_eq!((a.kline_list.lst[0].low, a.kline_list.lst[0].high), (4, 11));
}

#[test]
fn strokes_point_back_to_their_segment() {
    for seed in [2u64, 19, 44] {
        let a = run(&walk(1500, seed));
        let bis = &a.bi_list.bi_list;
        let segs = &a.seg_list.lst;
        for s in segs.iter() {
            for k in s.start_bi..=s.end_bi {
                assert_eq!(bis[k].seg_idx, Some(s.idx));
            }
        }
        let last = segs.last().unwrap();
        for b in bis.iter().skip(last.end_bi + 1) {
            assert_eq!(b.seg_idx, Some(last.idx + 1));
        }
    }
}
