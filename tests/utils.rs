use chan_core::cenum::{BiDir, KlType};
use chan_core::utils::{check_kltype_order, has_overlap, kltype_lt_day, kltype_lte_day, parse_inf, revert_bi_dir};

#[test]
fn test_kltype_lt_day() {
    assert!(kltype_lt_day(KlType::K1));
    assert!(kltype_lt_day(KlType::K5));
    assert!(!kltype_lt_day(KlType::KDay));
    assert!(!kltype_lt_day(KlType::KWeek));
}

#[test]
fn test_kltype_lte_day() {
    assert!(kltype_lte_day(KlType::K1));
    assert!(kltype_lte_day(KlType::K5));
    assert!(kltype_lte_day(KlType::KDay));
    assert!(!kltype_lte_day(KlType::KWeek));
}

#[test]
fn test_revert_bi_dir() {
    assert_eq!(revert_bi_dir(BiDir::Up), BiDir::Down);
    assert_eq!(revert_bi_dir(BiDir::Down), BiDir::Up);
}

#[test]
fn test_has_overlap() {
    assert!(has_overlap(1, 3, 2, 4, false));
    assert!(has_overlap(2, 4, 1, 3, false));
    assert!(!has_overlap(1, 2, 3, 4, false));
    assert!(has_overlap(1, 2, 2, 3, true));
    assert!(!has_overlap(1, 2, 2, 3, false));
}

#[test]
fn test_parse_inf() {
    assert_eq!(parse_inf("inf"), "f64::INFINITY");
    assert_eq!(parse_inf("-inf"), "f64::NEG_INFINITY");
    assert_eq!(parse_inf("1.23"), "1.23");
}

#[test]
fn parse_inf_python_spellings() {
    assert_eq!(parse_inf("float(\"inf\")"), "f64::INFINITY");
    assert_eq!(parse_inf("float(\"-inf\")"), "f64::NEG_INFINITY");
    assert_eq!(parse_inf("infinity"), "infinity");
}

#[test]
fn kltype_order_checks() {
    assert!(check_kltype_order(&[KlType::KDay, KlType::K60M, KlType::K1M]).is_ok());
    assert!(check_kltype_order(&[]).is_ok());
    let e = check_kltype_order(&[KlType::K1M, KlType::KDay]).unwrap_err();
    assert_eq!(e.errcode, chan_core::chan_exception::ErrCode::ParaError);
    assert!(check_kltype_order(&[KlType::KDay, KlType::KDay]).is_err());
}

#[test]
fn kltype_levels() {
    assert_eq!(KlType::K1S.level(), 1);
    assert_eq!(KlType::KDay.level(), 15);
    assert_eq!(KlType::KYear.level(), 19);
}
