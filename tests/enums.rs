use chan_core::cenum::BspType as Label;
use chan_core::chan_exception::{ChanError, ErrCode};
use chan_core::enums::BspType;

#[test]
fn bsp_base_type_strips_refinements() {
    assert_eq!(BspType::BS3PeakStrict.base_type(), BspType::BS3);
    assert_eq!(BspType::BS1Peak.base_type(), BspType::BS1);
    assert_eq!(BspType::BS5.base_type(), BspType::BS5);
}

#[test]
fn bsp_peak_and_strict_flags() {
    assert!(BspType::BS2Peak.is_peak());
    assert!(!BspType::BS2Peak.is_strict());
    assert!(BspType::BS4PeakStrict.is_peak());
    assert!(BspType::BS4PeakStrict.is_strict());
    assert!(!BspType::BS1.is_peak());
}

#[test]
fn bsp_label_main_type() {
    assert_eq!(Label::T1P.main_type(), "1");
    assert_eq!(Label::T2S.main_type(), "2");
    assert_eq!(Label::T3B.main_type(), "3");
    assert_eq!(Label::T3A.label(), "3a");
}

#[test]
fn err_code_bands() {
    assert!(ErrCode::KlTimeInconsistent.is_kldata_err());
    assert!(!ErrCode::KlErrBegin.is_kldata_err());
    assert!(ErrCode::BiErr.is_chan_err());
    assert!(!ErrCode::ChanErrEnd.is_chan_err());
    assert!(!ErrCode::SignalExisted.is_chan_err());
    assert_eq!(ErrCode::SegLenErr.code(), 13);
    let e = ChanError::new(String::from("x"), ErrCode::KlDataInvalid);
    assert!(e.is_kldata_err());
    assert!(!e.is_chan_err());
}
