use vstd::prelude::*;

verus! {

/// Error codes, in three numbered bands: analysis errors (0..99), trade
/// errors (100..199) and bar data errors (200..299).
#[derive(Debug, Clone, Copy, PartialEq, Eq, Structural)]
pub enum ErrCode {
    ChanErrBegin,
    CommonError,
    SrcDataNotFound,
    SrcDataTypeErr,
    ParaError,
    ExtraKluErr,
    SegEndValueErr,
    SegEigenErr,
    BiErr,
    CombinerErr,
    PlotErr,
    ModelError,
    SegLenErr,
    EnvConfErr,
    UnknownDbType,
    FeatureError,
    ConfigError,
    SrcDataFormatError,
    ChanErrEnd,
    TradeErrBegin,
    SignalExisted,
    RecordNotExist,
    RecordAlreadyOpened,
    QuotaNotEnough,
    RecordNotOpened,
    TradeUnlockFail,
    PlaceOrderFail,
    ListOrderFail,
    CandelOrderFail,
    GetFutuPriceFail,
    GetFutuLotSizeFail,
    OpenRecordNotWatching,
    GetHoldingQtyFail,
    RecordClosed,
    RequestTradingDaysFail,
    CoverOrderIdNotUnique,
    SignalTraded,
    TradeErrEnd,
    KlErrBegin,
    PriceBelowZero,
    KlDataNotAlign,
    KlDataInvalid,
    KlTimeInconsistent,
    TradeinfoTooMuchZero,
    KlNotMonotonous,
    SnapshotErr,
    Suspension,
    StockIpoTooLate,
    NoData,
    StockNotActive,
    StockPriceNotActive,
    KlErrEnd,
}

impl ErrCode {
    /// The numeric code of each error.
    pub open spec fn spec_code(self) -> int {
        match self {
            ErrCode::ChanErrBegin => 0,
            ErrCode::CommonError => 1,
            ErrCode::SrcDataNotFound => 3,
            ErrCode::SrcDataTypeErr => 4,
            ErrCode::ParaError => 5,
            ErrCode::ExtraKluErr => 6,
            ErrCode::SegEndValueErr => 7,
            ErrCode::SegEigenErr => 8,
            ErrCode::BiErr => 9,
            ErrCode::CombinerErr => 10,
            ErrCode::PlotErr => 11,
            ErrCode::ModelError => 12,
            ErrCode::SegLenErr => 13,
            ErrCode::EnvConfErr => 14,
            ErrCode::UnknownDbType => 15,
            ErrCode::FeatureError => 16,
            ErrCode::ConfigError => 17,
            ErrCode::SrcDataFormatError => 18,
            ErrCode::ChanErrEnd => 99,
            ErrCode::TradeErrBegin => 100,
            ErrCode::SignalExisted => 101,
            ErrCode::RecordNotExist => 102,
            ErrCode::RecordAlreadyOpened => 103,
            ErrCode::QuotaNotEnough => 104,
            ErrCode::RecordNotOpened => 105,
            ErrCode::TradeUnlockFail => 106,
            ErrCode::PlaceOrderFail => 107,
            ErrCode::ListOrderFail => 108,
            ErrCode::CandelOrderFail => 109,
            ErrCode::GetFutuPriceFail => 110,
            ErrCode::GetFutuLotSizeFail => 111,
            ErrCode::OpenRecordNotWatching => 112,
            ErrCode::GetHoldingQtyFail => 113,
            ErrCode::RecordClosed => 114,
            ErrCode::RequestTradingDaysFail => 115,
            ErrCode::CoverOrderIdNotUnique => 116,
            ErrCode::SignalTraded => 117,
            ErrCode::TradeErrEnd => 199,
            ErrCode::KlErrBegin => 200,
            ErrCode::PriceBelowZero => 201,
            ErrCode::KlDataNotAlign => 202,
            ErrCode::KlDataInvalid => 203,
            ErrCode::KlTimeInconsistent => 204,
            ErrCode::TradeinfoTooMuchZero => 205,
            ErrCode::KlNotMonotonous => 206,
            ErrCode::SnapshotErr => 207,
            ErrCode::Suspension => 208,
            ErrCode::StockIpoTooLate => 209,
            ErrCode::NoData => 210,
            ErrCode::StockNotActive => 211,
            ErrCode::StockPriceNotActive => 212,
            ErrCode::KlErrEnd => 299,
        }
    }

    pub fn code(&self) -> (r: u16)
        ensures
            r as int == self.spec_code(),
    {
        match self {
            ErrCode::ChanErrBegin => 0,
            ErrCode::CommonError => 1,
            ErrCode::SrcDataNotFound => 3,
            ErrCode::SrcDataTypeErr => 4,
            ErrCode::ParaError => 5,
            ErrCode::ExtraKluErr => 6,
            ErrCode::SegEndValueErr => 7,
            ErrCode::SegEigenErr => 8,
            ErrCode::BiErr => 9,
            ErrCode::CombinerErr => 10,
            ErrCode::PlotErr => 11,
            ErrCode::ModelError => 12,
            ErrCode::SegLenErr => 13,
            ErrCode::EnvConfErr => 14,
            ErrCode::UnknownDbType => 15,
            ErrCode::FeatureError => 16,
            ErrCode::ConfigError => 17,
            ErrCode::SrcDataFormatError => 18,
            ErrCode::ChanErrEnd => 99,
            ErrCode::TradeErrBegin => 100,
            ErrCode::SignalExisted => 101,
            ErrCode::RecordNotExist => 102,
            ErrCode::RecordAlreadyOpened => 103,
            ErrCode::QuotaNotEnough => 104,
            ErrCode::RecordNotOpened => 105,
            ErrCode::TradeUnlockFail => 106,
            ErrCode::PlaceOrderFail => 107,
            ErrCode::ListOrderFail => 108,
            ErrCode::CandelOrderFail => 109,
            ErrCode::GetFutuPriceFail => 110,
            ErrCode::GetFutuLotSizeFail => 111,
            ErrCode::OpenRecordNotWatching => 112,
            ErrCode::GetHoldingQtyFail => 113,
            ErrCode::RecordClosed => 114,
            ErrCode::RequestTradingDaysFail => 115,
            ErrCode::CoverOrderIdNotUnique => 116,
            ErrCode::SignalTraded => 117,
            ErrCode::TradeErrEnd => 199,
            ErrCode::KlErrBegin => 200,
            ErrCode::PriceBelowZero => 201,
            ErrCode::KlDataNotAlign => 202,
            ErrCode::KlDataInvalid => 203,
            ErrCode::KlTimeInconsistent => 204,
            ErrCode::TradeinfoTooMuchZero => 205,
            ErrCode::KlNotMonotonous => 206,
            ErrCode::SnapshotErr => 207,
            ErrCode::Suspension => 208,
            ErrCode::StockIpoTooLate => 209,
            ErrCode::NoData => 210,
            ErrCode::StockNotActive => 211,
            ErrCode::StockPriceNotActive => 212,
            ErrCode::KlErrEnd => 299,
        }
    }

    /// True of the bar data errors, strictly inside their band.
    pub fn is_kldata_err(&self) -> (r: bool)
        ensures
            r == (200 < self.spec_code() && self.spec_code() < 299),
    {
        let c = self.code();
        c > 200 && c < 299
    }

    /// True of the analysis errors, strictly inside their band.
    pub fn is_chan_err(&self) -> (r: bool)
        ensures
            r == (0 < self.spec_code() && self.spec_code() < 99),
    {
        let c = self.code();
        c > 0 && c < 99
    }
}

/// An error with its code and a message.
#[derive(Debug)]
pub struct ChanError {
    pub errcode: ErrCode,
    pub msg: String,
}

impl ChanError {
    pub fn new(message: String, code: ErrCode) -> (r: Self)
        ensures
            r.errcode == code,
            r.msg@ == message@,
    {
        ChanError { errcode: code, msg: message }
    }

    /// An error whose message is a literal.
    pub fn with_msg(message: &str, code: ErrCode) -> (r: Self)
        ensures
            r.errcode == code,
            r.msg@ == message@,
    {
        ChanError { errcode: code, msg: message.to_string() }
    }

    pub fn is_kldata_err(&self) -> (r: bool)
        ensures
            r == (200 < self.errcode.spec_code() && self.errcode.spec_code() < 299),
    {
        self.errcode.is_kldata_err()
    }

    pub fn is_chan_err(&self) -> (r: bool)
        ensures
            r == (0 < self.errcode.spec_code() && self.errcode.spec_code() < 99),
    {
        self.errcode.is_chan_err()
    }
}

} // verus!
