use vstd::prelude::*;

verus! {

/// Where bar data comes from.
#[derive(Debug, Clone, Copy, PartialEq, Eq, Structural)]
pub enum DataSrc {
    BaoStock,
    Ccxt,
    Csv,
}

/// Bar period, ordered from the finest to the coarsest.
#[derive(Debug, Clone, Copy, PartialEq, Eq, Structural)]
pub enum KlType {
    K1S,
    K3S,
    K5S,
    K10S,
    K15S,
    K20S,
    K30S,
    K1M,
    K3M,
    K5M,
    K10M,
    K15M,
    K30M,
    K60M,
    KDay,
    KWeek,
    KMon,
    KQuarter,
    KYear,
}

impl KlType {
    /// One-minute bars.
    pub const K1: KlType = KlType::K1M;

    /// Five-minute bars.
    pub const K5: KlType = KlType::K5M;

    /// Rank of the period: 1 for one second up to 19 for one year.
    pub open spec fn spec_level(self) -> int {
        match self {
            KlType::K1S => 1,
            KlType::K3S => 2,
            KlType::K5S => 3,
            KlType::K10S => 4,
            KlType::K15S => 5,
            KlType::K20S => 6,
            KlType::K30S => 7,
            KlType::K1M => 8,
            KlType::K3M => 9,
            KlType::K5M => 10,
            KlType::K10M => 11,
            KlType::K15M => 12,
            KlType::K30M => 13,
            KlType::K60M => 14,
            KlType::KDay => 15,
            KlType::KWeek => 16,
            KlType::KMon => 17,
            KlType::KQuarter => 18,
            KlType::KYear => 19,
        }
    }

    pub fn level(&self) -> (r: u8)
        ensures
            r as int == self.spec_level(),
    {
        match self {
            KlType::K1S => 1,
            KlType::K3S => 2,
            KlType::K5S => 3,
            KlType::K10S => 4,
            KlType::K15S => 5,
            KlType::K20S => 6,
            KlType::K30S => 7,
            KlType::K1M => 8,
            KlType::K3M => 9,
            KlType::K5M => 10,
            KlType::K10M => 11,
            KlType::K15M => 12,
            KlType::K30M => 13,
            KlType::K60M => 14,
            KlType::KDay => 15,
            KlType::KWeek => 16,
            KlType::KMon => 17,
            KlType::KQuarter => 18,
            KlType::KYear => 19,
        }
    }
}

/// Relation of a bar to the merged bar before it.
#[derive(Debug, Clone, Copy, PartialEq, Eq, Structural)]
pub enum KlineDir {
    Up,
    Down,
    Combine,
    Included,
}

/// Fractal kind of a merged bar.
#[derive(Debug, Clone, Copy, PartialEq, Eq, Structural)]
pub enum FxType {
    Bottom,
    Top,
    Unknown,
}

/// Direction of a stroke or segment.
#[derive(Debug, Clone, Copy, PartialEq, Eq, Structural)]
pub enum BiDir {
    Up,
    Down,
}

/// How a stroke came about.
#[derive(Debug, Clone, Copy, PartialEq, Eq, Structural)]
pub enum BiType {
    Unknown,
    Strict,
    SubValue,
    TiaokongThred,
    Daheng,
    Tuibi,
    Unstrict,
    TiaokongValue,
}

/// Label of a buy/sell point.
#[derive(Debug, Clone, Copy, PartialEq, Eq, Structural)]
pub enum BspType {
    T1,
    T1P,
    T2,
    T2S,
    T3A,
    T3B,
}

impl BspType {
    pub open spec fn spec_main_type(self) -> Seq<char> {
        match self {
            BspType::T1 | BspType::T1P => seq!['1'],
            BspType::T2 | BspType::T2S => seq!['2'],
            BspType::T3A | BspType::T3B => seq!['3'],
        }
    }

    /// The family of the label: "1", "2" or "3".
    pub fn main_type(&self) -> (r: &'static str)
        ensures
            r@ == self.spec_main_type(),
    {
        proof {
            reveal_strlit("1");
            reveal_strlit("2");
            reveal_strlit("3");
        }
        match self {
            BspType::T1 | BspType::T1P => "1",
            BspType::T2 | BspType::T2S => "2",
            BspType::T3A | BspType::T3B => "3",
        }
    }

    pub open spec fn spec_label(self) -> Seq<char> {
        match self {
            BspType::T1 => "1"@,
            BspType::T1P => "1p"@,
            BspType::T2 => "2"@,
            BspType::T2S => "2s"@,
            BspType::T3A => "3a"@,
            BspType::T3B => "3b"@,
        }
    }

    /// The short label: "1", "1p", "2", "2s", "3a" or "3b".
    pub fn label(&self) -> (r: &'static str)
        ensures
            r@ == self.spec_label(),
    {
        match self {
            BspType::T1 => "1",
            BspType::T1P => "1p",
            BspType::T2 => "2",
            BspType::T2S => "2s",
            BspType::T3A => "3a",
            BspType::T3B => "3b",
        }
    }
}

/// Price adjustment.
#[derive(Debug, Clone, Copy, PartialEq, Eq, Structural)]
pub enum AuType {
    Qfq,
    Hfq,
    Raw,
}

/// Aggregation used by trend statistics.
#[derive(Debug, Clone, Copy, PartialEq, Eq, Structural)]
pub enum TrendType {
    Mean,
    Max,
    Min,
}

/// Side of a segment trend line.
#[derive(Debug, Clone, Copy, PartialEq, Eq, Structural)]
pub enum TrendLineSide {
    Inside,
    Outside,
}

/// How trailing strokes that form no confirmed segment are wrapped.
#[derive(Debug, Clone, Copy, PartialEq, Eq, Structural)]
pub enum LeftSegMethod {
    All,
    Peak,
}

/// How much of the fractal window must stay dominant for a stroke end.
#[derive(Debug, Clone, Copy, PartialEq, Eq, Structural)]
pub enum FxCheckMethod {
    Strict,
    Loss,
    Half,
    Totally,
}

/// Level a segment list is built on.
#[derive(Debug, Clone, Copy, PartialEq, Eq, Structural)]
pub enum SegType {
    Bi,
    Seg,
}

/// Metric used by divergence tests.
#[derive(Debug, Clone, Copy, PartialEq, Eq, Structural)]
pub enum MacdAlgo {
    Area,
    Peak,
    FullArea,
    Diff,
    Slope,
    Amp,
    Volumn,
    Amount,
    VolumnAvg,
    AmountAvg,
    TurnrateAvg,
    Rsi,
}

/// Names of the columns of bar data.
#[derive(Debug, Clone)]
pub struct DataField;

impl DataField {
    pub const FIELD_TIME: &'static str = "time_key";
    pub const FIELD_OPEN: &'static str = "open";
    pub const FIELD_HIGH: &'static str = "high";
    pub const FIELD_LOW: &'static str = "low";
    pub const FIELD_CLOSE: &'static str = "close";
    pub const FIELD_VOLUME: &'static str = "volume";
    pub const FIELD_TURNOVER: &'static str = "turnover";
    pub const FIELD_TURNRATE: &'static str = "turnover_rate";
}

} // verus!
