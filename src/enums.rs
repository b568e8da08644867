use vstd::prelude::*;

verus! {

/// Buy/sell point kind with its peak and strict refinements.
#[derive(Debug, Clone, Copy, PartialEq, Eq, Structural)]
pub enum BspType {
    BS1,
    BS2,
    BS3,
    BS4,
    BS5,
    BS1Peak,
    BS2Peak,
    BS3Peak,
    BS4Peak,
    BS5Peak,
    BS1Strict,
    BS2Strict,
    BS3Strict,
    BS4Strict,
    BS5Strict,
    BS1PeakStrict,
    BS2PeakStrict,
    BS3PeakStrict,
    BS4PeakStrict,
    BS5PeakStrict,
}

impl BspType {
    /// The number of the kind, 1 to 5.
    pub open spec fn spec_number(self) -> int {
        match self {
            BspType::BS1 | BspType::BS1Peak | BspType::BS1Strict | BspType::BS1PeakStrict => 1,
            BspType::BS2 | BspType::BS2Peak | BspType::BS2Strict | BspType::BS2PeakStrict => 2,
            BspType::BS3 | BspType::BS3Peak | BspType::BS3Strict | BspType::BS3PeakStrict => 3,
            BspType::BS4 | BspType::BS4Peak | BspType::BS4Strict | BspType::BS4PeakStrict => 4,
            BspType::BS5 | BspType::BS5Peak | BspType::BS5Strict | BspType::BS5PeakStrict => 5,
        }
    }

    pub open spec fn spec_is_peak(self) -> bool {
        matches!(self, BspType::BS1Peak | BspType::BS2Peak | BspType::BS3Peak | BspType::BS4Peak
            | BspType::BS5Peak | BspType::BS1PeakStrict | BspType::BS2PeakStrict
            | BspType::BS3PeakStrict | BspType::BS4PeakStrict | BspType::BS5PeakStrict)
    }

    pub open spec fn spec_is_strict(self) -> bool {
        matches!(self, BspType::BS1Strict | BspType::BS2Strict | BspType::BS3Strict
            | BspType::BS4Strict | BspType::BS5Strict | BspType::BS1PeakStrict
            | BspType::BS2PeakStrict | BspType::BS3PeakStrict | BspType::BS4PeakStrict
            | BspType::BS5PeakStrict)
    }

    /// The kind without its peak and strict refinements.
    pub fn base_type(&self) -> (r: Self)
        ensures
            r.spec_number() == self.spec_number(),
            !r.spec_is_peak(),
            !r.spec_is_strict(),
    {
        match self {
            BspType::BS1 | BspType::BS1Peak | BspType::BS1Strict | BspType::BS1PeakStrict => {
                BspType::BS1
            },
            BspType::BS2 | BspType::BS2Peak | BspType::BS2Strict | BspType::BS2PeakStrict => {
                BspType::BS2
            },
            BspType::BS3 | BspType::BS3Peak | BspType::BS3Strict | BspType::BS3PeakStrict => {
                BspType::BS3
            },
            BspType::BS4 | BspType::BS4Peak | BspType::BS4Strict | BspType::BS4PeakStrict => {
                BspType::BS4
            },
            BspType::BS5 | BspType::BS5Peak | BspType::BS5Strict | BspType::BS5PeakStrict => {
                BspType::BS5
            },
        }
    }

    pub fn is_peak(&self) -> (r: bool)
        ensures
            r == self.spec_is_peak(),
    {
        matches!(self, BspType::BS1Peak | BspType::BS2Peak | BspType::BS3Peak | BspType::BS4Peak
            | BspType::BS5Peak | BspType::BS1PeakStrict | BspType::BS2PeakStrict
            | BspType::BS3PeakStrict | BspType::BS4PeakStrict | BspType::BS5PeakStrict)
    }

    pub fn is_strict(&self) -> (r: bool)
        ensures
            r == self.spec_is_strict(),
    {
        matches!(self, BspType::BS1Strict | BspType::BS2Strict | BspType::BS3Strict
            | BspType::BS4Strict | BspType::BS5Strict | BspType::BS1PeakStrict
            | BspType::BS2PeakStrict | BspType::BS3PeakStrict | BspType::BS4PeakStrict
            | BspType::BS5PeakStrict)
    }
}

} // verus!
