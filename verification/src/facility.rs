//! The closed enumeration of controller-position categories.
//!
//! Two distinct string conversions exist on purpose and must stay distinct:
//! a *strict* parse that fails on an unrecognized code, used where a bad
//! entry must be surfaced, and a *lenient* mapping from group labels that
//! sends anything unrecognized to [`FacilityType::Unknown`], used where a
//! bad label must still produce a record.

use vstd::prelude::*;

verus! {

/// Category of a controller position.  The declared order is the ordinal
/// order the normalizer sorts by (highest ordinal first in output).
#[derive(Debug, Clone, Copy, PartialEq, Eq, Hash, Structural)]
pub enum FacilityType {
    /// Sentinel for labels outside the closed set.
    Unknown,
    /// Observer.
    Observer,
    /// Flight service station.
    FlightService,
    /// Clearance delivery.
    Delivery,
    /// Ground.
    Ground,
    /// Tower.
    Tower,
    /// Approach / departure.
    Approach,
    /// Enroute center.
    Center,
}

impl FacilityType {
    /// Position of the variant in the declared order.
    pub open spec fn ordinal_spec(self) -> int {
        match self {
            FacilityType::Unknown => 0,
            FacilityType::Observer => 1,
            FacilityType::FlightService => 2,
            FacilityType::Delivery => 3,
            FacilityType::Ground => 4,
            FacilityType::Tower => 5,
            FacilityType::Approach => 6,
            FacilityType::Center => 7,
        }
    }

    /// Canonical code of the variant, as a sequence of characters.
    pub open spec fn code_spec(self) -> Seq<char> {
        match self {
            FacilityType::Unknown => "UNK"@,
            FacilityType::Observer => "OBS"@,
            FacilityType::FlightService => "FSS"@,
            FacilityType::Delivery => "DEL"@,
            FacilityType::Ground => "GND"@,
            FacilityType::Tower => "TWR"@,
            FacilityType::Approach => "APP"@,
            FacilityType::Center => "CTR"@,
        }
    }

    /// Strict conversion: the variant whose canonical code is `s`, if any.
    pub open spec fn strict_of(s: Seq<char>) -> Option<FacilityType> {
        if s == "UNK"@ {
            Some(FacilityType::Unknown)
        } else if s == "OBS"@ {
            Some(FacilityType::Observer)
        } else if s == "FSS"@ {
            Some(FacilityType::FlightService)
        } else if s == "DEL"@ {
            Some(FacilityType::Delivery)
        } else if s == "GND"@ {
            Some(FacilityType::Ground)
        } else if s == "TWR"@ {
            Some(FacilityType::Tower)
        } else if s == "APP"@ {
            Some(FacilityType::Approach)
        } else if s == "CTR"@ {
            Some(FacilityType::Center)
        } else {
            None
        }
    }

    /// Lenient conversion: like the strict one, but total; an unrecognized
    /// label maps to `Unknown` instead of failing.
    pub open spec fn lenient_of(s: Seq<char>) -> FacilityType {
        match FacilityType::strict_of(s) {
            Some(ft) => ft,
            None => FacilityType::Unknown,
        }
    }

    /// Position of the variant in the declared order.
    pub fn ordinal(self) -> (r: u8)
        ensures
            r as int == self.ordinal_spec(),
    {
        match self {
            FacilityType::Unknown => 0,
            FacilityType::Observer => 1,
            FacilityType::FlightService => 2,
            FacilityType::Delivery => 3,
            FacilityType::Ground => 4,
            FacilityType::Tower => 5,
            FacilityType::Approach => 6,
            FacilityType::Center => 7,
        }
    }

    /// Canonical code of the variant.
    pub fn as_str(self) -> (r: &'static str)
        ensures
            r@ == self.code_spec(),
    {
        match self {
            FacilityType::Unknown => "UNK",
            FacilityType::Observer => "OBS",
            FacilityType::FlightService => "FSS",
            FacilityType::Delivery => "DEL",
            FacilityType::Ground => "GND",
            FacilityType::Tower => "TWR",
            FacilityType::Approach => "APP",
            FacilityType::Center => "CTR",
        }
    }

    /// Strict textual parse; fails on anything but a canonical code.
    pub fn parse_strict(s: &str) -> (r: Option<FacilityType>)
        ensures
            r == FacilityType::strict_of(s@),
    {
        if crate::text::str_eq(s, "UNK") {
            Some(FacilityType::Unknown)
        } else if crate::text::str_eq(s, "OBS") {
            Some(FacilityType::Observer)
        } else if crate::text::str_eq(s, "FSS") {
            Some(FacilityType::FlightService)
        } else if crate::text::str_eq(s, "DEL") {
            Some(FacilityType::Delivery)
        } else if crate::text::str_eq(s, "GND") {
            Some(FacilityType::Ground)
        } else if crate::text::str_eq(s, "TWR") {
            Some(FacilityType::Tower)
        } else if crate::text::str_eq(s, "APP") {
            Some(FacilityType::Approach)
        } else if crate::text::str_eq(s, "CTR") {
            Some(FacilityType::Center)
        } else {
            None
        }
    }

    /// Lenient conversion from a group label; never fails.
    pub fn from_label(s: &str) -> (r: FacilityType)
        ensures
            r == FacilityType::lenient_of(s@),
    {
        match FacilityType::parse_strict(s) {
            Some(ft) => ft,
            None => FacilityType::Unknown,
        }
    }
}

} // verus!
