//! The canonical schema both importers produce: position and station
//! records, grouped into the two persisted config files.
//!
//! Each executable type has a mathematical record (`...Record`) as its deep
//! view; all contracts in this crate speak over those records.

use vstd::prelude::*;
use crate::facility::FacilityType;

verus! {

/// Opaque string-backed identifier of a position.
#[derive(Debug, Clone)]
pub struct PositionId(pub String);

impl View for PositionId {
    type V = Seq<char>;

    open spec fn view(&self) -> Seq<char> {
        self.0@
    }
}

impl DeepView for PositionId {
    type V = Seq<char>;

    open spec fn deep_view(&self) -> Seq<char> {
        self.0@
    }
}

impl PositionId {
    /// Builds an identifier from its raw source string.
    pub fn new(s: String) -> (r: PositionId)
        ensures
            r@ == s@,
    {
        PositionId(s)
    }
}

/// Opaque string-backed identifier of a station.
#[derive(Debug, Clone)]
pub struct StationId(pub String);

impl View for StationId {
    type V = Seq<char>;

    open spec fn view(&self) -> Seq<char> {
        self.0@
    }
}

impl DeepView for StationId {
    type V = Seq<char>;

    open spec fn deep_view(&self) -> Seq<char> {
        self.0@
    }
}

impl StationId {
    /// Builds an identifier from its raw source string.
    pub fn new(s: String) -> (r: StationId)
        ensures
            r@ == s@,
    {
        StationId(s)
    }
}

/// Mathematical view of a position record.
#[verifier::ext_equal]
pub ghost struct PositionRecord {
    pub id: Seq<char>,
    pub frequency: Seq<char>,
    pub prefixes: Seq<Seq<char>>,
    pub facility_type: FacilityType,
    pub profile_id: Option<Seq<char>>,
}

/// A controllable position: identifier, frequency, callsign prefixes it
/// covers, category, and an optional controller profile.
///
/// `prefixes` is a set kept as a list: duplicates are removed, first
/// occurrence kept, so that output is reproducible.
#[derive(Debug, Clone)]
pub struct PositionRaw {
    pub id: PositionId,
    pub frequency: String,
    pub prefixes: Vec<String>,
    pub facility_type: FacilityType,
    pub profile_id: Option<String>,
}

impl View for PositionRaw {
    type V = PositionRecord;

    open spec fn view(&self) -> PositionRecord {
        PositionRecord {
            id: self.id@,
            frequency: self.frequency@,
            prefixes: self.prefixes.deep_view(),
            facility_type: self.facility_type,
            profile_id: self.profile_id.deep_view(),
        }
    }
}

impl DeepView for PositionRaw {
    type V = PositionRecord;

    open spec fn deep_view(&self) -> PositionRecord {
        self.view()
    }
}

/// Mathematical view of a station record.
#[verifier::ext_equal]
pub ghost struct StationRecord {
    pub id: Seq<char>,
    pub parent_id: Option<Seq<char>>,
    pub controlled_by: Seq<Seq<char>>,
}

/// An airspace/ownership entity controlled by one or more positions.
///
/// `controlled_by` is a set kept as a list: duplicates are removed, first
/// occurrence kept, so that output is reproducible.
#[derive(Debug, Clone)]
pub struct StationRaw {
    pub id: StationId,
    pub parent_id: Option<StationId>,
    pub controlled_by: Vec<PositionId>,
}

impl View for StationRaw {
    type V = StationRecord;

    open spec fn view(&self) -> StationRecord {
        StationRecord {
            id: self.id@,
            parent_id: self.parent_id.deep_view(),
            controlled_by: self.controlled_by.deep_view(),
        }
    }
}

impl DeepView for StationRaw {
    type V = StationRecord;

    open spec fn deep_view(&self) -> StationRecord {
        self.view()
    }
}

/// The persisted list of positions.
#[derive(Debug, Clone)]
pub struct PositionConfigFile {
    pub positions: Vec<PositionRaw>,
}

impl View for PositionConfigFile {
    type V = Seq<PositionRecord>;

    open spec fn view(&self) -> Seq<PositionRecord> {
        self.positions.deep_view()
    }
}

/// The persisted list of stations.
#[derive(Debug, Clone)]
pub struct StationConfigFile {
    pub stations: Vec<StationRaw>,
}

impl View for StationConfigFile {
    type V = Seq<StationRecord>;

    open spec fn view(&self) -> Seq<StationRecord> {
        self.stations.deep_view()
    }
}

} // verus!
