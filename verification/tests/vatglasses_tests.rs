use vacs_data::ImportError;
use vacs_data::facility::FacilityType;
use vacs_data::model::{PositionConfigFile, StationConfigFile};
use vacs_data::vatglasses::{self, Airspace, Position, PositionEntry, TryFromRef, VatglassesData};

fn entry(id: &str, pre: &[&str], type_label: &str, frequency: Option<&str>) -> PositionEntry {
    PositionEntry {
        id: id.to_string(),
        position: Position {
            pre: pre.iter().map(|p| p.to_string()).collect(),
            type_label: type_label.to_string(),
            frequency: frequency.map(|f| f.to_string()),
        },
    }
}

fn airspace(id: &str, group: &str, owner: &[&str]) -> Airspace {
    Airspace {
        id: id.to_string(),
        group: group.to_string(),
        owner: owner.iter().map(|o| o.to_string()).collect(),
    }
}

fn data(airspace: Vec<Airspace>, positions: Vec<PositionEntry>) -> VatglassesData {
    VatglassesData { airspace, positions }
}

#[test]
fn positions_convert_with_given_frequency() {
    let d = data(vec![], vec![entry("EGLL_TWR", &["EGLL"], "TWR", Some("118.500"))]);
    let f = PositionConfigFile::positions_from(&d).expect("conversion should succeed");
    assert_eq!(f.positions.len(), 1);
    assert_eq!(f.positions[0].id.0, "EGLL_TWR");
    assert_eq!(f.positions[0].frequency, "118.500");
    assert_eq!(f.positions[0].facility_type, FacilityType::Tower);
    assert!(f.positions[0].profile_id.is_none());
}

#[test]
fn omitted_frequency_defaults_to_sentinel() {
    let d = data(vec![], vec![entry("EGLL_TWR", &["EGLL"], "TWR", None)]);
    let f = PositionConfigFile::positions_from(&d).unwrap();
    assert_eq!(f.positions[0].frequency, "199.998");
}

#[test]
fn unparsable_type_fails_the_whole_conversion() {
    let d = data(
        vec![],
        vec![
            entry("EGLL_TWR", &["EGLL"], "TWR", Some("118.500")),
            entry("BAD", &[], "NOPE", None),
        ],
    );
    let r = PositionConfigFile::positions_from(&d);
    assert!(matches!(r, Err(ImportError::InvalidFacilityType)));
    // The whole import fails with it too.
    assert!(vatglasses::import(&d).is_err());
}

#[test]
fn prefixes_become_a_set_first_occurrence_kept() {
    let d = data(vec![], vec![entry("X", &["LON", "EGLL", "LON"], "CTR", None)]);
    let f = PositionConfigFile::positions_from(&d).unwrap();
    assert_eq!(f.positions[0].prefixes, vec!["LON".to_string(), "EGLL".to_string()]);
}

#[test]
fn airspace_converts_to_stations() {
    let d = data(vec![airspace("EGTT", "CTR", &["LON_S_CTR", "LON_C_CTR", "LON_S_CTR"])], vec![]);
    let (f, warnings) = StationConfigFile::stations_from(&d);
    assert_eq!(f.stations.len(), 1);
    assert_eq!(f.stations[0].id.0, "EGTT");
    assert!(f.stations[0].parent_id.is_none());
    let owners: Vec<&str> = f.stations[0].controlled_by.iter().map(|o| o.0.as_str()).collect();
    assert_eq!(owners, vec!["LON_S_CTR", "LON_C_CTR"]);
    assert!(warnings.is_empty());
}

#[test]
fn unrecognized_group_is_included_as_unknown() {
    let d = data(vec![airspace("EGTT", "somegroup", &["LON_S_CTR"])], vec![]);
    let (f, warnings) = StationConfigFile::stations_from(&d);
    assert_eq!(f.stations.len(), 1);
    assert!(warnings.is_empty());
    // A second entry with another unrecognized group and the same id is a
    // duplicate: both labels resolve to the unknown sentinel.
    let d = data(
        vec![airspace("EGTT", "somegroup", &[]), airspace("EGTT", "othergroup", &[])],
        vec![],
    );
    let (f, warnings) = StationConfigFile::stations_from(&d);
    assert_eq!(f.stations.len(), 2);
    assert_eq!(warnings.len(), 1);
    assert_eq!(warnings[0].facility_type, FacilityType::Unknown);
}

#[test]
fn duplicate_stations_are_both_kept_and_warned_about() {
    let d = data(
        vec![
            airspace("EGTT", "CTR", &["LON_S_CTR"]),
            airspace("EGPX", "CTR", &["SCO_CTR"]),
            airspace("EGTT", "CTR", &["LON_C_CTR"]),
        ],
        vec![],
    );
    let (f, warnings) = StationConfigFile::stations_from(&d);
    // No rejection: all three appear.
    assert_eq!(f.stations.len(), 3);
    // One warning, for the second occurrence of (EGTT, Center).
    assert_eq!(warnings.len(), 1);
    assert_eq!(warnings[0].id, "EGTT");
    assert_eq!(warnings[0].facility_type, FacilityType::Center);
}

#[test]
fn same_id_different_group_is_not_a_duplicate() {
    let d = data(
        vec![airspace("EGTT", "CTR", &[]), airspace("EGTT", "APP", &[])],
        vec![],
    );
    let (_, warnings) = StationConfigFile::stations_from(&d);
    assert!(warnings.is_empty());
}

#[test]
fn try_from_ref_matches_the_named_conversions() {
    let d = data(
        vec![airspace("EGTT", "CTR", &["LON_S_CTR"])],
        vec![entry("EGLL_TWR", &["EGLL"], "TWR", None)],
    );
    let p = PositionConfigFile::try_from_ref(&d).unwrap();
    assert_eq!(p.positions.len(), 1);
    let s = StationConfigFile::try_from_ref(&d).unwrap();
    assert_eq!(s.stations.len(), 1);
}

#[test]
fn import_sorts_positions_by_type_then_id_and_stations_by_id() {
    let d = data(
        vec![airspace("EGPX", "CTR", &[]), airspace("EGTT", "CTR", &[]), airspace("EGAA", "APP", &[])],
        vec![
            entry("EGLL_TWR", &[], "TWR", None),
            entry("LON_S_CTR", &[], "CTR", None),
            entry("EGKK_TWR", &[], "TWR", None),
            entry("LON_S_APP", &[], "APP", None),
        ],
    );
    let v = vatglasses::import(&d).unwrap();
    let pids: Vec<&str> = v.positions.positions.iter().map(|p| p.id.0.as_str()).collect();
    assert_eq!(pids, vec!["LON_S_CTR", "LON_S_APP", "EGKK_TWR", "EGLL_TWR"]);
    let sids: Vec<&str> = v.stations.stations.iter().map(|s| s.id.0.as_str()).collect();
    assert_eq!(sids, vec!["EGAA", "EGPX", "EGTT"]);
}

#[test]
fn duplicate_station_ids_survive_sorting() {
    let d = data(
        vec![
            airspace("EGTT", "CTR", &["A"]),
            airspace("EGAA", "APP", &[]),
            airspace("EGTT", "CTR", &["B"]),
        ],
        vec![],
    );
    let v = vatglasses::import(&d).unwrap();
    let sids: Vec<&str> = v.stations.stations.iter().map(|s| s.id.0.as_str()).collect();
    assert_eq!(sids, vec!["EGAA", "EGTT", "EGTT"]);
    // The sort is stable: the two duplicates keep their input order.
    assert_eq!(v.stations.stations[1].controlled_by[0].0, "A");
    assert_eq!(v.stations.stations[2].controlled_by[0].0, "B");
    assert_eq!(v.duplicates.len(), 1);
}

#[test]
fn vatglasses_import_twice_gives_identical_output() {
    let mk = || {
        data(
            vec![airspace("EGTT", "CTR", &["LON_S_CTR"]), airspace("EGTT", "CTR", &[])],
            vec![entry("EGLL_TWR", &["EGLL"], "TWR", None), entry("LON_S_CTR", &[], "CTR", Some("129.430"))],
        )
    };
    let a = vatglasses::import(&mk()).unwrap();
    let b = vatglasses::import(&mk()).unwrap();
    assert_eq!(a.positions.positions.len(), b.positions.positions.len());
    for (x, y) in a.positions.positions.iter().zip(b.positions.positions.iter()) {
        assert_eq!(x.id.0, y.id.0);
        assert_eq!(x.frequency, y.frequency);
        assert_eq!(x.prefixes, y.prefixes);
        assert_eq!(x.facility_type, y.facility_type);
    }
    assert_eq!(a.stations.stations.len(), b.stations.stations.len());
    for (x, y) in a.stations.stations.iter().zip(b.stations.stations.iter()) {
        assert_eq!(x.id.0, y.id.0);
        let xo: Vec<&str> = x.controlled_by.iter().map(|o| o.0.as_str()).collect();
        let yo: Vec<&str> = y.controlled_by.iter().map(|o| o.0.as_str()).collect();
        assert_eq!(xo, yo);
    }
    assert_eq!(a.duplicates.len(), b.duplicates.len());
}
