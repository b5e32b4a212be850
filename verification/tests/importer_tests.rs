use vacs_data::cli::{Action, Command, ImportCommand, UsageError, plan};
use vacs_data::facility::FacilityType;
use vacs_data::{DirAction, ImportError, WriteAction, check_input_exists, check_output_file,
    ensure_output_directory};

#[test]
fn missing_input_is_rejected() {
    assert_eq!(check_input_exists(false), Err(ImportError::InputMissing));
    assert_eq!(check_input_exists(true), Ok(()));
}

#[test]
fn output_directory_decisions() {
    assert_eq!(ensure_output_directory(true, true), Ok(DirAction::AlreadyThere));
    assert_eq!(ensure_output_directory(true, false), Err(ImportError::OutputNotDirectory));
    assert_eq!(ensure_output_directory(false, false), Ok(DirAction::Create));
}

#[test]
fn output_file_decisions() {
    assert_eq!(check_output_file(false, false), Ok(WriteAction::WriteNew));
    assert_eq!(check_output_file(false, true), Ok(WriteAction::WriteNew));
    assert_eq!(check_output_file(true, true), Ok(WriteAction::Overwrite));
    assert_eq!(check_output_file(true, false), Err(ImportError::OutputFileExists));
}

#[test]
fn facility_type_conversions_stay_distinct() {
    // Strict: known codes parse, anything else fails.
    assert_eq!(FacilityType::parse_strict("CTR"), Some(FacilityType::Center));
    assert_eq!(FacilityType::parse_strict("APP"), Some(FacilityType::Approach));
    assert_eq!(FacilityType::parse_strict("TWR"), Some(FacilityType::Tower));
    assert_eq!(FacilityType::parse_strict("GND"), Some(FacilityType::Ground));
    assert_eq!(FacilityType::parse_strict("DEL"), Some(FacilityType::Delivery));
    assert_eq!(FacilityType::parse_strict("FSS"), Some(FacilityType::FlightService));
    assert_eq!(FacilityType::parse_strict("OBS"), Some(FacilityType::Observer));
    assert_eq!(FacilityType::parse_strict("UNK"), Some(FacilityType::Unknown));
    assert_eq!(FacilityType::parse_strict("ctr"), None);
    assert_eq!(FacilityType::parse_strict(""), None);
    // Lenient: the same labels map, anything else becomes the sentinel.
    assert_eq!(FacilityType::from_label("CTR"), FacilityType::Center);
    assert_eq!(FacilityType::from_label("whatever"), FacilityType::Unknown);
    assert_eq!(FacilityType::from_label(""), FacilityType::Unknown);
}

#[test]
fn facility_ordinals_follow_the_declared_order() {
    assert!(FacilityType::Center.ordinal() > FacilityType::Approach.ordinal());
    assert!(FacilityType::Approach.ordinal() > FacilityType::Tower.ordinal());
    assert!(FacilityType::Tower.ordinal() > FacilityType::Ground.ordinal());
    assert!(FacilityType::Ground.ordinal() > FacilityType::Delivery.ordinal());
    assert!(FacilityType::Delivery.ordinal() > FacilityType::FlightService.ordinal());
    assert!(FacilityType::FlightService.ordinal() > FacilityType::Observer.ordinal());
    assert!(FacilityType::Observer.ordinal() > FacilityType::Unknown.ordinal());
    assert_eq!(FacilityType::Center.as_str(), "CTR");
    assert_eq!(FacilityType::Unknown.as_str(), "UNK");
}

#[test]
fn plan_resolves_flag_over_positional() {
    let cmd = Command::Validate {
        input_pos: Some("positional".to_string()),
        input: Some("flag".to_string()),
    };
    match plan(cmd) {
        Ok(Action::Validate { input }) => assert_eq!(input, "flag"),
        other => panic!("unexpected plan: {other:?}"),
    }
}

#[test]
fn plan_rejects_missing_paths() {
    let cmd = Command::Validate { input_pos: None, input: None };
    assert!(matches!(plan(cmd), Err(UsageError::MissingInput)));
    let cmd = Command::Import {
        cmd: ImportCommand::Vatglasses {
            input_pos: Some("in.json".to_string()),
            output_pos: None,
            input: None,
            output: None,
            overwrite: false,
        },
    };
    assert!(matches!(plan(cmd), Err(UsageError::MissingOutput)));
}

#[test]
fn plan_resolves_euroscope_import() {
    let cmd = Command::Import {
        cmd: ImportCommand::Euroscope {
            input_pos: None,
            output_pos: Some("out".to_string()),
            input: Some("in.ese".to_string()),
            output: None,
            prefixes: Some(vec!["LON".to_string()]),
            overwrite: true,
        },
    };
    match plan(cmd) {
        Ok(Action::ImportEuroscope { input, output, prefixes, overwrite }) => {
            assert_eq!(input, "in.ese");
            assert_eq!(output, "out");
            assert_eq!(prefixes, Some(vec!["LON".to_string()]));
            assert!(overwrite);
        },
        other => panic!("unexpected plan: {other:?}"),
    }
}
