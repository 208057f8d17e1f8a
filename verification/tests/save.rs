use sim_core::save::{check_schema_version, load_and_migrate, migrate_step, SaveError, SAVE_SCHEMA_VERSION};

#[test]
fn an_unsupported_future_version_is_rejected_before_migration_runs() {
    let err = load_and_migrate(r#"{"schema_version": 999}"#).unwrap_err();
    assert!(matches!(
        err,
        SaveError::UnsupportedFutureVersion {
            found: 999,
            supported: SAVE_SCHEMA_VERSION
        }
    ));
}

#[test]
fn malformed_json_is_rejected_as_corrupt_not_a_panic() {
    assert!(matches!(
        load_and_migrate("{not valid"),
        Err(SaveError::Corrupt(_))
    ));
}

#[test]
fn a_value_missing_schema_version_is_rejected_as_corrupt() {
    assert!(matches!(load_and_migrate("{}"), Err(SaveError::Corrupt(_))));
}

#[test]
fn a_non_object_value_is_rejected_as_corrupt_not_a_panic() {
    assert!(matches!(load_and_migrate("42"), Err(SaveError::Corrupt(_))));
}

#[test]
fn a_version_zero_save_is_migrated_to_the_current_schema() {
    let migrated = load_and_migrate(r#"{"schema_version": 0, "seed": 5}"#).unwrap();
    assert_eq!(migrated["schema_version"], serde_json::Value::from(SAVE_SCHEMA_VERSION));
    assert_eq!(migrated["seed"], serde_json::Value::from(5));
}

#[test]
fn a_current_save_passes_through_unchanged() {
    let text = r#"{"schema_version": 1, "seed": 9}"#;
    let loaded = load_and_migrate(text).unwrap();
    assert_eq!(loaded, serde_json::from_str::<serde_json::Value>(text).unwrap());
}

#[test]
fn the_version_check_reports_each_outcome() {
    match check_schema_version(None) {
        Err(SaveError::Corrupt(message)) => assert_eq!(message, "missing or non-numeric schema_version"),
        other => panic!("unexpected {other:?}"),
    }
    assert!(matches!(check_schema_version(Some(1)), Ok(1)));
    assert!(matches!(check_schema_version(Some(0)), Ok(0)));
    assert!(matches!(
        check_schema_version(Some(2)),
        Err(SaveError::UnsupportedFutureVersion { found: 2, supported: 1 })
    ));
    assert!(matches!(
        check_schema_version(Some(1u64 << 32)),
        Err(SaveError::UnsupportedFutureVersion { found: u32::MAX, supported: 1 })
    ));
}

#[test]
fn only_version_zero_has_a_migration_step() {
    match migrate_step(3, serde_json::Value::Null) {
        Err(SaveError::Corrupt(message)) => {
            assert_eq!(message, "no migration registered from schema_version 3")
        }
        other => panic!("unexpected {other:?}"),
    }
    assert!(migrate_step(0, serde_json::Value::Null).is_ok());
}

#[test]
fn a_negative_or_fractional_version_is_corrupt() {
    assert!(matches!(load_and_migrate(r#"{"schema_version": -1}"#), Err(SaveError::Corrupt(_))));
    assert!(matches!(load_and_migrate(r#"{"schema_version": 1.0}"#), Err(SaveError::Corrupt(_))));
}

#[test]
fn a_version_beyond_u32_is_refused_as_from_the_future() {
    assert!(matches!(
        load_and_migrate(r#"{"schema_version": 4294967296}"#),
        Err(SaveError::UnsupportedFutureVersion { found: u32::MAX, supported: SAVE_SCHEMA_VERSION })
    ));
}

#[test]
fn the_version_zero_step_sets_the_version_and_keeps_other_members() {
    let doc: serde_json::Value = serde_json::from_str(r#"{"schema_version": 0, "name": "x", "n": [1, 2]}"#).unwrap();
    let next = migrate_step(0, doc).unwrap();
    let expected: serde_json::Value = serde_json::from_str(r#"{"schema_version": 1, "name": "x", "n": [1, 2]}"#).unwrap();
    assert_eq!(next, expected);
}

#[test]
fn malformed_json_reports_the_parser_message() {
    let text = "{not valid";
    let expected = serde_json::from_str::<serde_json::Value>(text).unwrap_err().to_string();
    match load_and_migrate(text) {
        Err(SaveError::Corrupt(message)) => assert_eq!(message, expected),
        other => panic!("unexpected {other:?}"),
    }
}
