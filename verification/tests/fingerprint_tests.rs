use facepass_native::configmodel::FingerConfig;
use facepass_native::errors::ErrorKind;
use facepass_native::fingerprint::{auth_outcome_accepted, check_finger_name, check_username,
    enroll_precheck, finger_in_config, fingerprint_devices_for, is_c_encodable,
    record_enrollment, remove_cached_finger, retries_or_default, FingerprintAuthConfig};
use facepass_native::AuthResult;

#[test]
fn native_codes_map_onto_the_closed_outcome_enum() {
    assert_eq!(AuthResult::from(0), AuthResult::Success);
    assert_eq!(AuthResult::from(1), AuthResult::Failure);
    assert_eq!(AuthResult::from(2), AuthResult::Unavailable);
    assert_eq!(AuthResult::from(3), AuthResult::Retry);
    assert_eq!(AuthResult::from(4), AuthResult::Unknown);
    assert_eq!(AuthResult::from(-7), AuthResult::Unknown);
}

#[test]
fn only_success_counts_as_accepted() {
    assert!(auth_outcome_accepted(AuthResult::Success));
    assert!(!auth_outcome_accepted(AuthResult::Failure));
    assert!(!auth_outcome_accepted(AuthResult::Unavailable));
    assert!(!auth_outcome_accepted(AuthResult::Retry));
    assert!(!auth_outcome_accepted(AuthResult::Unknown));
}

#[test]
fn the_default_retry_count_is_three() {
    assert_eq!(retries_or_default(None), 3);
    assert_eq!(retries_or_default(Some(5)), 5);
    assert_eq!(FingerprintAuthConfig { retries: retries_or_default(None) }.retries, 3);
}

#[test]
fn embedded_terminators_are_invalid_arguments() {
    assert!(is_c_encodable("alice"));
    assert!(!is_c_encodable("ali\0ce"));

    let err = check_username("ali\0ce").unwrap_err();
    assert_eq!(err.kind, ErrorKind::InvalidArgument);
    assert_eq!(err.message_text(), "Invalid username");

    let err = check_finger_name("right\0index").unwrap_err();
    assert_eq!(err.kind, ErrorKind::InvalidArgument);
    assert_eq!(err.message_text(), "Invalid finger name");

    assert!(check_username("alice").is_ok());
    assert!(check_finger_name("right-index").is_ok());
}

#[test]
fn the_device_list_reflects_availability() {
    let devices = fingerprint_devices_for(true);
    assert_eq!(devices.len(), 1);
    assert_eq!(devices[0].name, "Default Fingerprint Reader");
    assert_eq!(devices[0].driver, "fprintd");
    assert_eq!(devices[0].device_id, "default");

    assert!(fingerprint_devices_for(false).is_empty());
}

#[test]
fn enrollment_requires_available_hardware() {
    let fingers: Vec<FingerConfig> = vec![];
    let err = enroll_precheck(false, &fingers, "right-index").unwrap_err();
    assert_eq!(err.kind, ErrorKind::Unavailable);
    assert_eq!(err.message_text(), "Fingerprint device not available");
}

/// A stand-in for the native bridge that only counts how often its enroll
/// operation is driven.
struct StubBridge {
    enroll_calls: usize,
}

impl StubBridge {
    fn enroll(&mut self) -> bool {
        self.enroll_calls += 1;
        true
    }
}

#[test]
fn duplicate_enrollment_is_a_conflict_and_skips_the_native_call() {
    let mut bridge = StubBridge { enroll_calls: 0 };
    let mut fingers: Vec<FingerConfig> = vec![];

    // First enrollment: the precheck allows it, the bridge runs, the cache records.
    enroll_precheck(true, &fingers, "thumb").unwrap();
    assert!(bridge.enroll());
    record_enrollment(&mut fingers, "thumb", 1_700_000_000).unwrap();
    assert_eq!(bridge.enroll_calls, 1);
    assert_eq!(fingers.len(), 1);
    assert_eq!(fingers[0].name, "thumb");
    assert_eq!(fingers[0].created_at, 1_700_000_000);

    // Second enrollment of the same name: rejected by the precheck, the bridge
    // is never driven again for it.
    let err = enroll_precheck(true, &fingers, "thumb").unwrap_err();
    assert_eq!(err.kind, ErrorKind::Conflict);
    assert_eq!(err.message_text(), "Finger thumb is already in config");
    assert_eq!(bridge.enroll_calls, 1);
    assert_eq!(fingers.len(), 1);
}

#[test]
fn recording_a_duplicate_leaves_the_cache_untouched() {
    let mut fingers = vec![FingerConfig { name: "thumb".to_string(), created_at: 7 }];
    let err = record_enrollment(&mut fingers, "thumb", 8).unwrap_err();
    assert_eq!(err.kind, ErrorKind::Conflict);
    assert_eq!(fingers.len(), 1);
    assert_eq!(fingers[0].created_at, 7);
}

#[test]
fn removal_drops_the_cached_entry() {
    let mut fingers = vec![
        FingerConfig { name: "thumb".to_string(), created_at: 1 },
        FingerConfig { name: "index".to_string(), created_at: 2 },
    ];
    remove_cached_finger(&mut fingers, "thumb").unwrap();
    assert_eq!(fingers.len(), 1);
    assert_eq!(fingers[0].name, "index");
    assert!(!finger_in_config(&fingers, "thumb"));
}

#[test]
fn removing_an_unknown_finger_is_not_found() {
    let mut fingers = vec![FingerConfig { name: "thumb".to_string(), created_at: 1 }];
    let err = remove_cached_finger(&mut fingers, "pinky").unwrap_err();
    assert_eq!(err.kind, ErrorKind::NotFound);
    assert_eq!(err.message_text(), "Finger pinky not found in config");
    assert_eq!(fingers.len(), 1);
}
