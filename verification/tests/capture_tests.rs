use facepass_native::capture::{decode_capture_data, face_image_filename,
    temp_face_image_filename, voice_recording_filename};
use facepass_native::configmodel::{default_fingerprint_method_config, default_model_configs,
    default_strategy_config, IRCameraConfig};
use facepass_native::errors::ErrorKind;

#[test]
fn capture_data_decodes_through_the_standard_alphabet() {
    assert_eq!(decode_capture_data("aGVsbG8=").unwrap(), b"hello");
    assert_eq!(decode_capture_data("").unwrap(), Vec::<u8>::new());
}

#[test]
fn malformed_capture_data_is_an_invalid_argument() {
    let err = decode_capture_data("not base64 !!").unwrap_err();
    assert_eq!(err.kind, ErrorKind::InvalidArgument);
    assert_eq!(err.message_text(), "Failed to decode capture data");
}

#[test]
fn capture_files_are_named_by_their_timestamp() {
    assert_eq!(face_image_filename(1700000000123), "face_1700000000123.jpg");
    assert_eq!(temp_face_image_filename(42), "temp_face_42.jpg");
    assert_eq!(voice_recording_filename(0), "voice_0.wav");
}

#[test]
fn the_default_strategy_tries_methods_sequentially_with_pam_off() {
    let c = default_strategy_config();
    assert_eq!(c.execution_mode, "sequential");
    assert_eq!(c.order, vec!["face", "fingerprint", "voice"]);
    assert_eq!(c.retries, 3);
    assert_eq!(c.retry_delay, 500);
    assert!(!c.pam_enabled);
}

#[test]
fn the_infrared_camera_options_compare_by_fields() {
    let a = IRCameraConfig { enable: false, device_id: 1 };
    let b = IRCameraConfig { enable: false, device_id: 1 };
    assert_eq!(a, b);
    assert_ne!(a, IRCameraConfig { enable: true, device_id: 1 });
}

#[test]
fn the_default_fingerprint_method_starts_empty() {
    let c = default_fingerprint_method_config();
    assert!(c.enable);
    assert!(c.fingers.is_empty());
}

#[test]
fn the_default_model_catalog_lists_one_model_per_method() {
    let models = default_model_configs();
    assert_eq!(models.len(), 3);
    assert_eq!(models[0].path, "models/face.onnx");
    assert_eq!(models[0].name.as_deref(), Some("Onnx"));
    assert_eq!(models[0].model_type, "face");
    assert_eq!(models[1].path, "models/fingerprint.onnx");
    assert!(models[1].name.is_none());
    assert_eq!(models[1].model_type, "fingerprint");
    assert_eq!(models[2].path, "models/voice.onnx");
    assert!(models[2].name.is_none());
    assert_eq!(models[2].model_type, "voice");
}
