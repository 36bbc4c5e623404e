use facepass_native::commit::{backup_path_for, elevation_denied_error, elevation_script,
    is_protected_path, pam_staging_filename, FileStore};
use facepass_native::errors::{ErrorKind, NativeError};
use facepass_native::pam::pam_file_missing_error;

#[test]
fn the_failure_taxonomy_surfaces_verbatim_messages() {
    let err = elevation_denied_error();
    assert_eq!(err.kind, ErrorKind::PermissionDenied);
    assert_eq!(
        err.message_text(),
        "Failed to write config with elevated privileges. User might have cancelled."
    );

    let err = pam_file_missing_error();
    assert_eq!(err.kind, ErrorKind::NotFound);
    assert_eq!(
        err.message_text(),
        "PAM configuration file not found: /etc/pam.d/common-auth"
    );

    let err = NativeError::io_failure("Failed to read PAM config: ", "permission denied");
    assert_eq!(err.kind, ErrorKind::IoFailure);
    assert_eq!(err.message_text(), "Failed to read PAM config: permission denied");
}

#[test]
fn system_paths_are_protected() {
    assert!(is_protected_path("/etc/pam.d/common-auth"));
    assert!(is_protected_path("/etc/hosts"));
    assert!(!is_protected_path("/tmp/facepass"));
    assert!(!is_protected_path("etc/pam.d/common-auth"));
}

#[test]
fn the_backup_sibling_replaces_or_appends_the_extension() {
    assert_eq!(backup_path_for("/etc/pam.d/common-auth"), "/etc/pam.d/common-auth.bak");
    assert_eq!(backup_path_for("/tmp/config.yaml"), "/tmp/config.bak");
    assert_eq!(backup_path_for("archive.tar.gz"), "archive.tar.bak");
    assert_eq!(backup_path_for("/home/user/.bashrc"), "/home/user/.bashrc.bak");
}

#[test]
fn the_elevated_command_backs_up_then_installs() {
    assert_eq!(
        elevation_script("/etc/pam.d/common-auth", "/tmp/facepass_pam_config_tmp", true),
        "cp /etc/pam.d/common-auth /etc/pam.d/common-auth.bak && \
         cp /tmp/facepass_pam_config_tmp /etc/pam.d/common-auth"
    );
    assert_eq!(
        elevation_script("/etc/pam.d/common-auth", "/tmp/facepass_pam_config_tmp", false),
        "cp /tmp/facepass_pam_config_tmp /etc/pam.d/common-auth"
    );
    assert_eq!(pam_staging_filename(), "facepass_pam_config_tmp");
}

#[test]
fn a_commit_reads_back_exactly_what_was_committed() {
    let mut store = FileStore::new();
    store.commit_with_backup("/tmp/facepass", "# comment\npam_unix.so\n");
    assert_eq!(store.read("/tmp/facepass").as_deref(), Some("# comment\npam_unix.so\n"));
}

#[test]
fn a_first_time_commit_creates_no_backup() {
    let mut store = FileStore::new();
    store.commit_with_backup("/tmp/facepass", "test content");
    assert!(store.read("/tmp/facepass.bak").is_none());
}

#[test]
fn the_backup_holds_the_content_of_the_first_commit() {
    let mut store = FileStore::new();
    store.commit_with_backup("/tmp/facepass", "test content");
    store.commit_with_backup("/tmp/facepass", "new content");
    assert_eq!(store.read("/tmp/facepass").as_deref(), Some("new content"));
    assert_eq!(store.read("/tmp/facepass.bak").as_deref(), Some("test content"));
}

#[test]
fn a_third_commit_rolls_the_backup_forward() {
    let mut store = FileStore::new();
    store.commit_with_backup("/tmp/facepass", "one");
    store.commit_with_backup("/tmp/facepass", "two");
    store.commit_with_backup("/tmp/facepass", "three");
    assert_eq!(store.read("/tmp/facepass").as_deref(), Some("three"));
    assert_eq!(store.read("/tmp/facepass.bak").as_deref(), Some("two"));
}

#[test]
fn writes_to_other_paths_stay_untouched() {
    let mut store = FileStore::new();
    store.write("/tmp/other", "kept");
    store.commit_with_backup("/tmp/facepass", "content");
    assert_eq!(store.read("/tmp/other").as_deref(), Some("kept"));
    assert!(store.exists_file("/tmp/facepass"));
    assert!(!store.exists_file("/tmp/missing"));
}
