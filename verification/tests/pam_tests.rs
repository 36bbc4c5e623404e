use facepass_native::pam::{apply_pam_update, modify_pam_lines, pam_config_path,
    pam_module_entry};

const ENTRY: &str = "auth\t[success=2 default=ignore]\tlibfacepass_pam.so";

#[test]
fn test_modify_pam_lines_enable() {
    let mut lines = vec![
        "# comment".to_string(),
        "auth\t[success=1 default=ignore]\tpam_unix.so nullok".to_string(),
        "auth\trequisite\tpam_deny.so".to_string(),
    ];

    let changed = modify_pam_lines(&mut lines, true);
    assert!(changed);
    assert_eq!(lines.len(), 4);
    assert_eq!(lines[1], ENTRY);
    assert_eq!(
        lines[2],
        "auth\t[success=1 default=ignore]\tpam_unix.so nullok"
    );
}

#[test]
fn test_modify_pam_lines_disable() {
    let mut lines = vec![
        "# comment".to_string(),
        ENTRY.to_string(),
        "auth\t[success=1 default=ignore]\tpam_unix.so nullok".to_string(),
    ];

    let changed = modify_pam_lines(&mut lines, false);
    assert!(changed);
    assert_eq!(lines.len(), 2);
    assert!(!lines.iter().any(|l| l.contains("libfacepass_pam.so")));
}

#[test]
fn reconcile_is_idempotent_when_enabling() {
    let mut lines = vec![
        "# comment".to_string(),
        "auth\t[success=1 default=ignore]\tpam_unix.so nullok".to_string(),
    ];
    assert!(modify_pam_lines(&mut lines, true));
    let snapshot = lines.clone();
    assert!(!modify_pam_lines(&mut lines, true));
    assert_eq!(lines, snapshot);
}

#[test]
fn reconcile_is_idempotent_when_disabling() {
    let mut lines = vec!["# comment".to_string(), ENTRY.to_string()];
    assert!(modify_pam_lines(&mut lines, false));
    let snapshot = lines.clone();
    assert!(!modify_pam_lines(&mut lines, false));
    assert_eq!(lines, snapshot);
}

#[test]
fn enabling_replaces_stale_entry_in_place() {
    let mut lines = vec![
        "auth\trequired\tpam_env.so".to_string(),
        "auth\t[success=1 default=ignore]\tlibfacepass_pam.so old-flags".to_string(),
        "auth\t[success=1 default=ignore]\tpam_unix.so nullok".to_string(),
    ];
    assert!(modify_pam_lines(&mut lines, true));
    assert_eq!(lines.len(), 3);
    assert_eq!(lines[1], ENTRY);
}

#[test]
fn enabling_appends_without_unix_anchor() {
    let mut lines = vec!["# comment".to_string(), "auth\trequisite\tpam_deny.so".to_string()];
    assert!(modify_pam_lines(&mut lines, true));
    assert_eq!(lines.len(), 3);
    assert_eq!(lines[2], ENTRY);
}

#[test]
fn disabling_without_entry_reports_no_change() {
    let mut lines = vec!["# comment".to_string()];
    assert!(!modify_pam_lines(&mut lines, false));
    assert_eq!(lines, vec!["# comment".to_string()]);
}

#[test]
fn enable_then_disable_restores_original_lines() {
    let original = vec![
        "# comment".to_string(),
        "auth\t[success=1 default=ignore]\tpam_unix.so nullok".to_string(),
        "auth\trequisite\tpam_deny.so".to_string(),
    ];
    let mut lines = original.clone();
    assert!(modify_pam_lines(&mut lines, true));
    assert_eq!(lines.len(), 4);
    assert_eq!(lines[1], ENTRY);
    assert_eq!(lines[2], original[1]);
    assert!(modify_pam_lines(&mut lines, false));
    assert_eq!(lines, original);
    assert!(!lines.iter().any(|l| l.contains("libfacepass_pam.so")));
}

#[test]
fn apply_pam_update_joins_with_trailing_newline() {
    let content = "# comment\nauth\t[success=1 default=ignore]\tpam_unix.so nullok";
    let (new_content, changed) = apply_pam_update(content, true);
    assert!(changed);
    assert_eq!(
        new_content,
        format!(
            "# comment\n{}\nauth\t[success=1 default=ignore]\tpam_unix.so nullok\n",
            ENTRY
        )
    );
}

#[test]
fn apply_pam_update_strips_carriage_returns_like_a_line_read() {
    let content = "# comment\r\nauth\t[success=1 default=ignore]\tpam_unix.so nullok\r\n";
    let (new_content, changed) = apply_pam_update(content, true);
    assert!(changed);
    assert!(new_content.ends_with('\n'));
    assert!(!new_content.contains('\r'));
}

#[test]
fn apply_pam_update_without_change_reports_false() {
    let content = format!("# comment\n{}\npam_unix.so\n", ENTRY);
    let (_, changed) = apply_pam_update(&content, true);
    assert!(!changed);
}

#[test]
fn pam_constants_match_the_stack_file_conventions() {
    assert_eq!(pam_config_path(), "/etc/pam.d/common-auth");
    assert_eq!(pam_module_entry(), ENTRY);
}
