use filevault_bridge::locator::{locate, not_found_message, BridgeError, PlatformProfile};
use filevault_bridge::sanitize::sanitize;
use filevault_bridge::verdict::{normalize_output, normalize_text, reconcile};

#[test]
fn clean_zero_exit_is_success() {
    let r = normalize_text("\u{2713} Vault unlocked", "", Some(0));
    assert!(r.success);
    assert_eq!(r.error, None);
    assert_eq!(r.exit_code, 0);
    assert_eq!(r.stdout, "\u{2713} Vault unlocked");
}

#[test]
fn wrong_password_overrides_zero_exit() {
    let r = normalize_text("Opening vault\n\u{2717} Wrong password\n", "", Some(0));
    assert!(!r.success);
    let e = r.error.expect("a failure carries a message");
    assert!(e.lines().any(|l| l == "\u{2717} Wrong password"));
    assert_eq!(e, "\u{2717} Wrong password");
}

#[test]
fn nonzero_exit_uses_stderr_verbatim() {
    let r = normalize_text("", "fatal: disk full", Some(2));
    assert!(!r.success);
    assert_eq!(r.error.as_deref(), Some("fatal: disk full"));
    assert_eq!(r.exit_code, 2);
}

#[test]
fn nonzero_exit_without_markers_is_generic() {
    let r = normalize_text("all quiet", "", Some(3));
    assert!(!r.success);
    assert_eq!(r.error.as_deref(), Some("Command failed with exit code 3"));
}

#[test]
fn signal_termination_uses_sentinel() {
    let r = normalize_text("", "", None);
    assert!(!r.success);
    assert_eq!(r.exit_code, -1);
    assert_eq!(r.error.as_deref(), Some("Command failed with exit code -1"));
}

#[test]
fn most_negative_exit_code_is_written_in_full() {
    let r = normalize_text("", "", Some(i32::MIN));
    assert_eq!(r.error.as_deref(), Some("Command failed with exit code -2147483648"));
}

#[test]
fn escape_sequences_are_removed_before_detection() {
    assert_eq!(sanitize("\x1B[31mError:\x1B[0m disk full"), "Error: disk full");
    let r = normalize_output(b"\x1B[31mError:\x1B[0m disk full", b"", Some(0));
    assert!(!r.success);
    assert_eq!(r.stdout, "Error: disk full");
    assert_eq!(r.error.as_deref(), Some("Error: disk full"));
}

#[test]
fn zero_width_characters_are_removed() {
    assert_eq!(sanitize("a\u{200B}b\u{200C}c\u{200D}d\u{FEFF}e"), "abcde");
    assert_eq!(sanitize(""), "");
}

#[test]
fn incomplete_escape_is_kept() {
    assert_eq!(sanitize("\x1B[12;"), "\x1B[12;");
    assert_eq!(sanitize("\x1B(B plain"), "\x1B(B plain");
    assert_eq!(sanitize("\x1B[1;32;40mgreen"), "green");
}

#[test]
fn sanitize_twice_equals_once() {
    let s = "\x1B[1mbold\x1B[0m \u{200B}text\u{FEFF}\n\x1B[2K";
    let once = sanitize(s);
    assert_eq!(once, "bold text\n");
    assert_eq!(sanitize(&once), once);
}

#[test]
fn sanitize_twice_can_differ_when_a_sequence_is_rebuilt() {
    let once = sanitize("\x1B[\x1B[0mm");
    assert_eq!(once, "\x1B[m");
    assert_eq!(sanitize(&once), "");
}

#[test]
fn lossy_decoding_replaces_invalid_bytes() {
    let r = normalize_output(&[0xFF, b'o', b'k'], b"", Some(0));
    assert_eq!(r.stdout, "\u{FFFD}ok");
    assert!(r.success);
}

#[test]
fn error_lines_are_extracted_from_stdout() {
    let out = "start\n\u{2717} bad thing\nok\nsomething failed\r\nError here\nend";
    let r = normalize_text(out, "", Some(1));
    assert!(!r.success);
    assert_eq!(
        r.error.as_deref(),
        Some("\u{2717} bad thing\nsomething failed\nError here")
    );
}

#[test]
fn marker_without_matching_line_gives_empty_message() {
    let r = normalize_text("Authentication failure: Wrong password", "", Some(0));
    assert!(!r.success);
    assert_eq!(r.error.as_deref(), Some(""));
}

#[test]
fn stderr_marker_is_case_sensitive() {
    let r = normalize_text("", "an error occurred", Some(0));
    assert!(!r.success);
    assert_eq!(r.error.as_deref(), Some("an error occurred"));
    let ok = normalize_text("", "Error", Some(0));
    assert!(ok.success);
    assert_eq!(ok.error, None);
    assert_eq!(ok.stderr, "Error");
}

#[test]
fn reconcile_keeps_text_as_given() {
    let r = reconcile("done".to_string(), "warning".to_string(), Some(0));
    assert!(r.success);
    assert_eq!(r.stdout, "done");
    assert_eq!(r.stderr, "warning");
}

#[test]
fn each_stdout_marker_is_detected() {
    for m in [
        "\u{2717} ",
        "Authentication failed",
        "Wrong password",
        "File corrupted",
        "Failed to",
        "Error:",
    ] {
        let r = normalize_text(&format!("x {} y", m), "", Some(0));
        assert!(!r.success, "marker {:?}", m);
    }
}

#[test]
fn binary_names_follow_platform() {
    assert_eq!(PlatformProfile::unix().binary_name(), "filevault");
    assert_eq!(PlatformProfile::windows().binary_name(), "filevault.exe");
}

#[test]
fn primary_candidate_is_under_bin() {
    assert_eq!(
        PlatformProfile::unix().primary_candidate("/opt/app/res"),
        "/opt/app/res/bin/filevault"
    );
    assert_eq!(
        PlatformProfile::windows().primary_candidate("C:\\app"),
        "C:\\app\\bin\\filevault.exe"
    );
}

#[test]
fn primary_wins_when_present() {
    let c = PlatformProfile::unix().candidates("/res");
    assert_eq!(c.len(), 4);
    match locate(c, &vec![true, true, true, true]) {
        Ok(p) => assert_eq!(p, "/res/bin/filevault"),
        Err(_) => panic!("expected the packaged path"),
    }
}

#[test]
fn second_fallback_is_chosen() {
    let c = PlatformProfile::unix().candidates("/res");
    match locate(c, &vec![false, false, true, true]) {
        Ok(p) => assert_eq!(p, "../build/build/Release/bin/release/filevault"),
        Err(_) => panic!("expected the second fallback"),
    }
}

#[test]
fn missing_everywhere_lists_every_path() {
    let c = PlatformProfile::unix().candidates("/res");
    let all = c.clone();
    match locate(c, &vec![false, false, false, false]) {
        Ok(_) => panic!("nothing exists"),
        Err(e) => {
            let text = e.message();
            for p in &all {
                assert!(text.contains(p.as_str()), "{} not in {}", p, text);
            }
            assert_eq!(
                text,
                "FileVault executable not found at \"/res/bin/filevault\". Tried paths: \
                 [\"../../build/build/Release/bin/release/filevault\", \
                 \"../build/build/Release/bin/release/filevault\", \"bin/filevault\"]"
            );
        }
    }
}

#[test]
fn spawn_failure_message() {
    let e = BridgeError::SpawnFailure { reason: "permission denied".to_string() };
    assert_eq!(e.message(), "Failed to execute command: permission denied");
}

#[test]
fn windows_profile_hides_console() {
    let w = PlatformProfile::windows();
    assert_eq!(w.creation_flags, 0x0800_0000);
    assert_eq!(w.fallback_paths.len(), 3);
    assert_eq!(w.fallback_paths[2], "bin\\filevault.exe");
    assert_eq!(PlatformProfile::unix().creation_flags, 0);
}

#[test]
fn windows_report_escapes_backslashes() {
    let c = PlatformProfile::windows().candidates("C:\\app");
    let all = c.clone();
    match locate(c, &vec![false, false, false, false]) {
        Ok(_) => panic!("nothing exists"),
        Err(e) => {
            let text = e.message();
            for p in &all {
                assert!(text.contains(&format!("{:?}", p)), "{:?} not in {}", p, text);
            }
            assert!(text.starts_with(
                "FileVault executable not found at \"C:\\\\app\\\\bin\\\\filevault.exe\"."
            ));
            assert!(text.ends_with("\"bin\\\\filevault.exe\"]"));
        }
    }
}

#[test]
fn report_escapes_quotes_and_control_characters() {
    let e = BridgeError::ExecutableNotFound {
        tried: vec!["a\"b".to_string(), "line\nbreak".to_string()],
    };
    assert_eq!(
        e.message(),
        "FileVault executable not found at \"a\\\"b\". Tried paths: [\"line\\nbreak\"]"
    );
}

#[test]
fn report_layout_from_written_paths() {
    let written = vec!["P".to_string(), "x".to_string(), "y".to_string()];
    assert_eq!(
        not_found_message(&written),
        "FileVault executable not found at P. Tried paths: [x, y]"
    );
    assert_eq!(not_found_message(&vec![]), "FileVault executable not found");
}

#[test]
fn root_with_trailing_separator_gets_no_second_one() {
    assert_eq!(
        PlatformProfile::unix().primary_candidate("/res/"),
        "/res/bin/filevault"
    );
    assert_eq!(
        PlatformProfile::windows().primary_candidate("C:\\app\\"),
        "C:\\app\\bin\\filevault.exe"
    );
    assert_eq!(PlatformProfile::unix().primary_candidate(""), "bin/filevault");
}
