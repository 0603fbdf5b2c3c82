use qlang::cli::{is_version_command, version_text, SERVER_NAME, SERVER_VERSION};

#[test]
fn version_text_includes_package_version() {
    assert_eq!(version_text("qlsp"), format!("qlsp {}", SERVER_VERSION));
}

#[test]
fn version_command_recognizes_global_aliases() {
    for command in ["--version", "-V", "version"] {
        assert!(is_version_command(command), "expected {command} to be recognized");
    }
    assert!(!is_version_command("stdio"));
}

#[test]
fn version_command_rejects_near_misses() {
    assert!(!is_version_command("-v"));
    assert!(!is_version_command("--Version"));
    assert!(!is_version_command(""));
    assert!(!is_version_command("version "));
}

#[test]
fn server_identity_is_qlsp() {
    assert_eq!(SERVER_NAME, "qlsp");
    assert_eq!(version_text(SERVER_NAME), "qlsp 0.1.0");
}
