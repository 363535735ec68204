use binx::install::{
    add_to_path, after_version_check, default_config, get_config, get_config_file_path,
    get_install_dir, get_install_executable_path, installed_version_from_output, installed_version_from_text,
    is_running_from_installation, is_version_outdated, path_has_dir, path_line,
    run_auto_installation, InstallAction, InstallStart, PathUpdate,
};
use binx::cli::version_banner;

#[test]
fn config_file_path() {
    assert_eq!(get_config_file_path("/home/u"), "/home/u/.config/binx.json");
    assert_eq!(get_config_file_path("/home/u/"), "/home/u//.config/binx.json");
}

#[test]
fn config_text_choices() {
    assert_eq!(default_config(), "{\n      \"aliases\": {}\n    }");
    assert_eq!(get_config(None), (default_config(), true));
    assert_eq!(get_config(Some("  \n\t")), (default_config(), true));
    assert_eq!(get_config(Some("")), (default_config(), true));
    assert_eq!(get_config(Some("{\"aliases\":{}}")), ("{\"aliases\":{}}".to_string(), false));
}

#[test]
fn install_locations() {
    assert_eq!(get_install_dir("/home/u"), "/home/u/.binx");
    assert_eq!(get_install_executable_path("/home/u"), "/home/u/.binx/binx");
    assert_eq!(get_install_executable_path("/home/u/"), "/home/u/.binx/binx");
}

#[test]
fn running_from_installation() {
    assert!(is_running_from_installation(Some("/home/u/.binx/binx"), Some("/home/u/.binx/binx")));
    assert!(is_running_from_installation(Some("/home/u//.binx/binx"), Some("/home/u/.binx/binx")));
    assert!(!is_running_from_installation(Some("/tmp/binx"), Some("/home/u/.binx/binx")));
    assert!(!is_running_from_installation(None, Some("/home/u/.binx/binx")));
    assert!(!is_running_from_installation(Some("/tmp/binx"), None));
}

#[test]
fn installed_version_parsing() {
    assert_eq!(installed_version_from_output(true, b"binx v0.1.0\n"), Some("0.1.0".to_string()));
    assert_eq!(installed_version_from_output(true, b"  binx v0.2.0  "), Some("0.2.0".to_string()));
    assert_eq!(installed_version_from_output(false, b"binx v0.1.0\n"), None);
    assert_eq!(installed_version_from_output(true, b"other v0.1.0"), None);
    assert_eq!(installed_version_from_output(true, b""), None);
    assert_eq!(installed_version_from_output(true, b"binx v1.\xff\n"), Some("1.\u{FFFD}".to_string()));
}

#[test]
fn installed_version_from_decoded_text() {
    assert_eq!(installed_version_from_text(true, "binx v2.0\n"), Some("2.0".to_string()));
    assert_eq!(installed_version_from_text(false, "binx v2.0\n"), None);
    assert_eq!(installed_version_from_text(true, "binx 2.0"), None);
}

#[test]
fn version_round_trip() {
    for v in ["0.1.0", "", "1.2.3-beta", "x y"] {
        let out = format!("{}\n", version_banner("binx", v));
        assert_eq!(installed_version_from_output(true, out.as_bytes()), Some(v.to_string()));
        assert!(!is_version_outdated(Some(v), v));
    }
}

#[test]
fn version_outdated() {
    assert!(!is_version_outdated(Some("0.1.0"), "0.1.0"));
    assert!(is_version_outdated(Some("0.1.0"), "0.2.0"));
    assert!(is_version_outdated(None, "0.1.0"));
    assert!(!is_version_outdated(Some("0.2.0"), "0.1.0"));
    assert!(is_version_outdated(Some("0.9.0"), "0.10.0"));
    assert!(!is_version_outdated(Some("1.0"), "1.0.0"));
    assert!(is_version_outdated(Some("1.0"), "1.0.1"));
    assert!(!is_version_outdated(Some("1.0.1"), "1.0"));
    assert!(is_version_outdated(Some("1.0.0-beta"), "1.0.0"));
    assert!(is_version_outdated(Some("1.0.0"), "1.0.0-beta"));
    assert!(!is_version_outdated(Some("dev"), "dev"));
    assert!(is_version_outdated(Some("99999999999999999999"), "1"));
}

#[test]
fn auto_installation_steps() {
    assert!(matches!(run_auto_installation(true, true), InstallStart::CheckVersion { report_installed: false }));
    assert!(matches!(run_auto_installation(true, false), InstallStart::CheckVersion { report_installed: false }));
    assert!(matches!(run_auto_installation(false, true), InstallStart::CheckVersion { report_installed: true }));
    assert!(matches!(run_auto_installation(false, false), InstallStart::Install));
    assert!(matches!(after_version_check(false, true), InstallAction::Update));
    assert!(matches!(after_version_check(true, true), InstallAction::Update));
    assert!(matches!(after_version_check(true, false), InstallAction::ReportInstalled));
    assert!(matches!(after_version_check(false, false), InstallAction::Nothing));
}

#[test]
fn path_entries() {
    assert!(path_has_dir("/usr/bin:/home/u/.binx", "/home/u/.binx"));
    assert!(path_has_dir("/home/u/.binx", "/home/u/.binx"));
    assert!(!path_has_dir("/usr/bin:/home/u/.binx/", "/home/u/.binx"));
    assert!(!path_has_dir("/usr/bin", "/home/u/.binx"));
    assert_eq!(path_line("/home/u/.binx"), "export PATH=\"$PATH:/home/u/.binx\"");
}

#[test]
fn adding_to_path() {
    let dir = "/home/u/.binx";
    assert!(matches!(add_to_path(Some("/bin:/home/u/.binx"), "", dir), PathUpdate::AlreadyOnPath));
    assert!(matches!(add_to_path(Some("/bin"), "# has /home/u/.binx\n", dir), PathUpdate::AlreadyInStartupFile));
    match add_to_path(Some("/bin"), "", dir) {
        PathUpdate::Write(t) => assert_eq!(t, "export PATH=\"$PATH:/home/u/.binx\"\n"),
        _ => panic!("expected a write"),
    }
    match add_to_path(None, "alias ll='ls -l'", dir) {
        PathUpdate::Write(t) => {
            assert_eq!(t, "alias ll='ls -l'\nexport PATH=\"$PATH:/home/u/.binx\"\n");
            assert!(matches!(add_to_path(None, &t, dir), PathUpdate::AlreadyInStartupFile));
        }
        _ => panic!("expected a write"),
    }
}
