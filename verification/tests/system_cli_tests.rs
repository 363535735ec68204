use binx::cli::{
    run_steps, RunSteps,
    alias_name_from_input, classify_target, default_alias_name, environment_entry,
    execute_arguments, is_executable_mode, version_banner, TargetKind,
};
use binx::config::{Config, ConfigAlias};
use binx::system::{detect_shell_rc, expand_target, get_user_applications_dir, resolve_error_message, ResolveFailure};

#[test]
fn shell_start_up_files() {
    assert_eq!(detect_shell_rc("/home/u", "/usr/bin/zsh"), "/home/u/.zshrc");
    assert_eq!(detect_shell_rc("/home/u", "/bin/bash"), "/home/u/.bashrc");
    assert_eq!(detect_shell_rc("/home/u", "/usr/bin/fish"), "/home/u/.config/fish/config.fish");
    assert_eq!(detect_shell_rc("/home/u", "/bin/dash"), "/home/u/.bashrc");
}

#[test]
fn tilde_expansion() {
    assert_eq!(expand_target("~", Some("/home/u")), Some("/home/u".to_string()));
    assert_eq!(expand_target("~/bin/app", Some("/home/u")), Some("/home/u/bin/app".to_string()));
    assert_eq!(expand_target("~/bin/app", None), None);
    assert_eq!(expand_target("~", None), None);
    assert_eq!(expand_target("~user/app", None), Some("~user/app".to_string()));
    assert_eq!(expand_target("./app", None), Some("./app".to_string()));
}

#[test]
fn resolve_messages() {
    assert_eq!(resolve_error_message(&ResolveFailure::NotFound, "/x"), "'/x' does not exist");
    assert_eq!(resolve_error_message(&ResolveFailure::PermissionDenied, "/x"), "permission denied reading '/x'");
    assert_eq!(
        resolve_error_message(&ResolveFailure::Other("Not a directory (os error 20)".to_string()), "/x"),
        "cannot resolve '/x': Not a directory (os error 20)"
    );
}

#[test]
fn applications_dir() {
    assert_eq!(get_user_applications_dir("/home/u"), "/home/u/.local/share/applications");
}

#[test]
fn targets() {
    let mut c = Config::new();
    c.insert("myapp".to_string(), ConfigAlias::new("/opt/myapp".to_string()));
    assert!(matches!(classify_target(&c, "myapp"), TargetKind::Alias));
    assert!(matches!(classify_target(&c, "https://example.com/x"), TargetKind::Url));
    assert!(matches!(classify_target(&c, "http://example.com/x"), TargetKind::Url));
    assert!(matches!(classify_target(&c, "./myapp"), TargetKind::Path));
}

#[test]
fn suggested_names() {
    for p in ["/opt/myapp/bin/myapp", "app", "/a/b/", "/"] {
        assert_eq!(default_alias_name(p), p.rsplit('/').next().unwrap_or(p));
    }
    assert_eq!(alias_name_from_input("  my app \n", "myapp"), "my_app");
    assert_eq!(alias_name_from_input("\n", "myapp"), "myapp");
    assert_eq!(alias_name_from_input("x", "myapp"), "x");
}

#[test]
fn executable_modes() {
    assert!(is_executable_mode(0o755));
    assert!(is_executable_mode(0o100));
    assert!(is_executable_mode(0o001));
    assert!(!is_executable_mode(0o644));
}

#[test]
fn exec_request() {
    let args = vec!["-v".to_string(), "x y".to_string()];
    assert_eq!(execute_arguments("/bin/app", &args), vec!["/bin/app", "-v", "x y"]);
    assert_eq!(execute_arguments("/bin/app", &Vec::new()), vec!["/bin/app"]);
    assert_eq!(environment_entry("HOME", "/home/u"), "HOME=/home/u");
    assert_eq!(version_banner("binx", "0.1.0"), "binx v0.1.0");
}

#[test]
fn registered_names() {
    let mut c = Config::new();
    c.insert("tool".to_string(), ConfigAlias::new("/opt/bin/tool".to_string()));
    assert_eq!(binx::cli::registered_name(&c, "/opt/bin/tool"), ("tool".to_string(), true));
    assert_eq!(binx::cli::registered_name(&c, "/opt/bin/other"), ("other".to_string(), false));
}

#[test]
fn steps_of_a_run() {
    assert!(matches!(run_steps(true, true, false, false, false), RunSteps::Remove));
    assert!(matches!(run_steps(true, false, true, true, true), RunSteps::ReportUnregistered));
    assert!(matches!(run_steps(false, true, false, true, false), RunSteps::ReportNotExecutable));
    assert!(matches!(
        run_steps(false, false, true, true, false),
        RunSteps::Run { register: true, install_script: true, install_desktop: false }
    ));
    assert!(matches!(
        run_steps(false, true, true, false, true),
        RunSteps::Run { register: false, install_script: false, install_desktop: true }
    ));
}
