//! Paths that depend on the user's environment: the shell start-up file,
//! `~` in targets, and the user's applications directory.

use vstd::prelude::*;
use vstd::string::*;
use crate::paths::{join, join_path};
use crate::text::{contains, owned, seq_contains, seq_starts_with, starts_with, str_eq, strip_prefix};

verus! {

/// The start-up file of a shell, relative to the home directory: chosen by
/// the first of `zsh`, `bash`, `fish` that the shell's path contains, and
/// `.bashrc` for any other shell.
pub open spec fn shell_rc_name(shell: Seq<char>) -> Seq<char> {
    if seq_contains(shell, "zsh"@) {
        ".zshrc"@
    } else if seq_contains(shell, "bash"@) {
        ".bashrc"@
    } else if seq_contains(shell, "fish"@) {
        ".config/fish/config.fish"@
    } else {
        ".bashrc"@
    }
}

/// The start-up file of `shell` under `home_dir`.
pub fn detect_shell_rc(home_dir: &str, shell: &str) -> (rc: String)
    ensures
        rc@ == join_path(home_dir@, shell_rc_name(shell@)),
{
    let name = if contains(shell, "zsh") {
        ".zshrc"
    } else if contains(shell, "bash") {
        ".bashrc"
    } else if contains(shell, "fish") {
        ".config/fish/config.fish"
    } else {
        ".bashrc"
    };
    join(home_dir, name)
}

/// Whether a target names the home directory or a path below it.
pub open spec fn needs_home(target: Seq<char>) -> bool {
    target == "~"@ || seq_starts_with(target, "~/"@)
}

/// A target with a leading `~` replaced by the home directory: `~` itself is
/// the home directory, `~/rest` is `rest` joined to it, and any other target
/// stays as it is.
pub open spec fn expand_target_spec(target: Seq<char>, home_dir: Seq<char>) -> Seq<char> {
    if target == "~"@ {
        home_dir
    } else if seq_starts_with(target, "~/"@) {
        join_path(home_dir, target.skip(2))
    } else {
        target
    }
}

/// `target` with `~` expanded; none when it needs the home directory and
/// that is unknown.
pub fn expand_target(target: &str, home_dir: Option<&str>) -> (r: Option<String>)
    ensures
        needs_home(target@) && home_dir is None ==> r is None,
        home_dir matches Some(h) ==> (r matches Some(p) && p@ == expand_target_spec(target@, h@)),
        !needs_home(target@) ==> (r matches Some(p) && p@ == target@),
{
    proof {
        reveal_strlit("~/");
    }
    if str_eq(target, "~") {
        match home_dir {
            Some(h) => Some(owned(h)),
            None => None,
        }
    } else if starts_with(target, "~/") {
        match home_dir {
            Some(h) => {
                let rest = strip_prefix(target, "~/");
                match rest {
                    Some(r) => Some(join(h, r.as_str())),
                    None => None,
                }
            },
            None => None,
        }
    } else {
        Some(owned(target))
    }
}

/// Why a target could not be resolved to an absolute path.
pub enum ResolveFailure {
    NotFound,
    PermissionDenied,
    /// Any other failure, with the system's description of it.
    Other(String),
}

/// The message for a target that could not be resolved.
pub open spec fn resolve_message_spec(failure: ResolveFailure, path: Seq<char>) -> Seq<char> {
    match failure {
        ResolveFailure::NotFound => "'"@ + path + "' does not exist"@,
        ResolveFailure::PermissionDenied => "permission denied reading '"@ + path + "'"@,
        ResolveFailure::Other(detail) => "cannot resolve '"@ + path + "': "@ + detail@,
    }
}

/// The message for a target, already expanded to `path`, that could not be
/// resolved.
pub fn resolve_error_message(failure: &ResolveFailure, path: &str) -> (m: String)
    ensures
        m@ == resolve_message_spec(*failure, path@),
{
    match failure {
        ResolveFailure::NotFound => {
            let mut m = owned("'");
            m.append(path);
            m.append("' does not exist");
            m
        },
        ResolveFailure::PermissionDenied => {
            let mut m = owned("permission denied reading '");
            m.append(path);
            m.append("'");
            m
        },
        ResolveFailure::Other(detail) => {
            let mut m = owned("cannot resolve '");
            m.append(path);
            m.append("': ");
            m.append(detail.as_str());
            m
        },
    }
}

/// The user's applications directory: `<home>/.local/share/applications`.
pub fn get_user_applications_dir(home_dir: &str) -> (dir: String)
    ensures
        dir@ == join_path(home_dir@, ".local/share/applications"@),
{
    join(home_dir, ".local/share/applications")
}

} // verus!
