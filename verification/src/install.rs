//! Where `binx` keeps its files under the home directory, and the decisions
//! of its self-installation.

use vstd::prelude::*;
use vstd::string::*;
use crate::paths::{join, join_path, same_path, same_path_spec};
use crate::version::{is_older, version_older};
use crate::text::{owned, str_eq, contains, seq_contains, split_on, split_str, strip_prefix, trim, trim_str, seq_starts_with};

verus! {

/// The configuration file, relative to the home directory.
pub open spec fn config_file_rel() -> Seq<char> {
    ".config/binx.json"@
}

/// Where the configuration file lives: `<home>/.config/binx.json`.
pub open spec fn spec_config_file_path(home_dir: Seq<char>) -> Seq<char> {
    home_dir + "/"@ + config_file_rel()
}

/// The configuration file path, written as the home directory, `/` and
/// `.config/binx.json`.
pub fn get_config_file_path(home_dir: &str) -> (path: String)
    ensures
        path@ == spec_config_file_path(home_dir@),
{
    let mut path = owned(home_dir);
    path.append("/");
    path.append(".config/binx.json");
    path
}

/// What a new configuration file holds.
pub open spec fn default_config_text() -> Seq<char> {
    "{\n      \"aliases\": {}\n    }"@
}

/// The text of a new configuration file: no aliases.
pub fn default_config() -> (text: String)
    ensures
        text@ == default_config_text(),
{
    owned("{\n      \"aliases\": {}\n    }")
}

/// The configuration text to parse, given what reading the file gave (none
/// when the file does not exist), and whether the default text must be
/// written to the file first: a missing file, or one that holds only white
/// space, is replaced by the default.
pub fn get_config(read: Option<&str>) -> (r: (String, bool))
    ensures
        match read {
            Some(content) => if trim(content@).len() == 0 {
                r.0@ == default_config_text() && r.1
            } else {
                r.0@ == content@ && !r.1
            },
            None => r.0@ == default_config_text() && r.1,
        },
{
    match read {
        Some(content) => {
            let t = trim_str(content);
            if t.as_str().unicode_len() == 0 {
                (default_config(), true)
            } else {
                (owned(content), false)
            }
        },
        None => (default_config(), true),
    }
}

/// The installation directory: `<home>/.binx`.
pub open spec fn spec_install_dir(home_dir: Seq<char>) -> Seq<char> {
    join_path(home_dir, ".binx"@)
}

/// The installed executable: `<home>/.binx/binx`.
pub open spec fn spec_install_executable(home_dir: Seq<char>) -> Seq<char> {
    join_path(spec_install_dir(home_dir), "binx"@)
}

/// The installation directory under `home_dir`.
pub fn get_install_dir(home_dir: &str) -> (dir: String)
    ensures
        dir@ == spec_install_dir(home_dir@),
{
    join(home_dir, ".binx")
}

/// The path of the installed executable under `home_dir`.
pub fn get_install_executable_path(home_dir: &str) -> (path: String)
    ensures
        path@ == spec_install_executable(home_dir@),
{
    let dir = get_install_dir(home_dir);
    join(dir.as_str(), "binx")
}

/// Whether the running executable is the installed one; false when either
/// path is unknown.
pub fn is_running_from_installation(current: Option<&str>, installed: Option<&str>) -> (r: bool)
    ensures
        r == match (current, installed) {
            (Some(c), Some(i)) => same_path_spec(c@, i@),
            _ => false,
        },
{
    match (current, installed) {
        (Some(c), Some(i)) => same_path(c, i),
        _ => false,
    }
}

/// What the installed executable prints before its version.
pub open spec fn version_prefix() -> Seq<char> {
    "binx v"@
}

/// The version named by what `binx --version` printed: the trimmed output
/// after `binx v`; none when the command failed or printed something else.
pub open spec fn installed_version_spec(success: bool, output: Seq<char>) -> Option<Seq<char>> {
    if success && seq_starts_with(trim(output), version_prefix()) {
        Some(trim(output).skip(version_prefix().len() as int))
    } else {
        None
    }
}

/// What `String::from_utf8_lossy` gives for `bytes`.
pub uninterp spec fn utf8_lossy(bytes: Seq<u8>) -> Seq<char>;

/// `String::from_utf8_lossy(bytes)`, owned. It decodes the bytes as UTF-8,
/// each invalid sequence becoming U+FFFD; the contract states the result
/// exactly for valid UTF-8 and names it otherwise.
#[verifier::external_body]
fn decode_lossy(bytes: &[u8]) -> (s: String)
    ensures
        s@ == utf8_lossy(bytes@),
        vstd::utf8::valid_utf8(bytes@) ==> s@ == vstd::utf8::decode_utf8(bytes@),
{
    String::from_utf8_lossy(bytes).into_owned()
}

/// The installed version from the exit status and standard output of
/// `binx --version`.
pub fn installed_version_from_output(success: bool, stdout: &[u8]) -> (r: Option<String>)
    ensures
        r.deep_view() == installed_version_spec(success, utf8_lossy(stdout@)),
        vstd::utf8::valid_utf8(stdout@) ==> r.deep_view() == installed_version_spec(
            success,
            vstd::utf8::decode_utf8(stdout@),
        ),
{
    let text = decode_lossy(stdout);
    installed_version_from_text(success, text.as_str())
}

/// The installed version from the exit status and the decoded standard
/// output of `binx --version`.
pub fn installed_version_from_text(success: bool, text: &str) -> (r: Option<String>)
    ensures
        r.deep_view() == installed_version_spec(success, text@),
{
    if !success {
        return None;
    }
    let t = trim_str(text);
    strip_prefix(t.as_str(), "binx v")
}

/// Whether the installed version is older than `current_version`: compared
/// number by number when both are dot-separated numbers, else outdated
/// whenever they differ; an unknown installed version counts as outdated.
pub fn is_version_outdated(installed_version: Option<&str>, current_version: &str) -> (r: bool)
    ensures
        r == match installed_version {
            Some(v) => version_older(v@, current_version@),
            None => true,
        },
{
    match installed_version {
        Some(v) => is_older(v, current_version),
        None => true,
    }
}

/// The first step of the self-installation, from whether `binx` runs from
/// its installed copy and whether that copy exists.
#[derive(Debug)]
pub enum InstallStart {
    /// Ask the installed copy for its version; `report_installed` says
    /// whether an up-to-date copy is then reported.
    CheckVersion { report_installed: bool },
    /// Install without asking.
    Install,
}

/// What the self-installation does in the end.
#[derive(Debug)]
pub enum InstallAction {
    /// Copy the running executable over the installed one and put its
    /// directory on `PATH`.
    Update,
    /// Report the installation directory.
    ReportInstalled,
    /// Nothing.
    Nothing,
}

/// The first step: a copy that runs from its installation, or an existing
/// installation, is checked for its version; otherwise `binx` installs
/// itself.
pub fn run_auto_installation(running_from_installation: bool, installation_exists: bool) -> (r: InstallStart)
    ensures
        running_from_installation ==> r == (InstallStart::CheckVersion { report_installed: false }),
        !running_from_installation && installation_exists ==> r == (InstallStart::CheckVersion { report_installed: true }),
        !running_from_installation && !installation_exists ==> r == InstallStart::Install,
{
    if running_from_installation {
        InstallStart::CheckVersion { report_installed: false }
    } else if installation_exists {
        InstallStart::CheckVersion { report_installed: true }
    } else {
        InstallStart::Install
    }
}

/// The action after the version check: an outdated copy is updated, an
/// up-to-date one is reported when asked for, or left alone.
pub fn after_version_check(report_installed: bool, outdated: bool) -> (r: InstallAction)
    ensures
        outdated ==> r == InstallAction::Update,
        !outdated && report_installed ==> r == InstallAction::ReportInstalled,
        !outdated && !report_installed ==> r == InstallAction::Nothing,
{
    if outdated {
        InstallAction::Update
    } else if report_installed {
        InstallAction::ReportInstalled
    } else {
        InstallAction::Nothing
    }
}

/// The line that puts `dir` on `PATH` in a shell start-up file.
pub open spec fn path_line_spec(dir: Seq<char>) -> Seq<char> {
    "export PATH=\"$PATH:"@ + dir + "\""@
}

/// `export PATH="$PATH:<dir>"`.
pub fn path_line(dir: &str) -> (line: String)
    ensures
        line@ == path_line_spec(dir@),
{
    let mut line = owned("export PATH=\"$PATH:");
    line.append(dir);
    line.append("\"");
    line
}

/// Whether `dir` is one of the `:`-separated entries of `path_var`.
pub fn path_has_dir(path_var: &str, dir: &str) -> (r: bool)
    ensures
        r == split_on(path_var@, ':').contains(dir@),
{
    let pieces = split_str(path_var, ':');
    let mut i: usize = 0;
    while i < pieces.len()
        invariant
            pieces.deep_view() == split_on(path_var@, ':'),
            i <= pieces.len(),
            forall|j: int| 0 <= j < i ==> pieces.deep_view()[j] != dir@,
        decreases pieces.len() - i,
    {
        if str_eq(pieces[i].as_str(), dir) {
            assert(pieces.deep_view()[i as int] == dir@);
            return true;
        }
        i += 1;
    }
    false
}

/// What putting the installation directory on `PATH` comes to.
#[derive(Debug)]
pub enum PathUpdate {
    /// `PATH` already holds the directory.
    AlreadyOnPath,
    /// The start-up file already mentions the directory.
    AlreadyInStartupFile,
    /// Write this text to the start-up file.
    Write(String),
}

/// The start-up file text with the `PATH` line appended.
pub open spec fn appended_rc_spec(content: Seq<char>, dir: Seq<char>) -> Seq<char> {
    if content.len() == 0 {
        path_line_spec(dir) + "\n"@
    } else {
        content + "\n"@ + path_line_spec(dir) + "\n"@
    }
}

/// Decides how to put `install_dir` on `PATH`, given the `PATH` variable (if
/// set) and the current text of the shell start-up file (empty when it
/// cannot be read).
pub fn add_to_path(path_var: Option<&str>, rc_content: &str, install_dir: &str) -> (r: PathUpdate)
    ensures
        match r {
            PathUpdate::AlreadyOnPath => path_var matches Some(p) && split_on(p@, ':').contains(install_dir@),
            PathUpdate::AlreadyInStartupFile => !(path_var matches Some(p) && split_on(p@, ':').contains(install_dir@))
                && seq_contains(rc_content@, install_dir@),
            PathUpdate::Write(text) => !(path_var matches Some(p) && split_on(p@, ':').contains(install_dir@))
                && !seq_contains(rc_content@, install_dir@)
                && text@ == appended_rc_spec(rc_content@, install_dir@)
                && seq_starts_with(text@, rc_content@),
        },
{
    if let Some(p) = path_var {
        if path_has_dir(p, install_dir) {
            return PathUpdate::AlreadyOnPath;
        }
    }
    if contains(rc_content, install_dir) {
        return PathUpdate::AlreadyInStartupFile;
    }
    let line = path_line(install_dir);
    let mut text = String::new();
    if rc_content.unicode_len() == 0 {
        text.append(line.as_str());
        text.append("\n");
    } else {
        text.append(rc_content);
        text.append("\n");
        text.append(line.as_str());
        text.append("\n");
    }
    assert(text@.take(rc_content@.len() as int) =~= rc_content@);
    PathUpdate::Write(text)
}

} // verus!
