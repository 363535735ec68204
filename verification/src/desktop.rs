//! What `binx` installs for an alias: its launcher script, its desktop entry
//! and icon, and what removing the alias takes away again.

use vstd::prelude::*;
use vstd::string::*;
use crate::config::{AliasView, Config, with_script, with_desktop, with_icon};
use crate::paths::{
    join, join_path, extension, extension_spec, file_stem, file_stem_spec, lemma_extension_of_join, lemma_file_stem_shape, lemma_parent_of_join,
    parent, parent_spec,
};
use crate::text::{owned, concat2, str_eq};

verus! {

/// The file name (without `.desktop`) of an alias's desktop entry.
pub open spec fn desktop_filename_spec(alias: Seq<char>) -> Seq<char> {
    "binx_"@ + alias
}

/// `binx_<alias>`.
pub fn desktop_filename(alias: &str) -> (name: String)
    ensures
        name@ == desktop_filename_spec(alias@),
{
    concat2("binx_", alias)
}

/// The launcher script of an alias: it hands its arguments to the installed
/// executable together with the alias.
pub open spec fn script_content_spec(install_executable: Seq<char>, alias: Seq<char>) -> Seq<char> {
    "#!/bin/bash\n# Script generated by binx\nexec "@ + install_executable + " "@ + alias + " \"$@\""@
}

/// The text of the launcher script for `alias`, given the installed
/// executable's path.
pub fn generate_script_content(install_executable: &str, alias: &str) -> (text: String)
    ensures
        text@ == script_content_spec(install_executable@, alias@),
{
    let mut text = owned("#!/bin/bash\n# Script generated by binx\nexec ");
    text.append(install_executable);
    text.append(" ");
    text.append(alias);
    text.append(" \"$@\"");
    text
}

/// Where an alias's launcher script goes, and what it holds.
pub struct ScriptPlan {
    pub path: String,
    pub content: String,
}

/// The launcher script of `alias`: `<install dir>/<alias>`, running the
/// installed executable with the alias. The script's path is recorded for
/// the alias in `config`, when there is such an alias.
pub fn install_target_script(config: &mut Config, install_dir: &str, install_executable: &str, alias: &str) -> (plan: ScriptPlan)
    ensures
        plan.path@ == join_path(install_dir@, alias@),
        plan.content@ == script_content_spec(install_executable@, alias@),
        old(config)@.contains_key(alias@) ==> final(config)@ == old(config)@.insert(
            alias@,
            with_script(old(config)@[alias@], plan.path@),
        ),
        !old(config)@.contains_key(alias@) ==> final(config)@ == old(config)@,
{
    let path = join(install_dir, alias);
    config.set_script(alias, path.clone());
    ScriptPlan { path, content: generate_script_content(install_executable, alias) }
}

/// The `Exec` and `TryExec` values of an alias's desktop entry: the
/// installed executable with the alias, and the installed executable.
pub fn resolve_desktop_exec(install_executable: &str, alias: &str) -> (r: (String, String))
    ensures
        r.0@ == install_executable@ + " "@ + alias@,
        r.1@ == install_executable@,
{
    let mut exec = owned(install_executable);
    exec.append(" ");
    exec.append(alias);
    (exec, owned(install_executable))
}

/// What `char::to_uppercase` yields for `c`.
pub uninterp spec fn uppercase_of(c: char) -> Seq<char>;

/// `c.to_uppercase()` collected into a string. By the documentation of
/// `char::to_uppercase`, an ASCII lower-case letter maps to its capital and
/// any other ASCII character, having no upper-case mapping, to itself; the
/// mapping of other characters follows Unicode's tables and is only named.
#[verifier::external_body]
fn uppercase(c: char) -> (s: String)
    ensures
        s@ == uppercase_of(c),
        'a' <= c <= 'z' ==> s@ == seq![((c as u32) - 32) as char],
        (c as u32) < 128 && !('a' <= c <= 'z') ==> s@ == seq![c],
{
    c.to_uppercase().collect::<String>()
}

/// `alias` with its first character in upper case.
pub open spec fn display_name_spec(alias: Seq<char>) -> Seq<char> {
    if alias.len() == 0 {
        alias
    } else {
        uppercase_of(alias[0]) + alias.skip(1)
    }
}

/// The text of an alias's desktop entry.
pub open spec fn desktop_content_spec(
    alias: Seq<char>,
    exec_path: Seq<char>,
    try_exec_path: Seq<char>,
    icon_name: Seq<char>,
) -> Seq<char> {
    desktop_text_spec(display_name_spec(alias), alias, exec_path, try_exec_path, icon_name)
}

/// Whether a name starts with an ASCII lower-case letter.
pub open spec fn starts_ascii_lower(alias: Seq<char>) -> bool {
    alias.len() > 0 && 'a' <= alias[0] && alias[0] <= 'z'
}

/// Whether a name is empty or starts with an ASCII character that is not a
/// lower-case letter.
pub open spec fn starts_ascii_other(alias: Seq<char>) -> bool {
    alias.len() == 0 || ((alias[0] as u32) < 128 && !('a' <= alias[0] && alias[0] <= 'z'))
}

/// A name starting with an ASCII lower-case letter, with that letter made
/// a capital.
pub open spec fn ascii_capitalized(alias: Seq<char>) -> Seq<char> {
    seq![((alias[0] as u32) - 32) as char] + alias.skip(1)
}

/// `alias` with its first character in upper case: an ASCII lower-case
/// letter becomes its capital, any other ASCII character stays.
pub fn display_name(alias: &str) -> (name: String)
    ensures
        name@ == display_name_spec(alias@),
        starts_ascii_lower(alias@) ==> name@ == ascii_capitalized(alias@),
        starts_ascii_other(alias@) ==> name@ == alias@,
{
    let n = alias.unicode_len();
    if n == 0 {
        return String::new();
    }
    let c = alias.get_char(0);
    let mut name = uppercase(c);
    let ghost up = name@;
    name.append(alias.substring_char(1, n));
    proof {
        if starts_ascii_lower(alias@) {
        }
        if starts_ascii_other(alias@) {
            assert(alias@ =~= seq![c] + alias@.skip(1));
        }
    }
    name
}

/// The text of a desktop entry, given the display name.
pub open spec fn desktop_text_spec(
    display: Seq<char>,
    alias: Seq<char>,
    exec_path: Seq<char>,
    try_exec_path: Seq<char>,
    icon_name: Seq<char>,
) -> Seq<char> {
    "[Desktop Entry]\nType=Application\nName="@ + display + "\nComment=Launch "@ + alias
        + " via binx\nExec="@ + exec_path + "\nTryExec="@ + try_exec_path + "\nIcon="@ + icon_name
        + "\nTerminal=true\nNoDisplay=false\nCategories=Utility;\n"@
}

/// The text of the desktop entry that launches `alias`.
pub fn generate_desktop_content(alias: &str, exec_path: &str, try_exec_path: &str, icon_name: &str) -> (text: String)
    ensures
        text@ == desktop_content_spec(alias@, exec_path@, try_exec_path@, icon_name@),
        starts_ascii_lower(alias@) ==> text@ == desktop_text_spec(
            ascii_capitalized(alias@),
            alias@,
            exec_path@,
            try_exec_path@,
            icon_name@,
        ),
        starts_ascii_other(alias@) ==> text@ == desktop_text_spec(
            alias@,
            alias@,
            exec_path@,
            try_exec_path@,
            icon_name@,
        ),
{
    let name = display_name(alias);
    compose_desktop_content(name.as_str(), alias, exec_path, try_exec_path, icon_name)
}

/// The text of the desktop entry that launches `alias` under the name
/// `display`.
pub fn compose_desktop_content(
    display: &str,
    alias: &str,
    exec_path: &str,
    try_exec_path: &str,
    icon_name: &str,
) -> (text: String)
    ensures
        text@ == desktop_text_spec(display@, alias@, exec_path@, try_exec_path@, icon_name@),
{
    let mut text = owned("[Desktop Entry]\nType=Application\nName=");
    text.append(display);
    text.append("\nComment=Launch ");
    text.append(alias);
    text.append(" via binx\nExec=");
    text.append(exec_path);
    text.append("\nTryExec=");
    text.append(try_exec_path);
    text.append("\nIcon=");
    text.append(icon_name);
    text.append("\nTerminal=true\nNoDisplay=false\nCategories=Utility;\n");
    text
}

/// Where an icon for the executable at a path may lie: beside it, named as
/// its stem with `.svg`, then with `.png`.
pub open spec fn icon_candidates_spec(target: Seq<char>) -> Option<(Seq<char>, Seq<char>)> {
    match (file_stem_spec(target), parent_spec(target)) {
        (Some(stem), Some(dir)) => Some((join_path(dir, stem + ".svg"@), join_path(dir, stem + ".png"@))),
        _ => None,
    }
}

/// The places where an icon may lie carry the extensions `svg` and `png`,
/// the target's file stem, and the target's parent directory.
pub proof fn lemma_icon_candidate_extensions(target: Seq<char>)
    ensures
        icon_candidates_spec(target) matches Some((svg, png)) ==> extension_spec(svg) == Some("svg"@)
            && extension_spec(png) == Some("png"@),
        icon_candidates_spec(target) matches Some((svg, png)) ==> file_stem_spec(svg) == file_stem_spec(target)
            && file_stem_spec(png) == file_stem_spec(target),
        icon_candidates_spec(target) matches Some((svg, png)) ==> parent_spec(svg) == parent_spec(target)
            && parent_spec(png) == parent_spec(target),
{
    if let (Some(stem), Some(dir)) = (file_stem_spec(target), parent_spec(target)) {
        reveal_strlit(".svg");
        reveal_strlit(".png");
        reveal_strlit("svg");
        reveal_strlit("png");
        lemma_file_stem_shape(target);
        assert(stem + ".svg"@ =~= stem + seq!['.'] + "svg"@);
        assert(stem + ".png"@ =~= stem + seq!['.'] + "png"@);
        lemma_extension_of_join(dir, stem, "svg"@);
        lemma_extension_of_join(dir, stem, "png"@);
        let svg_name = stem + ".svg"@;
        let png_name = stem + ".png"@;
        assert forall|i: int| 0 <= i < svg_name.len() implies svg_name[i] != '/' by {
            if i < stem.len() {
                assert(svg_name[i] == stem[i]);
            }
        }
        assert forall|i: int| 0 <= i < png_name.len() implies png_name[i] != '/' by {
            if i < stem.len() {
                assert(png_name[i] == stem[i]);
            }
        }
        assert(svg_name != seq!['.', '.']) by {
            assert(svg_name.len() >= 5);
        }
        assert(png_name != seq!['.', '.']) by {
            assert(png_name.len() >= 5);
        }
        lemma_parent_of_join(target, svg_name);
        lemma_parent_of_join(target, png_name);
    }
}

/// The two places where an icon for the executable at `target_path` may lie,
/// the `.svg` first; none when the path has no file stem or no parent.
pub fn icon_candidates(target_path: &str) -> (r: Option<(String, String)>)
    ensures
        match r {
            Some((svg, png)) => {
                &&& icon_candidates_spec(target_path@) == Some((svg@, png@))
                &&& extension_spec(svg@) == Some("svg"@)
                &&& extension_spec(png@) == Some("png"@)
                &&& file_stem_spec(svg@) == file_stem_spec(target_path@)
                &&& file_stem_spec(png@) == file_stem_spec(target_path@)
                &&& parent_spec(svg@) == parent_spec(target_path@)
                &&& parent_spec(png@) == parent_spec(target_path@)
            },
            None => icon_candidates_spec(target_path@) is None,
        },
{
    proof {
        lemma_icon_candidate_extensions(target_path@);
    }
    let stem = match file_stem(target_path) {
        Some(s) => s,
        None => return None,
    };
    let dir = match parent(target_path) {
        Some(d) => d,
        None => return None,
    };
    let svg = join(dir.as_str(), concat2(stem.as_str(), ".svg").as_str());
    let png = join(dir.as_str(), concat2(stem.as_str(), ".png").as_str());
    Some((svg, png))
}

/// The icon of an executable, from its candidates and which of them exist:
/// the `.svg` when it exists, else the `.png` when it exists.
pub fn find_icon_file(candidates: Option<(String, String)>, svg_exists: bool, png_exists: bool) -> (r: Option<String>)
    ensures
        match candidates {
            Some((svg, png)) => if svg_exists {
                r == Some(svg)
            } else if png_exists {
                r == Some(png)
            } else {
                r is None
            },
            None => r is None,
        },
{
    match candidates {
        Some((svg, png)) => if svg_exists {
            Some(svg)
        } else if png_exists {
            Some(png)
        } else {
            None
        },
        None => None,
    }
}

/// The icon theme directory under the home directory.
pub open spec fn icons_base_spec(home_dir: Seq<char>) -> Seq<char> {
    join_path(home_dir, ".local/share/icons/hicolor"@)
}

/// Where an icon is installed into the user's icon theme, and the name the
/// desktop entry gives it.
pub struct IconPlan {
    pub icons_base: String,
    pub dest_dir: String,
    pub dest_path: String,
    pub icon_name: String,
}

/// The extension an icon keeps: its own, or `png` when it has none.
pub open spec fn icon_extension_spec(icon_path: Seq<char>) -> Seq<char> {
    match extension_spec(icon_path) {
        Some(e) => e,
        None => "png"@,
    }
}

/// The theme directory for an icon: `scalable/apps` for an `svg`, else
/// `256x256/apps`.
pub open spec fn icon_dir_spec(home_dir: Seq<char>, ext: Seq<char>) -> Seq<char> {
    join_path(icons_base_spec(home_dir), if ext == "svg"@ { "scalable/apps"@ } else { "256x256/apps"@ })
}

/// How the icon at `icon_path` is installed for `target`: copied into the
/// theme directory for its kind as `<target>.<extension>`, and named
/// `target` in the desktop entry.
pub fn install_icon_file(home_dir: &str, target: &str, icon_path: &str) -> (plan: IconPlan)
    ensures
        plan.icons_base@ == icons_base_spec(home_dir@),
        plan.dest_dir@ == icon_dir_spec(home_dir@, icon_extension_spec(icon_path@)),
        plan.dest_path@ == join_path(
            icon_dir_spec(home_dir@, icon_extension_spec(icon_path@)),
            target@ + "."@ + icon_extension_spec(icon_path@),
        ),
        plan.icon_name@ == target@,
{
    let ext = match extension(icon_path) {
        Some(e) => e,
        None => owned("png"),
    };
    let base = join(home_dir, ".local/share/icons/hicolor");
    let dest_dir = if str_eq(ext.as_str(), "svg") {
        join(base.as_str(), "scalable/apps")
    } else {
        join(base.as_str(), "256x256/apps")
    };
    let mut file = owned(target);
    file.append(".");
    file.append(ext.as_str());
    let dest_path = join(dest_dir.as_str(), file.as_str());
    IconPlan { icons_base: base, dest_dir, dest_path, icon_name: owned(target) }
}

/// The icon name a desktop entry uses when no icon was installed.
pub open spec fn default_icon_name() -> Seq<char> {
    "application-x-executable"@
}

/// Where an alias's desktop entry goes, and what it holds.
pub struct DesktopPlan {
    pub file_path: String,
    pub content: String,
}

/// An alias after its desktop entry was installed: the entry recorded and,
/// when an icon was installed with it, the icon's name.
pub open spec fn desktop_recorded(a: AliasView, desktop: Seq<char>, icon: Option<Seq<char>>) -> AliasView {
    match icon {
        Some(i) => with_icon(with_desktop(a, desktop), i),
        None => with_desktop(a, desktop),
    }
}

/// The desktop entry file of `alias` in the applications directory.
pub open spec fn desktop_file_path_spec(apps_dir: Seq<char>, alias: Seq<char>) -> Seq<char> {
    join_path(apps_dir, desktop_filename_spec(alias) + ".desktop"@)
}

/// The desktop entry of `alias`: `binx_<alias>.desktop` in the applications
/// directory, launching the installed executable with the alias, with the
/// installed icon's name or, when none was installed, the generic one. The
/// entry's path, and the installed icon's name, are recorded for the alias in
/// `config`, when there is such an alias.
pub fn install_desktop_file(
    config: &mut Config,
    apps_dir: &str,
    install_executable: &str,
    alias: &str,
    icon_name: Option<&str>,
) -> (plan: DesktopPlan)
    ensures
        plan.file_path@ == desktop_file_path_spec(apps_dir@, alias@),
        old(config)@.contains_key(alias@) ==> final(config)@ == old(config)@.insert(
            alias@,
            desktop_recorded(
                old(config)@[alias@],
                plan.file_path@,
                match icon_name {
                    Some(i) => Some(i@),
                    None => None,
                },
            ),
        ),
        !old(config)@.contains_key(alias@) ==> final(config)@ == old(config)@,
        old(config)@.contains_key(alias@) ==> {
            &&& final(config)@.contains_key(alias@)
            &&& final(config)@[alias@].desktop == Some(plan.file_path@)
            &&& final(config)@[alias@].path == old(config)@[alias@].path
            &&& final(config)@[alias@].script == old(config)@[alias@].script
            &&& final(config)@[alias@].icon == match icon_name {
                Some(i) => Some(i@),
                None => old(config)@[alias@].icon,
            }
        },
        plan.content@ == desktop_content_spec(
            alias@,
            install_executable@ + " "@ + alias@,
            install_executable@,
            match icon_name {
                Some(i) => i@,
                None => default_icon_name(),
            },
        ),
{
    let mut file = desktop_filename(alias);
    file.append(".desktop");
    let file_path = join(apps_dir, file.as_str());
    let (exec_path, try_exec_path) = resolve_desktop_exec(install_executable, alias);
    let icon = match icon_name {
        Some(i) => owned(i),
        None => owned("application-x-executable"),
    };
    let content = generate_desktop_content(alias, exec_path.as_str(), try_exec_path.as_str(), icon.as_str());
    config.set_desktop(alias, file_path.clone());
    if let Some(i) = icon_name {
        config.set_icon(alias, owned(i));
    }
    DesktopPlan { file_path, content }
}

/// What removing an alias takes away: its launcher script if one was
/// recorded, its desktop entry, and the icon files it may have installed.
pub struct RemovalPlan {
    pub script: Option<String>,
    pub desktop_file: String,
    pub icon_files: Vec<String>,
}

/// The icon files an icon name may have been installed as, in the order
/// they are looked for.
pub open spec fn icon_files_spec(home_dir: Seq<char>, icon: Seq<char>) -> Seq<Seq<char>> {
    let base = icons_base_spec(home_dir);
    let scalable = join_path(base, "scalable/apps"@);
    let sized = join_path(base, "256x256/apps"@);
    seq![
        join_path(scalable, icon + ".svg"@),
        join_path(scalable, icon + ".png"@),
        join_path(sized, icon + ".svg"@),
        join_path(sized, icon + ".png"@),
    ]
}

/// Removes `alias` from `config` and gives the files that go with it; none,
/// and no change, when there is no such alias.
pub fn remove_alias(config: &mut Config, alias: &str, home_dir: &str, apps_dir: &str) -> (r: Option<RemovalPlan>)
    ensures
        final(config)@ == old(config)@.remove(alias@),
        match r {
            None => !old(config)@.contains_key(alias@),
            Some(plan) => {
                &&& old(config)@.contains_key(alias@)
                &&& plan.script.deep_view() == old(config)@[alias@].script
                &&& plan.desktop_file@ == desktop_file_path_spec(apps_dir@, alias@)
                &&& plan.icon_files.deep_view() == match old(config)@[alias@].icon {
                    Some(icon) => icon_files_spec(home_dir@, icon),
                    None => Seq::<Seq<char>>::empty(),
                }
            },
        },
{
    let entry = match config.remove(alias) {
        Some(a) => a,
        None => return None,
    };
    let script = entry.script;
    let mut file = desktop_filename(alias);
    file.append(".desktop");
    let desktop_file = join(apps_dir, file.as_str());
    let mut icon_files: Vec<String> = Vec::new();
    if let Some(icon) = &entry.icon {
        let base = join(home_dir, ".local/share/icons/hicolor");
        let scalable = join(base.as_str(), "scalable/apps");
        let sized = join(base.as_str(), "256x256/apps");
        let svg = concat2(icon.as_str(), ".svg");
        let png = concat2(icon.as_str(), ".png");
        icon_files.push(join(scalable.as_str(), svg.as_str()));
        icon_files.push(join(scalable.as_str(), png.as_str()));
        icon_files.push(join(sized.as_str(), svg.as_str()));
        icon_files.push(join(sized.as_str(), png.as_str()));
        assert(icon_files.deep_view() =~= icon_files_spec(home_dir@, icon@));
    } else {
        assert(icon_files.deep_view() =~= Seq::<Seq<char>>::empty());
    }
    Some(RemovalPlan { script, desktop_file, icon_files })
}

} // verus!
