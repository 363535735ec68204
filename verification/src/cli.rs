//! The decisions of the command line: what a target is, which name an
//! executable is registered under, and what is handed to the executable.

use vstd::prelude::*;
use vstd::string::*;
use crate::config::Config;
use crate::paths::{seg_start, lemma_seg_start_bounds};
use crate::text::{chars_of, lex_lt, owned, starts_with, seq_starts_with, trim, trim_str};

verus! {

/// What the target on the command line names.
#[derive(Debug)]
pub enum TargetKind {
    /// A registered alias.
    Alias,
    /// A web address, which is not supported.
    Url,
    /// A path to an executable.
    Path,
}

/// Whether a target is a web address.
pub open spec fn is_url_spec(target: Seq<char>) -> bool {
    seq_starts_with(target, "http://"@) || seq_starts_with(target, "https://"@)
}

/// A registered alias comes first; then a target starting with `http://` or
/// `https://` is a web address; anything else is a path.
pub fn classify_target(config: &Config, target: &str) -> (k: TargetKind)
    ensures
        config@.contains_key(target@) ==> k == TargetKind::Alias,
        !config@.contains_key(target@) && is_url_spec(target@) ==> k == TargetKind::Url,
        !config@.contains_key(target@) && !is_url_spec(target@) ==> k == TargetKind::Path,
{
    if config.contains(target) {
        TargetKind::Alias
    } else if starts_with(target, "http://") || starts_with(target, "https://") {
        TargetKind::Url
    } else {
        TargetKind::Path
    }
}

/// The last `/`-separated piece of a path: the name suggested for it.
pub open spec fn basename_spec(path: Seq<char>) -> Seq<char> {
    path.skip(seg_start(path))
}

/// What follows the last `/` of `path`, or all of it.
pub fn default_alias_name(path: &str) -> (name: String)
    ensures
        name@ == basename_spec(path@),
{
    let v = chars_of(path);
    let n = v.len();
    let mut k = n;
    assert(path@.take(n as int) =~= path@);
    while k > 0 && v[k - 1] != '/'
        invariant
            v@ == path@,
            n == v.len(),
            k <= n,
            seg_start(path@) == seg_start(path@.take(k as int)),
            forall|i: int| k <= i < n ==> v@[i] != '/',
        decreases k,
    {
        assert(path@.take(k as int).drop_last() =~= path@.take(k - 1));
        k -= 1;
    }
    proof {
        lemma_seg_start_bounds(path@);
    }
    assert(basename_spec(path@) =~= path@.subrange(k as int, n as int)) by {
        assert(seg_start(path@.take(k as int)) == k);
    }
    owned(path.substring_char(k, n))
}

/// The name an executable at `target_path` goes by, and whether it is
/// registered: the first alias, in the order of the names, that stands for
/// it; else the last piece of the path, unregistered.
pub fn registered_name(config: &Config, target_path: &str) -> (r: (String, bool))
    ensures
        r.1 ==> {
            &&& config@.contains_key(r.0@)
            &&& config@[r.0@].path == target_path@
            &&& forall|k: Seq<char>|
                #![trigger config@[k]]
                config@.contains_key(k) && lex_lt(k, r.0@) ==> config@[k].path != target_path@
        },
        !r.1 ==> {
            &&& r.0@ == basename_spec(target_path@)
            &&& forall|k: Seq<char>| #[trigger] config@.contains_key(k) ==> config@[k].path != target_path@
        },
{
    match config.find_by_path(target_path) {
        Some(name) => (name, true),
        None => (default_alias_name(target_path), false),
    }
}

/// `s` with each space replaced by `_`.
pub open spec fn spaces_to_underscores(s: Seq<char>) -> Seq<char> {
    s.map_values(|c: char| if c == ' ' { '_' } else { c })
}

/// The alias name typed in reply to the prompt: trimmed, spaces turned into
/// `_`; an empty reply keeps the suggested name.
pub open spec fn chosen_alias_spec(input: Seq<char>, suggested: Seq<char>) -> Seq<char> {
    if trim(input).len() == 0 {
        suggested
    } else {
        spaces_to_underscores(trim(input))
    }
}

/// The alias name chosen by the reply `input` to the prompt that suggested
/// `suggested`.
pub fn alias_name_from_input(input: &str, suggested: &str) -> (name: String)
    ensures
        name@ == chosen_alias_spec(input@, suggested@),
{
    let t = trim_str(input);
    let ts = t.as_str();
    let n = ts.unicode_len();
    if n == 0 {
        return owned(suggested);
    }
    let mut name = String::new();
    let mut i: usize = 0;
    while i < n
        invariant
            n == ts@.len(),
            ts@ == trim(input@),
            i <= n,
            name@ == spaces_to_underscores(ts@.take(i as int)),
        decreases n - i,
    {
        let c = ts.get_char(i);
        let ghost before = name@;
        if c == ' ' {
            name.append("_");
            proof {
                reveal_strlit("_");
            }
            assert("_"@ =~= seq!['_']);
        } else {
            name.append(ts.substring_char(i, i + 1));
            assert(ts@.subrange(i as int, i + 1) =~= seq![c]);
        }
        assert(name@ =~= before.push(if c == ' ' { '_' } else { c }));
        assert(spaces_to_underscores(ts@.take(i + 1)) =~= spaces_to_underscores(ts@.take(i as int)).push(
            if c == ' ' { '_' } else { c },
        ));
        i += 1;
    }
    assert(ts@.take(n as int) =~= ts@);
    name
}

/// What a run of `binx` does once its target is known.
#[derive(Debug)]
pub enum RunSteps {
    /// Remove the registered alias, and stop.
    Remove,
    /// Report that the target is not a registered alias, and stop.
    ReportUnregistered,
    /// Report that the target is not executable, and stop.
    ReportNotExecutable,
    /// Register the target when asked, install its script and its desktop
    /// entry when asked, then run it.
    Run { register: bool, install_script: bool, install_desktop: bool },
}

/// The steps of a run: `--remove` removes a registered target and does
/// nothing else; otherwise a target that is not executable is refused, and
/// an executable one is registered when it is new, gets its script and
/// desktop entry when the flags ask for them, and runs.
pub fn run_steps(remove: bool, registered: bool, executable: bool, install: bool, desktop: bool) -> (s: RunSteps)
    ensures
        remove && registered ==> s == RunSteps::Remove,
        remove && !registered ==> s == RunSteps::ReportUnregistered,
        !remove && !executable ==> s == RunSteps::ReportNotExecutable,
        !remove && executable ==> s == (RunSteps::Run {
            register: !registered,
            install_script: install,
            install_desktop: desktop,
        }),
{
    if remove {
        if registered {
            RunSteps::Remove
        } else {
            RunSteps::ReportUnregistered
        }
    } else if !executable {
        RunSteps::ReportNotExecutable
    } else {
        RunSteps::Run { register: !registered, install_script: install, install_desktop: desktop }
    }
}

/// Whether a file mode lets anyone execute the file.
pub fn is_executable_mode(mode: u32) -> (r: bool)
    ensures
        r == (mode & 0o111 != 0),
{
    mode & 0o111 != 0
}

/// The argument list the executable is started with: its own path, then
/// the arguments given after the target.
pub fn execute_arguments(bin_path: &str, args: &Vec<String>) -> (argv: Vec<String>)
    ensures
        argv.deep_view() == seq![bin_path@] + args.deep_view(),
{
    let mut argv: Vec<String> = Vec::new();
    argv.push(owned(bin_path));
    let mut i: usize = 0;
    while i < args.len()
        invariant
            i <= args.len(),
            argv.deep_view() == seq![bin_path@] + args.deep_view().take(i as int),
        decreases args.len() - i,
    {
        let ghost before = argv.deep_view();
        argv.push(args[i].clone());
        assert(argv.deep_view() =~= before.push(args[i as int]@));
        assert(args.deep_view().take(i + 1) =~= args.deep_view().take(i as int).push(args[i as int]@));
        i += 1;
    }
    assert(args.deep_view().take(i as int) =~= args.deep_view());
    argv
}

/// An environment variable as the executable receives it: `key=value`.
pub fn environment_entry(key: &str, value: &str) -> (entry: String)
    ensures
        entry@ == key@ + "="@ + value@,
{
    let mut entry = owned(key);
    entry.append("=");
    entry.append(value);
    entry
}

/// The first line `binx` prints: its name and version.
pub fn version_banner(name: &str, version: &str) -> (line: String)
    ensures
        line@ == name@ + " v"@ + version@,
{
    let mut line = owned(name);
    line.append(" v");
    line.append(version);
    line
}

} // verus!
