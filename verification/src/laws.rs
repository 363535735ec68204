//! Properties that hold across the operations of the library.

use vstd::prelude::*;
use vstd::string::*;
use crate::cli::chosen_alias_spec;
use crate::config::{AliasView, with_script, with_desktop};
use crate::desktop::{desktop_recorded, icon_candidates_spec, lemma_icon_candidate_extensions, icon_dir_spec, icon_extension_spec, icon_files_spec};
use crate::install::{appended_rc_spec, installed_version_spec, version_prefix};
use crate::version::{
    digits_value, is_digit, lemma_numbers_lt_asymmetric, lemma_numbers_lt_irreflexive, numbers_lt, parse_version_spec,
    tail_of, valid_component, version_older,
};
use crate::paths::{
    components, extension_spec, parent_spec, file_name_spec, file_stem_spec, has_cur_dir, has_root, join_path,
    keep_named, last_index_of, lemma_last_index_of, same_path_spec,
};
use crate::text::{is_white, occurs_at, seq_contains, seq_starts_with, split_on, trim, trim_end, trim_start};

verus! {

/// Recording an alias under a name and then looking the name up gives that
/// alias; every other name keeps what it had.
pub proof fn law_lookup_after_insert(
    m: Map<Seq<char>, AliasView>,
    name: Seq<char>,
    alias: AliasView,
    other: Seq<char>,
)
    ensures
        m.insert(name, alias).contains_key(name),
        m.insert(name, alias)[name] == alias,
        other != name ==> m.insert(name, alias).contains_key(other) == m.contains_key(other),
        other != name && m.contains_key(other) ==> m.insert(name, alias)[other] == m[other],
{
}

/// After an alias is removed its name is gone; every other name keeps what
/// it had.
pub proof fn law_lookup_after_remove(m: Map<Seq<char>, AliasView>, name: Seq<char>, other: Seq<char>)
    ensures
        !m.remove(name).contains_key(name),
        other != name ==> m.remove(name).contains_key(other) == m.contains_key(other),
        other != name && m.contains_key(other) ==> m.remove(name)[other] == m[other],
{
}

/// Removing an alias undoes recording it: the configuration is as it was
/// without that name, and as it was before when the name was new.
pub proof fn law_remove_undoes_insert(m: Map<Seq<char>, AliasView>, name: Seq<char>, alias: AliasView)
    ensures
        m.insert(name, alias).remove(name) == m.remove(name),
        !m.contains_key(name) ==> m.insert(name, alias).remove(name) == m,
{
    assert(m.insert(name, alias).remove(name) =~= m.remove(name));
    if !m.contains_key(name) {
        assert(m.remove(name) =~= m);
    }
}

/// Recording a script or a desktop entry for an alias keeps the executable
/// it stands for and what else it recorded.
pub proof fn law_recording_keeps_the_rest(a: AliasView, s: Seq<char>)
    ensures
        with_script(a, s).path == a.path,
        with_script(a, s).desktop == a.desktop,
        with_script(a, s).icon == a.icon,
        with_script(a, s).script == Some(s),
        with_desktop(a, s).path == a.path,
        with_desktop(a, s).script == a.script,
        with_desktop(a, s).icon == a.icon,
        with_desktop(a, s).desktop == Some(s),
{
}

/// Equality of paths is an equivalence.
pub proof fn law_same_path_is_equivalence(a: Seq<char>, b: Seq<char>, c: Seq<char>)
    ensures
        same_path_spec(a, a),
        same_path_spec(a, b) == same_path_spec(b, a),
        same_path_spec(a, b) && same_path_spec(b, c) ==> same_path_spec(a, c),
{
}

/// A trailing separator does not change which path a non-empty path names.
pub proof fn law_trailing_separator(a: Seq<char>)
    requires
        a.len() > 0,
    ensures
        same_path_spec(a, a.push('/')),
{
    let b = a.push('/');
    assert(b.drop_last() =~= a);
    assert(split_on(b, '/') == split_on(a, '/').push(Seq::<char>::empty()));
    let pb = split_on(a, '/').push(Seq::<char>::empty());
    assert(pb.drop_last() =~= split_on(a, '/'));
    assert(keep_named(pb) == keep_named(split_on(a, '/')));
    assert(b[0] == a[0]);
    if a.len() > 1 {
        assert(b[1] == a[1]);
    }
    assert(has_root(b) == has_root(a));
    assert(has_cur_dir(b) == has_cur_dir(a));
    assert(components(b) =~= components(a));
}

/// Joining an absolute path gives that path.
pub proof fn law_join_absolute(base: Seq<char>, rel: Seq<char>)
    requires
        rel.len() > 0,
        rel[0] == '/',
    ensures
        join_path(base, rel) == rel,
{
}

/// A relative path joined to a base starts with the base.
pub proof fn law_join_extends(base: Seq<char>, rel: Seq<char>)
    requires
        !(rel.len() > 0 && rel[0] == '/'),
    ensures
        seq_starts_with(join_path(base, rel), base),
{
    if base.len() == 0 || base.last() == '/' {
        assert((base + rel).take(base.len() as int) =~= base);
    } else {
        assert((base + "/"@ + rel).take(base.len() as int) =~= base);
    }
}

/// A file name with an extension is its stem, a dot and its extension.
pub proof fn law_stem_dot_extension(s: Seq<char>)
    requires
        extension_spec(s) is Some,
    ensures
        file_name_spec(s) is Some,
        file_stem_spec(s) is Some,
        file_name_spec(s)->0 == file_stem_spec(s)->0 + seq!['.'] + extension_spec(s)->0,
{
    let n = file_name_spec(s)->0;
    let d = last_index_of(n, '.');
    lemma_last_index_of(n, '.');
    assert(n =~= n.take(d) + seq!['.'] + n.skip(d + 1));
}

/// The text written to the shell start-up file mentions the installation
/// directory, so putting it on `PATH` a second time writes nothing.
pub proof fn law_path_update_is_idempotent(content: Seq<char>, dir: Seq<char>)
    ensures
        seq_contains(appended_rc_spec(content, dir), dir),
{
    reveal_strlit("export PATH=\"$PATH:");
    reveal_strlit("\"");
    reveal_strlit("\n");
    let head: Seq<char> = "export PATH=\"$PATH:"@;
    let text = appended_rc_spec(content, dir);
    let at = if content.len() == 0 { head.len() as int } else { (content.len() + 1 + head.len()) as int };
    if content.len() == 0 {
        assert(text.subrange(at, at + dir.len()) =~= dir);
    } else {
        assert(text.subrange(at, at + dir.len()) =~= dir);
    }
    assert(occurs_at(text, dir, at));
}

proof fn lemma_trim_start_at(s: Seq<char>) -> (i: int)
    ensures
        0 <= i <= s.len(),
        trim_start(s) == s.skip(i),
        forall|k: int| 0 <= k < i ==> is_white(#[trigger] s[k]),
        i < s.len() ==> !is_white(s[i]),
    decreases s.len(),
{
    if s.len() > 0 && is_white(s[0]) {
        let r = lemma_trim_start_at(s.drop_first());
        assert(s.drop_first().skip(r) =~= s.skip(r + 1));
        assert forall|k: int| 0 <= k < r + 1 implies is_white(#[trigger] s[k]) by {
            if k > 0 {
                assert(s[k] == s.drop_first()[k - 1]);
            }
        }
        r + 1
    } else {
        assert(s.skip(0) =~= s);
        0
    }
}

proof fn lemma_trim_end_at(s: Seq<char>) -> (j: int)
    ensures
        0 <= j <= s.len(),
        trim_end(s) == s.take(j),
        forall|k: int| j <= k < s.len() ==> is_white(#[trigger] s[k]),
        j > 0 ==> !is_white(s[j - 1]),
    decreases s.len(),
{
    if s.len() > 0 && is_white(s.last()) {
        let r = lemma_trim_end_at(s.drop_last());
        assert(s.drop_last().take(r) =~= s.take(r));
        assert forall|k: int| r <= k < s.len() implies is_white(#[trigger] s[k]) by {
            if k < s.len() - 1 {
                assert(s[k] == s.drop_last()[k]);
            }
        }
        if r > 0 {
            assert(s[r - 1] == s.drop_last()[r - 1]);
        }
        r
    } else {
        assert(s.take(s.len() as int) =~= s);
        s.len() as int
    }
}

/// Trimming takes off exactly the white space at both ends: what is left is
/// a contiguous part of the text that neither starts nor ends with white
/// space, and everything before and after it is white space.
pub proof fn law_trim_takes_off_white_ends(s: Seq<char>)
    ensures
        exists|i: int, j: int|
            {
                &&& 0 <= i <= j <= s.len()
                &&& trim(s) == s.subrange(i, j)
                &&& forall|k: int| 0 <= k < i ==> is_white(#[trigger] s[k])
                &&& forall|k: int| j <= k < s.len() ==> is_white(#[trigger] s[k])
                &&& i < j ==> !is_white(s[i]) && !is_white(s[j - 1])
            },
{
    let i = lemma_trim_start_at(s);
    let rest = s.skip(i);
    let jr = lemma_trim_end_at(rest);
    let j = i + jr;
    assert(rest.take(jr) =~= s.subrange(i, j));
    assert forall|k: int| j <= k < s.len() implies is_white(#[trigger] s[k]) by {
        assert(s[k] == rest[k - i]);
    }
    if i < j {
        assert(s[j - 1] == rest[jr - 1]);
    }
    assert(trim(s) == s.subrange(i, j));
}

/// Putting the directory on `PATH` keeps the start-up file: the text
/// written is the former text, a line break, the export line and a line
/// break; an empty file gets the export line alone.
pub proof fn law_path_update_keeps_file(content: Seq<char>, dir: Seq<char>)
    ensures
        seq_starts_with(appended_rc_spec(content, dir), content),
        content.len() > 0 ==> appended_rc_spec(content, dir) == content + "\n"@ + "export PATH=\"$PATH:"@ + dir
            + "\""@ + "\n"@,
        content.len() == 0 ==> appended_rc_spec(content, dir) == "export PATH=\"$PATH:"@ + dir + "\""@ + "\n"@,
{
    let text = appended_rc_spec(content, dir);
    if content.len() > 0 {
        assert(text.take(content.len() as int) =~= content);
    } else {
        assert(text.take(0) =~= content);
    }
}

/// What the installed executable prints for its version, `binx v<version>`
/// and a line break, reads back as that version when the version does not
/// end in white space.
pub proof fn law_version_round_trip(version: Seq<char>)
    requires
        version.len() == 0 || !is_white(version.last()),
    ensures
        installed_version_spec(true, version_prefix() + version + seq!['\n']) == Some(version),
{
    reveal_strlit("binx v");
    let out = version_prefix() + version + seq!['\n'];
    let body = version_prefix() + version;
    assert(out.len() > 0 && is_white(out.last()));
    assert(out.drop_last() =~= body);
    assert(trim_end(out) == trim_end(body));
    assert(body.last() == 'v' || body.last() == version.last());
    assert(trim_end(body) == body);
    assert(!is_white(body[0]));
    assert(trim_start(out) == out);
    assert(trim(out) == body);
    assert(body.take(version_prefix().len() as int) =~= version_prefix());
    assert(body.skip(version_prefix().len() as int) =~= version);
}

/// A copy of the same version is never outdated, and of two numbered
/// versions at most one is older than the other: an installed copy newer
/// than the running one is not outdated.
pub proof fn law_version_order(a: Seq<char>, b: Seq<char>)
    ensures
        !version_older(a, a),
        parse_version_spec(a) is Some && parse_version_spec(b) is Some ==> !(version_older(a, b)
            && version_older(b, a)),
{
    if let Some(x) = parse_version_spec(a) {
        lemma_numbers_lt_irreflexive(x);
        if let Some(y) = parse_version_spec(b) {
            lemma_numbers_lt_asymmetric(x, y);
        }
    }
}

/// The number at position `i` of a version, 0 past its end.
pub open spec fn number_at(a: Seq<int>, i: int) -> int {
    if 0 <= i < a.len() {
        a[i]
    } else {
        0
    }
}

proof fn lemma_number_at_tail(a: Seq<int>, i: int)
    requires
        0 <= i,
    ensures
        number_at(tail_of(a), i) == number_at(a, i + 1),
{
}

/// Versions compare from their first number: at the first position where
/// they differ (missing numbers counting as 0), the one with the smaller
/// number is the older, whatever follows.
pub proof fn law_first_difference_decides(a: Seq<int>, b: Seq<int>, k: int)
    requires
        0 <= k,
        forall|i: int| 0 <= i < k ==> number_at(a, i) == number_at(b, i),
        number_at(a, k) < number_at(b, k),
    ensures
        numbers_lt(a, b),
        !numbers_lt(b, a),
    decreases k,
{
    assert(!(a.len() == 0 && b.len() == 0));
    if k > 0 {
        assert(number_at(a, 0) == number_at(b, 0));
        assert forall|i: int| 0 <= i < k - 1 implies number_at(tail_of(a), i) == number_at(tail_of(b), i) by {
            lemma_number_at_tail(a, i);
            lemma_number_at_tail(b, i);
        }
        lemma_number_at_tail(a, k - 1);
        lemma_number_at_tail(b, k - 1);
        law_first_difference_decides(tail_of(a), tail_of(b), k - 1);
    }
}

/// Versions whose numbers agree at every position (missing numbers counting
/// as 0) are the same version: neither is older.
pub proof fn law_equal_numbers_not_older(a: Seq<int>, b: Seq<int>)
    requires
        forall|i: int| 0 <= i ==> number_at(a, i) == number_at(b, i),
    ensures
        !numbers_lt(a, b),
    decreases a.len() + b.len(),
{
    if !(a.len() == 0 && b.len() == 0) {
        assert(number_at(a, 0) == number_at(b, 0));
        assert forall|i: int| 0 <= i implies number_at(tail_of(a), i) == number_at(tail_of(b), i) by {
            lemma_number_at_tail(a, i);
            lemma_number_at_tail(b, i);
        }
        law_equal_numbers_not_older(tail_of(a), tail_of(b));
    }
}

/// Split of a piece without separators is that piece alone.
proof fn lemma_split_plain(x: Seq<char>, sep: char)
    requires
        forall|i: int| 0 <= i < x.len() ==> x[i] != sep,
    ensures
        split_on(x, sep) == seq![x],
    decreases x.len(),
{
    if x.len() > 0 {
        lemma_split_plain(x.drop_last(), sep);
        assert(x.drop_last().push(x.last()) =~= x);
        assert(seq![x.drop_last()].update(0, x.drop_last().push(x.last())) =~= seq![x]);
    } else {
        assert(x =~= Seq::<char>::empty());
    }
}

proof fn lemma_split_len(s: Seq<char>, sep: char)
    ensures
        split_on(s, sep).len() >= 1,
    decreases s.len(),
{
    if s.len() > 0 {
        lemma_split_len(s.drop_last(), sep);
    }
}

/// Splitting at a separator after a piece without separators gives that
/// piece, then the pieces of the rest.
proof fn lemma_split_front(x: Seq<char>, y: Seq<char>, sep: char)
    requires
        forall|i: int| 0 <= i < x.len() ==> x[i] != sep,
    ensures
        split_on(x + seq![sep] + y, sep) == seq![x] + split_on(y, sep),
    decreases y.len(),
{
    let w = x + seq![sep] + y;
    if y.len() == 0 {
        assert(w.drop_last() =~= x);
        lemma_split_plain(x, sep);
        assert(split_on(y, sep) =~= seq![Seq::<char>::empty()]);
        assert(seq![x].push(Seq::<char>::empty()) =~= seq![x] + seq![Seq::<char>::empty()]);
    } else {
        assert(w.drop_last() =~= x + seq![sep] + y.drop_last());
        assert(w.last() == y.last());
        lemma_split_front(x, y.drop_last(), sep);
        lemma_split_len(y.drop_last(), sep);
        let p = split_on(y.drop_last(), sep);
        if y.last() == sep {
            assert((seq![x] + p).push(Seq::<char>::empty()) =~= seq![x] + p.push(Seq::<char>::empty()));
        } else {
            let q = seq![x] + p;
            assert(q.update(q.len() - 1, q.last().push(y.last())) =~= seq![x] + p.update(
                p.len() - 1,
                p.last().push(y.last()),
            ));
        }
    }
}

/// A version that is a single number reads as that number.
pub proof fn law_parse_single_number(x: Seq<char>)
    requires
        valid_component(x),
    ensures
        parse_version_spec(x) == Some(seq![digits_value(x)]),
{
    assert forall|i: int| 0 <= i < x.len() implies x[i] != '.' by {
        assert(is_digit(x[i]));
    }
    lemma_split_plain(x, '.');
    assert(seq![x].map_values(|p: Seq<char>| digits_value(p)) =~= seq![digits_value(x)]);
}

/// A version `x.rest`, with `x` a number, reads as that number followed by
/// the numbers of `rest`; it does not read when `rest` does not.
pub proof fn law_parse_leading_number(x: Seq<char>, rest: Seq<char>)
    requires
        valid_component(x),
    ensures
        parse_version_spec(x + seq!['.'] + rest) == match parse_version_spec(rest) {
            Some(b) => Some(seq![digits_value(x)] + b),
            None => None,
        },
{
    assert forall|i: int| 0 <= i < x.len() implies x[i] != '.' by {
        assert(is_digit(x[i]));
    }
    lemma_split_front(x, rest, '.');
    let ps = split_on(x + seq!['.'] + rest, '.');
    let pr = split_on(rest, '.');
    assert(ps =~= seq![x] + pr);
    if forall|i: int| 0 <= i < pr.len() ==> valid_component(#[trigger] pr[i]) {
        assert forall|i: int| 0 <= i < ps.len() implies valid_component(#[trigger] ps[i]) by {
            if i > 0 {
                assert(ps[i] == pr[i - 1]);
            }
        }
        assert(ps.map_values(|p: Seq<char>| digits_value(p)) =~= seq![digits_value(x)] + pr.map_values(
            |p: Seq<char>| digits_value(p),
        ));
    } else {
        let j = choose|j: int| 0 <= j < pr.len() && !valid_component(#[trigger] pr[j]);
        assert(ps[j + 1] == pr[j]);
    }
}

/// The number a component writes: a digit is its value, and a further digit
/// shifts the number one decimal place up.
pub proof fn law_digits_value(x: Seq<char>, c: char)
    requires
        is_digit(c),
    ensures
        digits_value(seq![c]) == (c as int) - ('0' as int),
        digits_value(x.push(c)) == 10 * digits_value(x) + ((c as int) - ('0' as int)),
        0 <= digits_value(seq![c]) <= 9,
{
    assert(seq![c].drop_last() =~= Seq::<char>::empty());
    assert(digits_value(Seq::<char>::empty()) == 0);
    assert(digits_value(seq![c]) == digits_value(seq![c].drop_last()) * 10 + ((c as int) - ('0' as int)));
    assert(x.push(c).drop_last() =~= x);
}

/// An installed copy whose version numbers first differ from the running
/// version's by a smaller number is outdated, and the running version is
/// not outdated against it.
pub proof fn law_older_version_is_outdated(installed: Seq<char>, current: Seq<char>, k: int)
    requires
        parse_version_spec(installed) is Some,
        parse_version_spec(current) is Some,
        0 <= k,
        forall|i: int|
            0 <= i < k ==> number_at(parse_version_spec(installed)->0, i) == number_at(
                parse_version_spec(current)->0,
                i,
            ),
        number_at(parse_version_spec(installed)->0, k) < number_at(parse_version_spec(current)->0, k),
    ensures
        version_older(installed, current),
        !version_older(current, installed),
{
    law_first_difference_decides(parse_version_spec(installed)->0, parse_version_spec(current)->0, k);
}

/// The name typed at the prompt, once trimmed, is kept character by
/// character, each space becoming `_`, so the name holds no space; an empty
/// reply keeps the suggested name.
pub proof fn law_typed_alias_name(input: Seq<char>, suggested: Seq<char>)
    ensures
        trim(input).len() == 0 ==> chosen_alias_spec(input, suggested) == suggested,
        trim(input).len() > 0 ==> {
            &&& chosen_alias_spec(input, suggested).len() == trim(input).len()
            &&& forall|i: int|
                0 <= i < trim(input).len() ==> #[trigger] chosen_alias_spec(input, suggested)[i] == if trim(
                    input,
                )[i] == ' ' {
                    '_'
                } else {
                    trim(input)[i]
                }
            &&& forall|i: int|
                0 <= i < trim(input).len() ==> #[trigger] chosen_alias_spec(input, suggested)[i] != ' '
        },
{
}

/// Installing a desktop entry records it for the alias, with or without an
/// icon; an installed icon's name is recorded too, and the executable, the
/// script and (without a new icon) the icon stay as they were.
pub proof fn law_desktop_entry_is_recorded(a: AliasView, desktop: Seq<char>, icon: Option<Seq<char>>)
    ensures
        desktop_recorded(a, desktop, icon).desktop == Some(desktop),
        desktop_recorded(a, desktop, icon).path == a.path,
        desktop_recorded(a, desktop, icon).script == a.script,
        icon matches Some(i) ==> desktop_recorded(a, desktop, icon).icon == Some(i),
        icon is None ==> desktop_recorded(a, desktop, icon).icon == a.icon,
{
}

/// An icon installed for an alias as an `svg` or a `png` is recorded for the
/// alias when its desktop entry is installed, and is then among the files
/// that removing the alias takes away.
pub proof fn law_installed_icon_is_removed(
    home_dir: Seq<char>,
    target: Seq<char>,
    icon_path: Seq<char>,
    alias: AliasView,
    desktop: Seq<char>,
)
    requires
        icon_extension_spec(icon_path) == "svg"@ || icon_extension_spec(icon_path) == "png"@,
    ensures
        desktop_recorded(alias, desktop, Some(target)).icon == Some(target),
        icon_files_spec(home_dir, target).contains(
            join_path(
                icon_dir_spec(home_dir, icon_extension_spec(icon_path)),
                target + "."@ + icon_extension_spec(icon_path),
            ),
        ),
{
    reveal_strlit("svg");
    reveal_strlit("png");
    reveal_strlit(".");
    reveal_strlit(".svg");
    reveal_strlit(".png");
    let ext = icon_extension_spec(icon_path);
    let files = icon_files_spec(home_dir, target);
    if ext == "svg"@ {
        assert(target + "."@ + ext =~= target + ".svg"@);
        assert(files[0] == join_path(icon_dir_spec(home_dir, ext), target + "."@ + ext));
    } else {
        assert(ext != "svg"@) by {
            assert(ext[0] == 'p');
        }
        assert(target + "."@ + ext =~= target + ".png"@);
        assert(files[3] == join_path(icon_dir_spec(home_dir, ext), target + "."@ + ext));
    }
}

/// The icon looked for lies beside the target and is named after it: each
/// candidate has the target's directory as its parent and the target's file
/// stem as its stem, the first with the extension `svg`, the second `png`.
pub proof fn law_icon_lies_beside_target(target: Seq<char>)
    ensures
        icon_candidates_spec(target) matches Some((svg, png)) ==> {
            &&& parent_spec(svg) == parent_spec(target)
            &&& parent_spec(png) == parent_spec(target)
            &&& file_stem_spec(svg) == file_stem_spec(target)
            &&& file_stem_spec(png) == file_stem_spec(target)
            &&& extension_spec(svg) == Some("svg"@)
            &&& extension_spec(png) == Some("png"@)
        },
        icon_candidates_spec(target) is None <==> (file_stem_spec(target) is None || parent_spec(target) is None),
{
    lemma_icon_candidate_extensions(target);
}

/// An icon found beside the target (its `.svg` or its `.png`) and installed
/// with the alias's desktop entry is recorded for the alias and among the
/// files that removing the alias takes away.
pub proof fn law_found_icon_is_removed(
    home_dir: Seq<char>,
    target: Seq<char>,
    icon_path: Seq<char>,
    alias_name: Seq<char>,
    alias: AliasView,
    desktop: Seq<char>,
)
    requires
        icon_candidates_spec(target) matches Some((svg, png)) && (icon_path == svg || icon_path == png),
    ensures
        desktop_recorded(alias, desktop, Some(alias_name)).icon == Some(alias_name),
        icon_files_spec(home_dir, alias_name).contains(
            join_path(
                icon_dir_spec(home_dir, icon_extension_spec(icon_path)),
                alias_name + "."@ + icon_extension_spec(icon_path),
            ),
        ),
{
    lemma_icon_candidate_extensions(target);
    law_installed_icon_is_removed(home_dir, alias_name, icon_path, alias, desktop);
}

} // verus!
