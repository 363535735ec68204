//! Unix paths held as strings: joining, comparing and taking apart, as
//! `std::path` does it for paths without a Windows prefix.

use vstd::prelude::*;
use vstd::string::*;
use crate::text::{chars_of, owned, split_on, split_str};

verus! {

/// `base.join(rel)`: a relative `rel` is appended after one separator (none is
/// added when `base` is empty or already ends in one); an absolute `rel`
/// replaces `base`.
pub open spec fn join_path(base: Seq<char>, rel: Seq<char>) -> Seq<char> {
    if rel.len() > 0 && rel[0] == '/' {
        rel
    } else if base.len() == 0 || base.last() == '/' {
        base + rel
    } else {
        base + "/"@ + rel
    }
}

/// `Path::new(base).join(rel)`, as a string.
pub fn join(base: &str, rel: &str) -> (r: String)
    ensures
        r@ == join_path(base@, rel@),
{
    proof {
        reveal_strlit("/");
    }
    let rl = rel.unicode_len();
    if rl > 0 && rel.get_char(0) == '/' {
        return owned(rel);
    }
    let bl = base.unicode_len();
    let mut r = owned(base);
    if !(bl == 0 || base.get_char(bl - 1) == '/') {
        r.append("/");
    }
    r.append(rel);
    r
}

/// Whether the path starts at the root.
pub open spec fn has_root(s: Seq<char>) -> bool {
    s.len() > 0 && s[0] == '/'
}

/// Whether the path starts with a `.` component that `Path::components`
/// keeps (`.` alone, or `.` followed by a separator, in a relative path).
pub open spec fn has_cur_dir(s: Seq<char>) -> bool {
    !has_root(s) && s.len() > 0 && s[0] == '.' && (s.len() == 1 || s[1] == '/')
}

/// A piece between separators that names no component: empty or `.`.
pub open spec fn is_trivial(piece: Seq<char>) -> bool {
    piece.len() == 0 || piece == seq!['.']
}

/// The pieces that name components, in order.
pub open spec fn keep_named(pieces: Seq<Seq<char>>) -> Seq<Seq<char>>
    decreases pieces.len(),
{
    if pieces.len() == 0 {
        pieces
    } else if is_trivial(pieces.last()) {
        keep_named(pieces.drop_last())
    } else {
        keep_named(pieces.drop_last()).push(pieces.last())
    }
}

/// The components of a path as `Path::components` yields them, each written
/// as text: the root as `/`, a leading current directory as `.`, then the
/// named pieces; repeated separators, inner `.` and a trailing separator are
/// normalised away.
pub open spec fn components(s: Seq<char>) -> Seq<Seq<char>> {
    let head: Seq<Seq<char>> = if has_root(s) {
        seq![seq!['/']]
    } else if has_cur_dir(s) {
        seq![seq!['.']]
    } else {
        Seq::empty()
    };
    head + keep_named(split_on(s, '/'))
}

/// Whether two paths are equal as `Path`s, which compare by components.
pub open spec fn same_path_spec(a: Seq<char>, b: Seq<char>) -> bool {
    components(a) == components(b)
}

/// The components of `s`.
pub fn path_components(s: &str) -> (cs: Vec<String>)
    ensures
        cs.deep_view() == components(s@),
{
    let n = s.unicode_len();
    let mut cs: Vec<String> = Vec::new();
    if n > 0 && s.get_char(0) == '/' {
        cs.push(owned(s.substring_char(0, 1)));
    } else if n > 0 && s.get_char(0) == '.' && (n == 1 || s.get_char(1) == '/') {
        cs.push(owned(s.substring_char(0, 1)));
    }
    let ghost head = cs.deep_view();
    assert(head =~= components(s@).take(head.len() as int)) by {
        if has_root(s@) {
            assert(s@.subrange(0, 1) =~= seq!['/']);
        } else if has_cur_dir(s@) {
            assert(s@.subrange(0, 1) =~= seq!['.']);
        }
    }
    let pieces = split_str(s, '/');
    let mut i: usize = 0;
    while i < pieces.len()
        invariant
            pieces.deep_view() == split_on(s@, '/'),
            i <= pieces.len(),
            head == components(s@).take(head.len() as int),
            components(s@) == head + keep_named(split_on(s@, '/')),
            cs.deep_view() == head + keep_named(pieces.deep_view().take(i as int)),
        decreases pieces.len() - i,
    {
        let ghost before = cs.deep_view();
        let p = &pieces[i];
        let pl = p.as_str().unicode_len();
        assert(pieces.deep_view()[i as int] == p@);
        assert(pieces.deep_view().take(i + 1).drop_last() =~= pieces.deep_view().take(i as int));
        let trivial = pl == 0 || (pl == 1 && p.as_str().get_char(0) == '.');
        assert(trivial == is_trivial(p@)) by {
            if pl == 1 && p@[0] == '.' {
                assert(p@ =~= seq!['.']);
            }
        }
        if !trivial {
            cs.push(p.clone());
            assert(cs.deep_view() =~= before.push(p@));
        }
        i += 1;
    }
    assert(pieces.deep_view().take(pieces.len() as int) =~= pieces.deep_view());
    cs
}

/// Whether two sequences of strings hold the same strings in the same order.
pub fn same_strings(a: &Vec<String>, b: &Vec<String>) -> (r: bool)
    ensures
        r == (a.deep_view() == b.deep_view()),
{
    if a.len() != b.len() {
        assert(a.deep_view().len() != b.deep_view().len());
        return false;
    }
    let mut i: usize = 0;
    while i < a.len()
        invariant
            a.len() == b.len(),
            i <= a.len(),
            forall|j: int| 0 <= j < i ==> a.deep_view()[j] == b.deep_view()[j],
        decreases a.len() - i,
    {
        if !(a[i] == b[i]) {
            assert(a.deep_view()[i as int] != b.deep_view()[i as int]);
            return false;
        }
        i += 1;
    }
    assert(a.deep_view() =~= b.deep_view());
    true
}

/// Whether `a` and `b` name the same path, as `==` on `Path` decides it.
pub fn same_path(a: &str, b: &str) -> (r: bool)
    ensures
        r == same_path_spec(a@, b@),
{
    let ca = path_components(a);
    let cb = path_components(b);
    same_strings(&ca, &cb)
}

/// Length of the part before the body: the root, or a leading `.`.
pub open spec fn prefix_len(s: Seq<char>) -> int {
    if has_root(s) || has_cur_dir(s) {
        1
    } else {
        0
    }
}

/// Where the last piece of `b` starts: just after its last separator.
pub open spec fn seg_start(b: Seq<char>) -> int
    decreases b.len(),
{
    if b.len() == 0 {
        0
    } else if b.last() == '/' {
        b.len() as int
    } else {
        seg_start(b.drop_last())
    }
}

pub proof fn lemma_seg_start_bounds(b: Seq<char>)
    ensures
        0 <= seg_start(b) <= b.len(),
        seg_start(b) > 0 ==> b[seg_start(b) - 1] == '/',
        forall|i: int| seg_start(b) <= i < b.len() ==> b[i] != '/',
    decreases b.len(),
{
    if b.len() > 0 && b.last() != '/' {
        lemma_seg_start_bounds(b.drop_last());
        assert forall|i: int| seg_start(b) <= i < b.len() implies b[i] != '/' by {
            if i < b.len() - 1 {
                assert(b[i] == b.drop_last()[i]);
            }
        }
    }
}

/// The text after the last separator of `b`.
pub open spec fn last_seg(b: Seq<char>) -> Seq<char> {
    b.subrange(seg_start(b), b.len() as int)
}

/// `b` without its last piece and the separator before it.
pub open spec fn drop_seg(b: Seq<char>) -> Seq<char> {
    if seg_start(b) == 0 {
        b.take(0)
    } else {
        b.take(seg_start(b) - 1)
    }
}

/// `b` without trailing pieces that name no component.
pub open spec fn strip_tail(b: Seq<char>) -> Seq<char>
    decreases b.len(),
{
    if b.len() > 0 && is_trivial(last_seg(b)) {
        proof {
            lemma_seg_start_bounds(b);
        }
        strip_tail(drop_seg(b))
    } else {
        b
    }
}

/// The body of `s`: what follows the root or the leading `.`, stripped of
/// trailing pieces that name no component.
pub open spec fn named_body(s: Seq<char>) -> Seq<char> {
    strip_tail(s.skip(prefix_len(s)))
}

/// `Path::file_name`: the last component when it is a name (not the root,
/// `.` or `..`).
pub open spec fn file_name_spec(s: Seq<char>) -> Option<Seq<char>> {
    let t = named_body(s);
    if t.len() == 0 || last_seg(t) == seq!['.', '.'] {
        None
    } else {
        Some(last_seg(t))
    }
}

/// `Path::parent`: the path without its last component, with the separators
/// and `.` pieces before it dropped; none for the root and the empty path.
pub open spec fn parent_spec(s: Seq<char>) -> Option<Seq<char>> {
    let t = named_body(s);
    if t.len() == 0 {
        if has_cur_dir(s) {
            Some(Seq::<char>::empty())
        } else {
            None
        }
    } else {
        Some(s.take(prefix_len(s) + strip_tail(drop_seg(t)).len()))
    }
}

/// Index of the last `c` in `n`, or -1.
pub open spec fn last_index_of(n: Seq<char>, c: char) -> int
    decreases n.len(),
{
    if n.len() == 0 {
        -1
    } else if n.last() == c {
        n.len() - 1
    } else {
        last_index_of(n.drop_last(), c)
    }
}

pub proof fn lemma_last_index_of(n: Seq<char>, c: char)
    ensures
        -1 <= last_index_of(n, c) < n.len(),
        last_index_of(n, c) >= 0 ==> n[last_index_of(n, c)] == c,
        forall|i: int| last_index_of(n, c) < i < n.len() ==> n[i] != c,
    decreases n.len(),
{
    if n.len() > 0 && n.last() != c {
        lemma_last_index_of(n.drop_last(), c);
        assert forall|i: int| last_index_of(n, c) < i < n.len() implies n[i] != c by {
            if i < n.len() - 1 {
                assert(n[i] == n.drop_last()[i]);
            }
        }
    }
}

/// The stem of a file name: before its last `.`, unless there is none or the
/// only one starts the name.
pub open spec fn stem_of_name(n: Seq<char>) -> Seq<char> {
    let d = last_index_of(n, '.');
    if d <= 0 {
        n
    } else {
        n.take(d)
    }
}

/// The extension of a file name: after its last `.`, when that dot does not
/// start the name.
pub open spec fn extension_of_name(n: Seq<char>) -> Option<Seq<char>> {
    let d = last_index_of(n, '.');
    if d <= 0 {
        None
    } else {
        Some(n.skip(d + 1))
    }
}

/// `Path::file_stem`.
pub open spec fn file_stem_spec(s: Seq<char>) -> Option<Seq<char>> {
    match file_name_spec(s) {
        Some(n) => Some(stem_of_name(n)),
        None => None,
    }
}

/// `Path::extension`.
pub open spec fn extension_spec(s: Seq<char>) -> Option<Seq<char>> {
    match file_name_spec(s) {
        Some(n) => extension_of_name(n),
        None => None,
    }
}

/// What `strip_tail` leaves is empty or ends in a piece that names a
/// component.
pub proof fn lemma_strip_tail_named(b: Seq<char>)
    ensures
        strip_tail(b).len() == 0 || !is_trivial(last_seg(strip_tail(b))),
    decreases b.len(),
{
    if b.len() > 0 && is_trivial(last_seg(b)) {
        lemma_seg_start_bounds(b);
        lemma_strip_tail_named(drop_seg(b));
    }
}

/// A file name is not empty and holds no separator.
pub proof fn lemma_file_name_shape(s: Seq<char>)
    ensures
        file_name_spec(s) matches Some(n) ==> n.len() > 0 && forall|i: int| 0 <= i < n.len() ==> n[i] != '/',
{
    let t = named_body(s);
    lemma_strip_tail_named(s.skip(prefix_len(s)));
    lemma_seg_start_bounds(t);
    if let Some(n) = file_name_spec(s) {
        assert forall|i: int| 0 <= i < n.len() implies n[i] != '/' by {
            assert(n[i] == t[seg_start(t) + i]);
        }
    }
}

/// A file stem is not empty and holds no separator.
pub proof fn lemma_file_stem_shape(s: Seq<char>)
    ensures
        file_stem_spec(s) matches Some(n) ==> n.len() > 0 && forall|i: int| 0 <= i < n.len() ==> n[i] != '/',
{
    lemma_file_name_shape(s);
    if let Some(name) = file_name_spec(s) {
        lemma_last_index_of(name, '.');
        let st = stem_of_name(name);
        assert forall|i: int| 0 <= i < st.len() implies st[i] != '/' by {
            assert(st[i] == name[i]);
        }
    }
}

/// After a separator (or at the start), a piece without separators is the
/// last piece.
proof fn lemma_seg_start_append(b: Seq<char>, n: Seq<char>)
    requires
        b.len() == 0 || b.last() == '/',
        forall|i: int| 0 <= i < n.len() ==> n[i] != '/',
    ensures
        seg_start(b + n) == b.len(),
    decreases n.len(),
{
    if n.len() > 0 {
        assert((b + n).drop_last() =~= b + n.drop_last());
        assert((b + n).last() == n.last());
        lemma_seg_start_append(b, n.drop_last());
    } else {
        assert(b + n =~= b);
    }
}

/// Joining a name (a piece without separators that names a component) to a
/// directory gives a path whose file name is that name.
pub proof fn lemma_file_name_of_join(dir: Seq<char>, n: Seq<char>)
    requires
        n.len() > 1,
        forall|i: int| 0 <= i < n.len() ==> n[i] != '/',
        n != seq!['.', '.'],
    ensures
        file_name_spec(join_path(dir, n)) == Some(n),
{
    let s = join_path(dir, n);
    let x: Seq<char> = if dir.len() == 0 || dir.last() == '/' { dir } else { dir + seq!['/'] };
    assert(s =~= x + n) by {
        reveal_strlit("/");
        assert(n[0] != '/');
    }
    let p = prefix_len(s);
    assert(n[1] != '/');
    if x.len() == 0 {
        assert(s =~= n);
        assert(p == 0);
    }
    assert(p <= x.len());
    let body = s.skip(p);
    let xb = x.skip(p);
    assert(body =~= xb + n);
    assert(xb.len() == 0 || xb.last() == '/');
    lemma_seg_start_append(xb, n);
    assert(last_seg(body) =~= n);
    assert(!is_trivial(n)) by {
        if n == seq!['.'] {
            assert(n.len() == 1);
        }
    }
    assert(strip_tail(body) == body);
}

/// What `strip_tail` leaves is a prefix of what it was given.
proof fn lemma_strip_tail_prefix(b: Seq<char>)
    ensures
        strip_tail(b).len() <= b.len(),
        strip_tail(b) == b.take(strip_tail(b).len() as int),
    decreases b.len(),
{
    if b.len() > 0 && is_trivial(last_seg(b)) {
        lemma_seg_start_bounds(b);
        let d = drop_seg(b);
        lemma_strip_tail_prefix(d);
        assert(strip_tail(d) =~= b.take(strip_tail(d).len() as int));
    } else {
        assert(b.take(b.len() as int) =~= b);
    }
}

/// Stripping a second time changes nothing.
proof fn lemma_strip_tail_idempotent(b: Seq<char>)
    ensures
        strip_tail(strip_tail(b)) == strip_tail(b),
{
    lemma_strip_tail_named(b);
}

/// A path whose parent is the empty path, joined with a name, has the empty
/// path as its parent again.
proof fn lemma_parent_of_name(n: Seq<char>)
    requires
        n.len() > 1,
        forall|i: int| 0 <= i < n.len() ==> n[i] != '/',
        n != seq!['.', '.'],
    ensures
        parent_spec(n) == Some(Seq::<char>::empty()),
{
    assert(n[0] != '/');
    assert(n[1] != '/');
    assert(prefix_len(n) == 0);
    assert(n.skip(0) =~= n);
    lemma_seg_start_append(Seq::<char>::empty(), n);
    assert(Seq::<char>::empty() + n =~= n);
    assert(last_seg(n) =~= n);
    assert(!is_trivial(n)) by {
        if n == seq!['.'] {
            assert(n.len() == 1);
        }
    }
    assert(strip_tail(n) == n);
    assert(drop_seg(n) =~= Seq::<char>::empty());
    assert(n.take(0) =~= Seq::<char>::empty());
}

/// A name joined to the parent of a path has that same parent: the icon
/// beside a file lies in the file's directory.
pub proof fn lemma_parent_of_join(t: Seq<char>, n: Seq<char>)
    requires
        parent_spec(t) is Some,
        n.len() > 1,
        forall|i: int| 0 <= i < n.len() ==> n[i] != '/',
        n != seq!['.', '.'],
    ensures
        parent_spec(join_path(parent_spec(t)->0, n)) == parent_spec(t),
{
    let dir = parent_spec(t)->0;
    let p = prefix_len(t);
    let tb = t.skip(p);
    let big_t = strip_tail(tb);
    assert(n[0] != '/');
    if big_t.len() == 0 {
        assert(dir.len() == 0);
        assert(join_path(dir, n) =~= n);
        lemma_parent_of_name(n);
    } else {
        lemma_strip_tail_prefix(tb);
        lemma_seg_start_bounds(big_t);
        let ds = drop_seg(big_t);
        let r = strip_tail(ds);
        lemma_strip_tail_prefix(ds);
        lemma_strip_tail_named(ds);
        lemma_strip_tail_idempotent(ds);
        assert(ds == big_t.take(ds.len() as int));
        assert(r =~= tb.take(r.len() as int));
        assert(dir == t.take(p + r.len()));
        assert(dir =~= t.take(p) + r);
        if r.len() > 0 {
            lemma_seg_start_bounds(r);
            assert(r.last() == last_seg(r)[last_seg(r).len() - 1]);
            assert(r.last() != '/');
        }
        if dir.len() == 0 {
            assert(join_path(dir, n) =~= n);
            lemma_parent_of_name(n);
        } else {
            let x: Seq<char> = if dir.last() == '/' { dir } else { dir + seq!['/'] };
            let s2 = join_path(dir, n);
            assert(s2 =~= x + n) by {
                reveal_strlit("/");
            }
            assert(s2[0] == dir[0]);
            if dir.len() >= 2 {
                assert(s2[1] == dir[1]);
                assert(dir[1] == t[1]);
            }
            assert(dir[0] == t[0]);
            if r.len() == 0 {
                assert(p == 1);
            }
            if p == 0 && dir.len() == 1 {
                assert(r =~= seq![dir[0]]);
                assert(last_seg(r) =~= r) by {
                    lemma_seg_start_bounds(r);
                }
            }
            assert(prefix_len(s2) == p);
            let y = x.skip(p);
            assert(s2.skip(p) =~= y + n);
            assert(y.len() == 0 || y.last() == '/');
            if r.len() > 0 {
                assert(y =~= r + seq!['/']);
            } else {
                assert(y.len() <= 1);
            }
            lemma_seg_start_append(y, n);
            assert(last_seg(y + n) =~= n);
            assert(!is_trivial(n)) by {
                if n == seq!['.'] {
                    assert(n.len() == 1);
                }
            }
            assert(strip_tail(y + n) == y + n);
            assert(drop_seg(y + n) =~= r);
            assert(s2.take(p + r.len()) =~= dir);
        }
    }
}

/// Characters other than `c` at the end do not move the last `c`.
proof fn lemma_last_index_of_append(a: Seq<char>, b: Seq<char>, c: char)
    requires
        forall|i: int| 0 <= i < b.len() ==> b[i] != c,
    ensures
        last_index_of(a + b, c) == last_index_of(a, c),
    decreases b.len(),
{
    if b.len() > 0 {
        assert((a + b).drop_last() =~= a + b.drop_last());
        assert((a + b).last() == b.last());
        lemma_last_index_of_append(a, b.drop_last(), c);
    } else {
        assert(a + b =~= a);
    }
}

/// Joining `stem.ext` to a directory, for a non-empty stem without
/// separators and a non-empty extension without dots or separators, gives a
/// path whose extension is `ext`.
pub proof fn lemma_extension_of_join(dir: Seq<char>, stem: Seq<char>, ext: Seq<char>)
    requires
        stem.len() > 0,
        ext.len() > 0,
        forall|i: int| 0 <= i < stem.len() ==> stem[i] != '/',
        forall|i: int| 0 <= i < ext.len() ==> ext[i] != '/' && ext[i] != '.',
    ensures
        extension_spec(join_path(dir, stem + seq!['.'] + ext)) == Some(ext),
        file_stem_spec(join_path(dir, stem + seq!['.'] + ext)) == Some(stem),
{
    let n = stem + seq!['.'] + ext;
    assert(forall|i: int| 0 <= i < n.len() ==> n[i] != '/') by {
        assert forall|i: int| 0 <= i < n.len() implies n[i] != '/' by {
            if i < stem.len() {
                assert(n[i] == stem[i]);
            } else if i > stem.len() {
                assert(n[i] == ext[i - stem.len() - 1]);
            }
        }
    }
    assert(n.len() >= 3);
    assert(n != seq!['.', '.']) by {
        if n == seq!['.', '.'] {
            assert(n.len() == 2);
        }
    }
    lemma_file_name_of_join(dir, n);
    let a = stem + seq!['.'];
    assert(n =~= a + ext);
    lemma_last_index_of_append(a, ext, '.');
    assert(a.drop_last() =~= stem);
    assert(last_index_of(a, '.') == stem.len());
    assert(n.skip(stem.len() + 1int) =~= ext);
    assert(n.take(stem.len() as int) =~= stem);
}

/// Where the last piece of `v[lo..hi]` starts, counted in `v`.
fn seg_start_in(v: &Vec<char>, lo: usize, hi: usize) -> (k: usize)
    requires
        lo <= hi <= v.len(),
    ensures
        lo <= k <= hi,
        k - lo == seg_start(v@.subrange(lo as int, hi as int)),
{
    let mut k = hi;
    while k > lo && v[k - 1] != '/'
        invariant
            lo <= k <= hi <= v.len(),
            seg_start(v@.subrange(lo as int, hi as int)) == seg_start(
                v@.subrange(lo as int, k as int),
            ),
        decreases k,
    {
        assert(v@.subrange(lo as int, k as int).drop_last() =~= v@.subrange(lo as int, k - 1));
        k -= 1;
    }
    k
}

/// The end of `strip_tail(v[lo..hi])`, counted in `v`.
fn strip_tail_in(v: &Vec<char>, lo: usize, hi: usize) -> (e: usize)
    requires
        lo <= hi <= v.len(),
    ensures
        lo <= e <= hi,
        v@.subrange(lo as int, e as int) == strip_tail(v@.subrange(lo as int, hi as int)),
{
    let mut e = hi;
    loop
        invariant
            lo <= e <= hi <= v.len(),
            strip_tail(v@.subrange(lo as int, hi as int)) == strip_tail(
                v@.subrange(lo as int, e as int),
            ),
        ensures
            lo <= e <= hi,
            v@.subrange(lo as int, e as int) == strip_tail(v@.subrange(lo as int, hi as int)),
        decreases e,
    {
        if e == lo {
            assert(v@.subrange(lo as int, e as int).len() == 0);
            return e;
        }
        let k = seg_start_in(v, lo, e);
        let ghost b = v@.subrange(lo as int, e as int);
        proof {
            lemma_seg_start_bounds(b);
        }
        assert(last_seg(b) =~= v@.subrange(k as int, e as int));
        let trivial = e == k || (e == k + 1 && v[k] == '.');
        assert(trivial == is_trivial(last_seg(b))) by {
            let ls = last_seg(b);
            assert(ls.len() == e - k);
            if e == k + 1 && v[k as int] == '.' {
                assert(ls =~= seq!['.']);
            }
            if ls == seq!['.'] {
                assert(ls[0] == v@[k as int]);
            }
        }
        if !trivial {
            return e;
        }
        if k == lo {
            assert(drop_seg(b) =~= v@.subrange(lo as int, lo as int));
            e = lo;
        } else {
            assert(drop_seg(b) =~= v@.subrange(lo as int, k - 1));
            e = k - 1;
        }
    }
}

/// `prefix_len(s)`, computed.
fn prefix_len_of(v: &Vec<char>) -> (p: usize)
    ensures
        p == prefix_len(v@),
{
    let n = v.len();
    if n > 0 && v[0] == '/' {
        1
    } else if n > 0 && v[0] == '.' && (n == 1 || v[1] == '/') {
        1
    } else {
        0
    }
}

/// `Path::new(s).file_name()`, as a string.
pub fn file_name(s: &str) -> (r: Option<String>)
    ensures
        r.deep_view() == file_name_spec(s@),
{
    let v = chars_of(s);
    let n = v.len();
    let p = prefix_len_of(&v);
    assert(s@.skip(p as int) =~= v@.subrange(p as int, n as int));
    let e = strip_tail_in(&v, p, n);
    let ghost t = v@.subrange(p as int, e as int);
    if e == p {
        return None;
    }
    let k = seg_start_in(&v, p, e);
    proof {
        lemma_seg_start_bounds(t);
    }
    assert(last_seg(t) =~= v@.subrange(k as int, e as int));
    if e - k == 2 && v[k] == '.' && v[k + 1] == '.' {
        assert(last_seg(t) =~= seq!['.', '.']);
        return None;
    }
    assert(last_seg(t) != seq!['.', '.']) by {
        if last_seg(t).len() == 2 {
            assert(last_seg(t)[0] == v@[k as int]);
            assert(last_seg(t)[1] == v@[k + 1]);
        }
    }
    Some(owned(s.substring_char(k, e)))
}

/// `Path::new(s).parent()`, as a string.
pub fn parent(s: &str) -> (r: Option<String>)
    ensures
        r.deep_view() == parent_spec(s@),
{
    let v = chars_of(s);
    let n = v.len();
    let p = prefix_len_of(&v);
    assert(s@.skip(p as int) =~= v@.subrange(p as int, n as int));
    let e = strip_tail_in(&v, p, n);
    let ghost t = v@.subrange(p as int, e as int);
    if e == p {
        if p == 1 && v[0] == '.' {
            return Some(String::new());
        }
        return None;
    }
    let k = seg_start_in(&v, p, e);
    proof {
        lemma_seg_start_bounds(t);
    }
    let d = if k == p { p } else { k - 1 };
    assert(drop_seg(t) =~= v@.subrange(p as int, d as int));
    let f = strip_tail_in(&v, p, d);
    Some(owned(s.substring_char(0, f)))
}

/// The last index of `c` in `v`, or none.
fn last_index_in(v: &Vec<char>, c: char) -> (r: Option<usize>)
    ensures
        match r {
            Some(i) => i as int == last_index_of(v@, c),
            None => last_index_of(v@, c) == -1,
        },
{
    let mut k = v.len();
    assert(v@.take(k as int) =~= v@);
    while k > 0 && v[k - 1] != c
        invariant
            k <= v.len(),
            last_index_of(v@, c) == last_index_of(v@.take(k as int), c),
        decreases k,
    {
        assert(v@.take(k as int).drop_last() =~= v@.take(k - 1));
        k -= 1;
    }
    if k == 0 {
        None
    } else {
        Some(k - 1)
    }
}

/// `Path::new(s).file_stem()`, as a string.
pub fn file_stem(s: &str) -> (r: Option<String>)
    ensures
        r.deep_view() == file_stem_spec(s@),
{
    match file_name(s) {
        None => None,
        Some(name) => {
            let v = chars_of(name.as_str());
            proof {
                lemma_last_index_of(v@, '.');
            }
            match last_index_in(&v, '.') {
                Some(d) if d > 0 => Some(owned(name.as_str().substring_char(0, d))),
                _ => Some(name),
            }
        },
    }
}

/// `Path::new(s).extension()`, as a string.
pub fn extension(s: &str) -> (r: Option<String>)
    ensures
        r.deep_view() == extension_spec(s@),
{
    match file_name(s) {
        None => None,
        Some(name) => {
            let v = chars_of(name.as_str());
            let len = v.len();
            proof {
                lemma_last_index_of(v@, '.');
            }
            match last_index_in(&v, '.') {
                Some(d) if d > 0 => Some(owned(name.as_str().substring_char(d + 1, len))),
                _ => None,
            }
        },
    }
}

} // verus!
