//! The alias configuration: a map from alias names to what each alias
//! records, kept in the order of the names as the configuration file
//! lists them.

use vstd::prelude::*;
use vstd::string::*;
use crate::text::{lex_lt, lex_less, lemma_lex_irreflexive, lemma_lex_transitive, lemma_lex_total, str_eq, owned};

verus! {

/// What one alias records: the executable it stands for and, once they were
/// installed, its launcher script, its desktop entry and its icon name.
pub struct ConfigAlias {
    pub path: String,
    pub script: Option<String>,
    pub desktop: Option<String>,
    pub icon: Option<String>,
}

/// The mathematical value of a [`ConfigAlias`].
pub struct AliasView {
    pub path: Seq<char>,
    pub script: Option<Seq<char>>,
    pub desktop: Option<Seq<char>>,
    pub icon: Option<Seq<char>>,
}

impl View for ConfigAlias {
    type V = AliasView;

    open spec fn view(&self) -> AliasView {
        AliasView {
            path: self.path@,
            script: self.script.deep_view(),
            desktop: self.desktop.deep_view(),
            icon: self.icon.deep_view(),
        }
    }
}

fn copy_opt(o: &Option<String>) -> (r: Option<String>)
    ensures
        r.deep_view() == o.deep_view(),
{
    match o {
        Some(s) => Some(s.clone()),
        None => None,
    }
}

impl ConfigAlias {
    /// A new alias for the executable at `path`, with nothing installed yet.
    pub fn new(path: String) -> (a: ConfigAlias)
        ensures
            a@ == (AliasView { path: path@, script: None, desktop: None, icon: None }),
    {
        ConfigAlias { path, script: None, desktop: None, icon: None }
    }

    /// An alias read from its recorded fields; a missing path is empty.
    pub fn from_fields(
        path: Option<String>,
        script: Option<String>,
        desktop: Option<String>,
        icon: Option<String>,
    ) -> (a: ConfigAlias)
        ensures
            a@.path == match path {
                Some(p) => p@,
                None => Seq::<char>::empty(),
            },
            a@.script == script.deep_view(),
            a@.desktop == desktop.deep_view(),
            a@.icon == icon.deep_view(),
    {
        let path = match path {
            Some(p) => p,
            None => String::new(),
        };
        ConfigAlias { path, script, desktop, icon }
    }

    /// An alias equal to this one.
    pub fn duplicate(&self) -> (a: ConfigAlias)
        ensures
            a@ == self@,
    {
        ConfigAlias {
            path: self.path.clone(),
            script: copy_opt(&self.script),
            desktop: copy_opt(&self.desktop),
            icon: copy_opt(&self.icon),
        }
    }
}

/// One alias of the configuration, under its name.
pub struct AliasEntry {
    pub name: String,
    pub alias: ConfigAlias,
}

/// The configuration: each alias name once, the names in ascending order.
pub struct Config {
    entries: Vec<AliasEntry>,
}

/// Whether the names are in strictly ascending order.
pub open spec fn strictly_sorted(names: Seq<Seq<char>>) -> bool {
    forall|i: int, j: int| 0 <= i < j < names.len() ==> lex_lt(#[trigger] names[i], #[trigger] names[j])
}

/// A map from names to aliases, read off a list of entries whose names differ.
pub open spec fn map_of(names: Seq<Seq<char>>, values: Seq<AliasView>) -> Map<Seq<char>, AliasView> {
    Map::new(
        |k: Seq<char>| names.contains(k),
        |k: Seq<char>| values[names.index_of(k)],
    )
}

/// The names of a list of entries.
pub open spec fn names_of(s: Seq<AliasEntry>) -> Seq<Seq<char>> {
    s.map_values(|e: AliasEntry| e.name@)
}

/// The aliases of a list of entries.
pub open spec fn values_of(s: Seq<AliasEntry>) -> Seq<AliasView> {
    s.map_values(|e: AliasEntry| e.alias@)
}

/// In a list without repeated names, a name's place is where it stands.
proof fn lemma_index_of_sorted(names: Seq<Seq<char>>, i: int)
    requires
        strictly_sorted(names),
        0 <= i < names.len(),
    ensures
        names.contains(names[i]),
        names.index_of(names[i]) == i,
{
    assert(names.contains(names[i]));
    let j = names.index_of(names[i]);
    if j != i {
        lemma_lex_irreflexive(names[i]);
        if j < i {
            assert(lex_lt(names[j], names[i]));
        } else {
            assert(lex_lt(names[i], names[j]));
        }
    }
}

/// An alias with its script recorded.
pub open spec fn with_script(a: AliasView, script: Seq<char>) -> AliasView {
    AliasView { path: a.path, script: Some(script), desktop: a.desktop, icon: a.icon }
}

/// An alias with its desktop entry recorded.
pub open spec fn with_desktop(a: AliasView, desktop: Seq<char>) -> AliasView {
    AliasView { path: a.path, script: a.script, desktop: Some(desktop), icon: a.icon }
}

/// An alias with its icon name recorded.
pub open spec fn with_icon(a: AliasView, icon: Seq<char>) -> AliasView {
    AliasView { path: a.path, script: a.script, desktop: a.desktop, icon: Some(icon) }
}

/// The names joined by `sep`.
pub open spec fn join_seqs(names: Seq<Seq<char>>, sep: Seq<char>) -> Seq<char>
    decreases names.len(),
{
    if names.len() == 0 {
        Seq::empty()
    } else if names.len() == 1 {
        names[0]
    } else {
        join_seqs(names.drop_last(), sep) + sep + names.last()
    }
}

impl Config {
    /// The alias names, in order.
    pub closed spec fn names(&self) -> Seq<Seq<char>> {
        names_of(self.entries@)
    }

    /// The aliases, in the order of their names.
    closed spec fn values(&self) -> Seq<AliasView> {
        values_of(self.entries@)
    }

    #[verifier::type_invariant]
    closed spec fn well_ordered(&self) -> bool {
        strictly_sorted(self.names())
    }
}

impl View for Config {
    type V = Map<Seq<char>, AliasView>;

    closed spec fn view(&self) -> Map<Seq<char>, AliasView> {
        map_of(self.names(), self.values())
    }
}

/// Putting a new name in its place keeps the names in order and adds the
/// alias to the map.
proof fn lemma_insert_at(s: Seq<AliasEntry>, p: int, e: AliasEntry)
    requires
        strictly_sorted(names_of(s)),
        0 <= p <= s.len(),
        forall|j: int| 0 <= j < p ==> lex_lt(#[trigger] names_of(s)[j], e.name@),
        forall|j: int| p <= j < s.len() ==> lex_lt(e.name@, #[trigger] names_of(s)[j]),
    ensures
        strictly_sorted(names_of(s.insert(p, e))),
        map_of(names_of(s.insert(p, e)), values_of(s.insert(p, e))) == map_of(
            names_of(s),
            values_of(s),
        ).insert(e.name@, e.alias@),
{
    let t = s.insert(p, e);
    let ns = names_of(s);
    let nt = names_of(t);
    assert(nt =~= ns.insert(p, e.name@));
    assert(values_of(t) =~= values_of(s).insert(p, e.alias@));
    assert forall|i: int, j: int| 0 <= i < j < nt.len() implies lex_lt(#[trigger] nt[i], #[trigger] nt[j]) by {
        if j < p {
        } else if j == p {
        } else if i < p {
            lemma_lex_transitive(ns[i], e.name@, ns[j - 1]);
        } else if i == p {
        } else {
        }
    }
    let old_map = map_of(ns, values_of(s));
    let new_map = map_of(nt, values_of(t));
    assert forall|x: Seq<char>| #[trigger] new_map.contains_key(x) <==> old_map.insert(e.name@, e.alias@).contains_key(x) by {
        if nt.contains(x) {
            let i = choose|i: int| 0 <= i < nt.len() && nt[i] == x;
            if i < p {
                assert(ns[i] == x);
            } else if i > p {
                assert(ns[i - 1] == x);
            }
        }
        if ns.contains(x) {
            let i = choose|i: int| 0 <= i < ns.len() && ns[i] == x;
            if i < p {
                assert(nt[i] == x);
            } else {
                assert(nt[i + 1] == x);
            }
        }
        if x == e.name@ {
            assert(nt[p] == x);
        }
    }
    assert forall|x: Seq<char>| #[trigger] new_map.contains_key(x) implies new_map[x] == old_map.insert(e.name@, e.alias@)[x] by {
        let i = choose|i: int| 0 <= i < nt.len() && nt[i] == x;
        lemma_index_of_sorted(nt, i);
        if i < p {
            lemma_index_of_sorted(ns, i);
            lemma_lex_irreflexive(x);
        } else if i > p {
            lemma_index_of_sorted(ns, i - 1);
            lemma_lex_irreflexive(x);
        }
    }
    assert(new_map =~= old_map.insert(e.name@, e.alias@));
}

/// Putting an entry where its name already stands changes that alias only.
proof fn lemma_replace_at(s: Seq<AliasEntry>, p: int, e: AliasEntry)
    requires
        strictly_sorted(names_of(s)),
        0 <= p < s.len(),
        names_of(s)[p] == e.name@,
    ensures
        names_of(s.update(p, e)) == names_of(s),
        map_of(names_of(s.update(p, e)), values_of(s.update(p, e))) == map_of(
            names_of(s),
            values_of(s),
        ).insert(e.name@, e.alias@),
{
    let t = s.update(p, e);
    let ns = names_of(s);
    assert(names_of(t) =~= ns);
    assert(values_of(t) =~= values_of(s).update(p, e.alias@));
    let old_map = map_of(ns, values_of(s));
    let new_map = map_of(ns, values_of(t));
    assert forall|x: Seq<char>| #[trigger] new_map.contains_key(x) implies new_map[x] == old_map.insert(e.name@, e.alias@)[x] by {
        let i = choose|i: int| 0 <= i < ns.len() && ns[i] == x;
        lemma_index_of_sorted(ns, i);
        lemma_index_of_sorted(ns, p);
    }
    assert(ns.contains(e.name@)) by {
        lemma_index_of_sorted(ns, p);
    }
    assert(new_map =~= old_map.insert(e.name@, e.alias@));
}

/// Taking an entry out keeps the names in order and drops its name from the
/// map.
proof fn lemma_remove_at(s: Seq<AliasEntry>, p: int)
    requires
        strictly_sorted(names_of(s)),
        0 <= p < s.len(),
    ensures
        strictly_sorted(names_of(s.remove(p))),
        map_of(names_of(s.remove(p)), values_of(s.remove(p))) == map_of(
            names_of(s),
            values_of(s),
        ).remove(names_of(s)[p]),
{
    let t = s.remove(p);
    let ns = names_of(s);
    let nt = names_of(t);
    let k = ns[p];
    assert(nt =~= ns.remove(p));
    assert(values_of(t) =~= values_of(s).remove(p));
    assert forall|i: int, j: int| 0 <= i < j < nt.len() implies lex_lt(#[trigger] nt[i], #[trigger] nt[j]) by {
        if j < p {
        } else if i < p {
            assert(nt[j] == ns[j + 1]);
        } else {
            assert(nt[i] == ns[i + 1]);
            assert(nt[j] == ns[j + 1]);
        }
    }
    let old_map = map_of(ns, values_of(s));
    let new_map = map_of(nt, values_of(t));
    lemma_index_of_sorted(ns, p);
    assert forall|x: Seq<char>| #[trigger] new_map.contains_key(x) <==> old_map.remove(k).contains_key(x) by {
        if nt.contains(x) {
            let i = choose|i: int| 0 <= i < nt.len() && nt[i] == x;
            let oi = if i < p { i } else { i + 1 };
            assert(ns[oi] == x);
            lemma_index_of_sorted(ns, oi);
        }
        if ns.contains(x) && x != k {
            let i = choose|i: int| 0 <= i < ns.len() && ns[i] == x;
            if i < p {
                assert(nt[i] == x);
            } else {
                assert(i != p);
                assert(nt[i - 1] == x);
            }
        }
    }
    assert forall|x: Seq<char>| #[trigger] new_map.contains_key(x) implies new_map[x] == old_map.remove(k)[x] by {
        let i = choose|i: int| 0 <= i < nt.len() && nt[i] == x;
        lemma_index_of_sorted(nt, i);
        let oi = if i < p { i } else { i + 1 };
        assert(ns[oi] == x);
        lemma_index_of_sorted(ns, oi);
    }
    assert(new_map =~= old_map.remove(k));
}

impl Config {
    /// An empty configuration, as a new configuration file holds it.
    pub fn new() -> (c: Config)
        ensures
            c@ == Map::<Seq<char>, AliasView>::empty(),
    {
        let c = Config { entries: Vec::new() };
        assert(c@ =~= Map::<Seq<char>, AliasView>::empty());
        c
    }

    /// Where `name` stands among the entries.
    fn find(&self, name: &str) -> (r: Option<usize>)
        ensures
            match r {
                Some(i) => i < self.names().len() && self.names()[i as int] == name@,
                None => !self.names().contains(name@),
            },
    {
        let mut i: usize = 0;
        while i < self.entries.len()
            invariant
                i <= self.entries.len(),
                forall|j: int| 0 <= j < i ==> self.names()[j] != name@,
            decreases self.entries.len() - i,
        {
            if str_eq(self.entries[i].name.as_str(), name) {
                return Some(i);
            }
            i += 1;
        }
        None
    }

    /// Whether there is an alias called `name`.
    pub fn contains(&self, name: &str) -> (r: bool)
        ensures
            r == self@.contains_key(name@),
    {
        self.find(name).is_some()
    }

    /// The alias called `name`, if there is one.
    pub fn get(&self, name: &str) -> (r: Option<&ConfigAlias>)
        ensures
            match r {
                Some(a) => self@.contains_key(name@) && a@ == self@[name@],
                None => !self@.contains_key(name@),
            },
    {
        proof {
            use_type_invariant(self);
        }
        match self.find(name) {
            Some(i) => {
                proof {
                    lemma_index_of_sorted(self.names(), i as int);
                }
                Some(&self.entries[i].alias)
            },
            None => None,
        }
    }
}

impl Config {
    /// Records `alias` under `name`, replacing an alias of that name.
    pub fn insert(&mut self, name: String, alias: ConfigAlias)
        ensures
            final(self)@ == old(self)@.insert(name@, alias@),
    {
        proof {
            use_type_invariant(&*self);
        }
        let mut entries: Vec<AliasEntry> = Vec::new();
        std::mem::swap(&mut entries, &mut self.entries);
        let ghost s = entries@;
        let mut p: usize = 0;
        while p < entries.len() && lex_less(entries[p].name.as_str(), name.as_str())
            invariant
                entries@ == s,
                strictly_sorted(names_of(s)),
                p <= entries.len(),
                forall|j: int| 0 <= j < p ==> lex_lt(#[trigger] names_of(s)[j], name@),
            decreases entries.len() - p,
        {
            p += 1;
        }
        if p < entries.len() && str_eq(entries[p].name.as_str(), name.as_str()) {
            let e = AliasEntry { name, alias };
            proof {
                lemma_replace_at(s, p as int, e);
            }
            entries.remove(p);
            entries.insert(p, e);
            assert(entries@ =~= s.update(p as int, e));
        } else {
            let e = AliasEntry { name, alias };
            proof {
                assert forall|j: int| p <= j < s.len() implies lex_lt(e.name@, #[trigger] names_of(s)[j]) by {
                    lemma_lex_total(names_of(s)[p as int], e.name@);
                    if j > p {
                        lemma_lex_transitive(e.name@, names_of(s)[p as int], names_of(s)[j]);
                    }
                }
                lemma_insert_at(s, p as int, e);
            }
            entries.insert(p, e);
        }
        self.entries = entries;
    }

    /// Takes out the alias called `name`, if there is one, and gives it back.
    pub fn remove(&mut self, name: &str) -> (r: Option<ConfigAlias>)
        ensures
            final(self)@ == old(self)@.remove(name@),
            match r {
                Some(a) => old(self)@.contains_key(name@) && a@ == old(self)@[name@],
                None => !old(self)@.contains_key(name@),
            },
    {
        proof {
            use_type_invariant(&*self);
        }
        match self.find(name) {
            None => {
                assert(self@ =~= self@.remove(name@));
                None
            },
            Some(p) => {
                let mut entries: Vec<AliasEntry> = Vec::new();
                std::mem::swap(&mut entries, &mut self.entries);
                let ghost s = entries@;
                proof {
                    lemma_remove_at(s, p as int);
                    lemma_index_of_sorted(names_of(s), p as int);
                }
                let e = entries.remove(p);
                self.entries = entries;
                Some(e.alias)
            },
        }
    }

    /// Records `script` as the launcher script of the alias called `name`;
    /// without such an alias nothing changes.
    pub fn set_script(&mut self, name: &str, script: String)
        ensures
            old(self)@.contains_key(name@) ==> final(self)@ == old(self)@.insert(
                name@,
                with_script(old(self)@[name@], script@),
            ),
            !old(self)@.contains_key(name@) ==> final(self)@ == old(self)@,
    {
        if let Some(old_alias) = self.remove(name) {
            let alias = ConfigAlias {
                path: old_alias.path,
                script: Some(script),
                desktop: old_alias.desktop,
                icon: old_alias.icon,
            };
            self.insert(owned(name), alias);
            assert(self@ =~= old(self)@.insert(name@, with_script(old(self)@[name@], script@)));
        }
    }

    /// Records `desktop` as the desktop entry of the alias called `name`;
    /// without such an alias nothing changes.
    pub fn set_desktop(&mut self, name: &str, desktop: String)
        ensures
            old(self)@.contains_key(name@) ==> final(self)@ == old(self)@.insert(
                name@,
                with_desktop(old(self)@[name@], desktop@),
            ),
            !old(self)@.contains_key(name@) ==> final(self)@ == old(self)@,
    {
        if let Some(old_alias) = self.remove(name) {
            let alias = ConfigAlias {
                path: old_alias.path,
                script: old_alias.script,
                desktop: Some(desktop),
                icon: old_alias.icon,
            };
            self.insert(owned(name), alias);
            assert(self@ =~= old(self)@.insert(name@, with_desktop(old(self)@[name@], desktop@)));
        }
    }

    /// Records `icon` as the icon name of the alias called `name`; without
    /// such an alias nothing changes.
    pub fn set_icon(&mut self, name: &str, icon: String)
        ensures
            old(self)@.contains_key(name@) ==> final(self)@ == old(self)@.insert(
                name@,
                with_icon(old(self)@[name@], icon@),
            ),
            !old(self)@.contains_key(name@) ==> final(self)@ == old(self)@,
    {
        if let Some(old_alias) = self.remove(name) {
            let alias = ConfigAlias {
                path: old_alias.path,
                script: old_alias.script,
                desktop: old_alias.desktop,
                icon: Some(icon),
            };
            self.insert(owned(name), alias);
            assert(self@ =~= old(self)@.insert(name@, with_icon(old(self)@[name@], icon@)));
        }
    }
}

impl Config {
    /// The alias names in ascending order: each name of the map once.
    pub fn names_list(&self) -> (r: Vec<String>)
        ensures
            r.deep_view() == self.names(),
            strictly_sorted(self.names()),
            forall|k: Seq<char>| self.names().contains(k) <==> self@.contains_key(k),
    {
        proof {
            use_type_invariant(self);
        }
        let mut r: Vec<String> = Vec::new();
        let mut i: usize = 0;
        while i < self.entries.len()
            invariant
                i <= self.entries.len(),
                r.deep_view() == self.names().take(i as int),
            decreases self.entries.len() - i,
        {
            let ghost before = r.deep_view();
            r.push(self.entries[i].name.clone());
            assert(r.deep_view() =~= before.push(self.names()[i as int]));
            assert(self.names().take(i + 1) =~= self.names().take(i as int).push(self.names()[i as int]));
            i += 1;
        }
        assert(self.names().take(i as int) =~= self.names());
        r
    }

    /// How many aliases there are.
    pub fn len(&self) -> (n: usize)
        ensures
            n == self.names().len(),
    {
        self.entries.len()
    }

    /// The `i`-th alias in the order of the names.
    pub fn entry(&self, i: usize) -> (e: &AliasEntry)
        requires
            i < self.names().len(),
        ensures
            e.name@ == self.names()[i as int],
            self@.contains_key(e.name@),
            e.alias@ == self@[e.name@],
    {
        proof {
            use_type_invariant(self);
            lemma_index_of_sorted(self.names(), i as int);
        }
        &self.entries[i]
    }

    /// The name of the first alias, in the order of the names, that stands for
    /// the executable at `path`.
    pub fn find_by_path(&self, path: &str) -> (r: Option<String>)
        ensures
            match r {
                Some(n) => {
                    &&& self@.contains_key(n@)
                    &&& self@[n@].path == path@
                    &&& forall|k: Seq<char>|
                        #![trigger self@[k]]
                        self@.contains_key(k) && lex_lt(k, n@) ==> self@[k].path != path@
                },
                None => forall|k: Seq<char>| #[trigger] self@.contains_key(k) ==> self@[k].path != path@,
            },
    {
        proof {
            use_type_invariant(self);
        }
        let ghost ns = self.names();
        let mut i: usize = 0;
        while i < self.entries.len()
            invariant
                ns == self.names(),
                strictly_sorted(ns),
                i <= self.entries.len(),
                forall|j: int| 0 <= j < i ==> (#[trigger] self.values()[j]).path != path@,
            decreases self.entries.len() - i,
        {
            if str_eq(self.entries[i].alias.path.as_str(), path) {
                let n = self.entries[i].name.clone();
                proof {
                    lemma_index_of_sorted(ns, i as int);
                    assert forall|k: Seq<char>|
                        #![trigger self@[k]]
                        self@.contains_key(k) && lex_lt(k, n@) implies self@[k].path != path@ by {
                        let j = choose|j: int| 0 <= j < ns.len() && ns[j] == k;
                        lemma_index_of_sorted(ns, j);
                        if j >= i {
                            lemma_lex_total(k, n@);
                            if j > i {
                                assert(lex_lt(ns[i as int], ns[j]));
                            } else {
                                lemma_lex_irreflexive(k);
                            }
                        }
                    }
                }
                return Some(n);
            }
            assert(self.values()[i as int] == self.entries[i as int].alias@);
            i += 1;
        }
        proof {
            assert forall|k: Seq<char>| #[trigger] self@.contains_key(k) implies self@[k].path != path@ by {
                let j = choose|j: int| 0 <= j < ns.len() && ns[j] == k;
                lemma_index_of_sorted(ns, j);
            }
        }
        None
    }

    /// The alias names in ascending order, separated by `, `.
    pub fn available_aliases(&self) -> (r: String)
        ensures
            r@ == join_seqs(self.names(), ", "@),
    {
        let names = self.names_list();
        let mut r = String::new();
        let mut i: usize = 0;
        while i < names.len()
            invariant
                i <= names.len(),
                names.deep_view() == self.names(),
                r@ == join_seqs(self.names().take(i as int), ", "@),
            decreases names.len() - i,
        {
            assert(self.names().take(i + 1).drop_last() =~= self.names().take(i as int));
            if i > 0 {
                r.append(", ");
            } else {
                assert(r@ =~= Seq::<char>::empty());
            }
            r.append(names[i].as_str());
            assert(names.deep_view()[i as int] == names[i as int]@);
            i += 1;
        }
        assert(self.names().take(i as int) =~= self.names());
        r
    }
}

} // verus!
