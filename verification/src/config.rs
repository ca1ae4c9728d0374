//! Configuration: named provider sections and defaults.
use vstd::prelude::*;

use crate::text::str_eq;

verus! {

/// One `[providers.<name>]` section.
#[derive(Debug, Clone)]
pub struct ProviderConfig {
    pub base_url: Option<String>,
    pub api_key: Option<String>,
    pub default_model: Option<String>,
}

impl Default for ProviderConfig {
    fn default() -> (res: ProviderConfig)
        ensures
            res.base_url is None,
            res.api_key is None,
            res.default_model is None,
    {
        ProviderConfig { base_url: None, api_key: None, default_model: None }
    }
}

/// The `[defaults]` section.
#[derive(Debug, Clone)]
pub struct Defaults {
    /// Provider name used when no provider is named on the command line.
    pub provider: Option<String>,
}

impl Default for Defaults {
    fn default() -> (res: Defaults)
        ensures
            res.provider is None,
    {
        Defaults { provider: None }
    }
}

/// No two entries share a name.
pub open spec fn distinct_names(s: Seq<(String, ProviderConfig)>) -> bool {
    forall|i: int, j: int|
        0 <= i < s.len() && 0 <= j < s.len() && i != j ==> #[trigger] s[i].0@ != #[trigger] s[j].0@
}

/// Some entry is named `k`.
pub open spec fn has_name(s: Seq<(String, ProviderConfig)>, k: Seq<char>) -> bool {
    exists|i: int| 0 <= i < s.len() && #[trigger] s[i].0@ == k
}

/// The position of an entry named `k`.
pub open spec fn index_of_name(s: Seq<(String, ProviderConfig)>, k: Seq<char>) -> int {
    choose|i: int| 0 <= i < s.len() && #[trigger] s[i].0@ == k
}

/// The map from names to sections that a list of entries stands for.
pub open spec fn map_of(s: Seq<(String, ProviderConfig)>) -> Map<Seq<char>, ProviderConfig> {
    Map::new(|k: Seq<char>| has_name(s, k), |k: Seq<char>| s[index_of_name(s, k)].1)
}

/// In a list without repeated names, the entry named `k` is the one `map_of` gives.
proof fn lemma_map_of_at(s: Seq<(String, ProviderConfig)>, i: int)
    requires
        distinct_names(s),
        0 <= i < s.len(),
    ensures
        map_of(s).contains_key(s[i].0@),
        map_of(s)[s[i].0@] == s[i].1,
{
    let k = s[i].0@;
    assert(has_name(s, k));
    let j = index_of_name(s, k);
    assert(s[j].0@ == k);
    if j != i {
        assert(s[i].0@ != s[j].0@);
    }
}

/// Provider sections by name: a list of entries in which no name repeats.
pub struct ProviderTable {
    entries: Vec<(String, ProviderConfig)>,
}

impl ProviderTable {
    #[verifier::type_invariant]
    spec fn names_distinct(self) -> bool {
        distinct_names(self.entries@)
    }
}

impl View for ProviderTable {
    type V = Map<Seq<char>, ProviderConfig>;

    closed spec fn view(&self) -> Map<Seq<char>, ProviderConfig> {
        map_of(self.entries@)
    }
}

impl ProviderTable {
    /// A table without sections.
    pub fn new() -> (res: Self)
        ensures
            res@ == Map::<Seq<char>, ProviderConfig>::empty(),
    {
        let res = ProviderTable { entries: Vec::new() };
        assert(res@ =~= Map::<Seq<char>, ProviderConfig>::empty());
        res
    }

    /// The position of the entry named `name`, if any.
    fn position(&self, name: &str) -> (res: Option<usize>)
        ensures
            match res {
                Some(i) => i < self.entries@.len() && self.entries@[i as int].0@ == name@,
                None => !has_name(self.entries@, name@),
            },
    {
        let n = self.entries.len();
        let mut i: usize = 0;
        while i < n
            invariant
                n == self.entries@.len(),
                i <= n,
                forall|j: int| 0 <= j < i ==> #[trigger] self.entries@[j].0@ != name@,
            decreases n - i,
        {
            if str_eq(self.entries[i].0.as_str(), name) {
                return Some(i);
            }
            i += 1;
        }
        None
    }

    /// The section named `name`, if there is one.
    pub fn get(&self, name: &str) -> (res: Option<&ProviderConfig>)
        ensures
            match res {
                Some(p) => self@.contains_key(name@) && *p == self@[name@],
                None => !self@.contains_key(name@),
            },
    {
        proof {
            use_type_invariant(self);
        }
        match self.position(name) {
            Some(i) => {
                proof {
                    lemma_map_of_at(self.entries@, i as int);
                }
                Some(&self.entries[i].1)
            },
            None => None,
        }
    }

    /// Sets the section named `name` to `cfg`, replacing any section of that name.
    pub fn insert(&mut self, name: String, cfg: ProviderConfig)
        ensures
            final(self)@ == old(self)@.insert(name@, cfg),
    {
        proof {
            use_type_invariant(&*self);
        }
        let ghost old_entries = self.entries@;
        let pos = self.position(name.as_str());
        let mut entries: Vec<(String, ProviderConfig)> = Vec::new();
        std::mem::swap(&mut entries, &mut self.entries);
        let ghost k = name@;
        match pos {
            Some(i) => {
                entries.set(i, (name, cfg));
                proof {
                    let s = entries@;
                    assert(s =~= old_entries.update(i as int, s[i as int]));
                    assert(distinct_names(s)) by {
                        assert forall|a: int, b: int|
                            0 <= a < s.len() && 0 <= b < s.len() && a != b implies #[trigger] s[a].0@
                            != #[trigger] s[b].0@ by {
                            if a != i && b != i {
                                assert(old_entries[a].0@ != old_entries[b].0@);
                            } else if a == i {
                                assert(old_entries[a].0@ != old_entries[b].0@);
                            } else {
                                assert(old_entries[a].0@ != old_entries[b].0@);
                            }
                        }
                    }
                    assert forall|key: Seq<char>| #[trigger]
                        map_of(s).contains_key(key) == map_of(old_entries).insert(k, cfg).contains_key(
                            key,
                        ) by {
                        if has_name(s, key) {
                            let j = choose|j: int| 0 <= j < s.len() && #[trigger] s[j].0@ == key;
                            if j != i {
                                assert(old_entries[j].0@ == key);
                            }
                        }
                        if has_name(old_entries, key) {
                            let j = choose|j: int|
                                0 <= j < old_entries.len() && #[trigger] old_entries[j].0@ == key;
                            if j != i {
                                assert(s[j].0@ == key);
                            } else {
                                assert(s[i as int].0@ == key);
                            }
                        }
                    }
                    assert forall|key: Seq<char>| #[trigger]
                        map_of(s).contains_key(key) implies map_of(s)[key] == map_of(
                        old_entries,
                    ).insert(k, cfg)[key] by {
                        let j = choose|j: int| 0 <= j < s.len() && #[trigger] s[j].0@ == key;
                        lemma_map_of_at(s, j);
                        if j != i {
                            assert(old_entries[j].0@ == key);
                            lemma_map_of_at(old_entries, j);
                        }
                    }
                    assert(map_of(s) =~= map_of(old_entries).insert(k, cfg));
                }
            },
            None => {
                entries.push((name, cfg));
                proof {
                    let s = entries@;
                    let n = old_entries.len() as int;
                    assert(s =~= old_entries.push(s[n]));
                    assert(distinct_names(s)) by {
                        assert forall|a: int, b: int|
                            0 <= a < s.len() && 0 <= b < s.len() && a != b implies #[trigger] s[a].0@
                            != #[trigger] s[b].0@ by {
                            if a != n && b != n {
                                assert(old_entries[a].0@ != old_entries[b].0@);
                            } else if a == n {
                                assert(old_entries[b].0@ == s[b].0@);
                            } else {
                                assert(old_entries[a].0@ == s[a].0@);
                            }
                        }
                    }
                    assert forall|key: Seq<char>| #[trigger]
                        map_of(s).contains_key(key) == map_of(old_entries).insert(k, cfg).contains_key(
                            key,
                        ) by {
                        if has_name(s, key) {
                            let j = choose|j: int| 0 <= j < s.len() && #[trigger] s[j].0@ == key;
                            if j != n {
                                assert(old_entries[j].0@ == key);
                            }
                        }
                        if has_name(old_entries, key) {
                            let j = choose|j: int|
                                0 <= j < old_entries.len() && #[trigger] old_entries[j].0@ == key;
                            assert(s[j].0@ == key);
                        }
                        if key == k {
                            assert(s[n].0@ == key);
                        }
                    }
                    assert forall|key: Seq<char>| #[trigger]
                        map_of(s).contains_key(key) implies map_of(s)[key] == map_of(
                        old_entries,
                    ).insert(k, cfg)[key] by {
                        let j = choose|j: int| 0 <= j < s.len() && #[trigger] s[j].0@ == key;
                        lemma_map_of_at(s, j);
                        if j != n {
                            assert(old_entries[j].0@ == key);
                            lemma_map_of_at(old_entries, j);
                        }
                    }
                    assert(map_of(s) =~= map_of(old_entries).insert(k, cfg));
                }
            },
        }
        self.entries = entries;
    }
}

/// The configuration file as a whole.
pub struct Config {
    pub providers: ProviderTable,
    pub defaults: Defaults,
}

impl Config {
    /// A configuration without provider sections or defaults: what a missing
    /// configuration file amounts to.
    pub fn new() -> (res: Config)
        ensures
            res.providers@ == Map::<Seq<char>, ProviderConfig>::empty(),
            res.defaults.provider is None,
    {
        Config { providers: ProviderTable::new(), defaults: Defaults { provider: None } }
    }

    /// Looks up a named provider section.
    pub fn provider(&self, name: &str) -> (res: Option<&ProviderConfig>)
        ensures
            match res {
                Some(p) => self.providers@.contains_key(name@) && *p == self.providers@[name@],
                None => !self.providers@.contains_key(name@),
            },
    {
        self.providers.get(name)
    }
}

/// The sections that a list of named sections amounts to: each name set in
/// turn, so a later section replaces an earlier one of the same name.
pub open spec fn sections_map(s: Seq<(String, ProviderConfig)>) -> Map<Seq<char>, ProviderConfig>
    decreases s.len(),
{
    if s.len() == 0 {
        Map::empty()
    } else {
        sections_map(s.drop_last()).insert(s.last().0@, s.last().1)
    }
}

/// Every named section given to `from_sections` can be looked up, whatever fields
/// it leaves unset: a name is present exactly when some section carries it, and
/// it maps to the last section given under that name.
pub proof fn law_every_section_kept(c: Config, s: Seq<(String, ProviderConfig)>, i: int)
    requires
        c.providers@ == sections_map(s),
        0 <= i < s.len(),
        forall|j: int| i < j < s.len() ==> #[trigger] s[j].0@ != s[i].0@,
    ensures
        c.providers@.contains_key(s[i].0@),
        c.providers@[s[i].0@] == s[i].1,
        forall|k: Seq<char>| #[trigger]
            c.providers@.contains_key(k) <==> exists|j: int| 0 <= j < s.len() && s[j].0@ == k,
{
    lemma_sections_map_at(s, i);
    lemma_sections_map_keys(s);
}

proof fn lemma_sections_map_at(s: Seq<(String, ProviderConfig)>, i: int)
    requires
        0 <= i < s.len(),
        forall|j: int| i < j < s.len() ==> #[trigger] s[j].0@ != s[i].0@,
    ensures
        sections_map(s).contains_key(s[i].0@),
        sections_map(s)[s[i].0@] == s[i].1,
    decreases s.len(),
{
    if i < s.len() - 1 {
        let t = s.drop_last();
        assert forall|j: int| i < j < t.len() implies #[trigger] t[j].0@ != t[i].0@ by {
            assert(t[j] == s[j]);
        }
        lemma_sections_map_at(t, i);
        assert(s.last() == s[s.len() - 1]);
        assert(s.last().0@ != s[i].0@);
    }
}

proof fn lemma_sections_map_keys(s: Seq<(String, ProviderConfig)>)
    ensures
        forall|k: Seq<char>| #[trigger]
            sections_map(s).contains_key(k) <==> exists|j: int| 0 <= j < s.len() && s[j].0@ == k,
    decreases s.len(),
{
    if s.len() > 0 {
        let t = s.drop_last();
        lemma_sections_map_keys(t);
        assert forall|k: Seq<char>| #[trigger]
            sections_map(s).contains_key(k) <==> exists|j: int| 0 <= j < s.len() && s[j].0@ == k by {
            if sections_map(s).contains_key(k) {
                if k == s.last().0@ {
                    assert(s[s.len() - 1].0@ == k);
                } else {
                    assert(sections_map(t).contains_key(k));
                    let j = choose|j: int| 0 <= j < t.len() && t[j].0@ == k;
                    assert(s[j] == t[j]);
                }
            }
            if exists|j: int| 0 <= j < s.len() && s[j].0@ == k {
                let j = choose|j: int| 0 <= j < s.len() && s[j].0@ == k;
                if j < s.len() - 1 {
                    assert(t[j] == s[j]);
                    assert(sections_map(t).contains_key(k));
                }
            }
        }
    }
}

impl Config {
    /// A configuration made of the given provider sections and defaults.
    pub fn from_sections(sections: Vec<(String, ProviderConfig)>, defaults: Defaults) -> (res: Config)
        ensures
            res.providers@ == sections_map(sections@),
            res.defaults == defaults,
    {
        let ghost all = sections@;
        let mut providers = ProviderTable::new();
        for entry in it: sections
            invariant
                it.seq() == all,
                providers@ == sections_map(all.take(it.index() as int)),
        {
            let ghost i = it.index();
            let (name, cfg) = entry;
            providers.insert(name, cfg);
            assert(all.take(i + 1).drop_last() =~= all.take(i as int));
        }
        assert(all.take(all.len() as int) =~= all);
        Config { providers, defaults }
    }
}

impl Default for Config {
    fn default() -> (res: Config)
        ensures
            res.providers@ == Map::<Seq<char>, ProviderConfig>::empty(),
            res.defaults.provider is None,
    {
        Config::new()
    }
}

/// A section read back after it was stored is the one stored, and storing a
/// section under one name leaves every other name's section as it was.
pub proof fn law_read_after_write(
    before: ProviderTable,
    after: ProviderTable,
    name: Seq<char>,
    cfg: ProviderConfig,
    other: Seq<char>,
)
    requires
        after@ == before@.insert(name, cfg),
    ensures
        after@.contains_key(name),
        after@[name] == cfg,
        other != name ==> after@.contains_key(other) == before@.contains_key(other),
        other != name && before@.contains_key(other) ==> after@[other] == before@[other],
{
}

} // verus!
