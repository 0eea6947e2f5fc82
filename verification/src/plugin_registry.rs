//! Plugin registry: registration, lifecycle, and per-plugin configuration.
//!
//! The registry keeps its plugins ordered by name, so listing and
//! persisting them is deterministic.
use vstd::prelude::*;
use crate::error::Error;
use crate::settings::global_config_dir;
use crate::text::{join_path, joined_path};
use crate::text::{
    chars_lt, chars_of, concat_str, lemma_name_lt_irreflexive, lemma_name_lt_total,
    lemma_name_lt_transitive, name_lt, sorted_names, str_eq, strings_view,
};

verus! {

/// Lifecycle state of a plugin.
#[derive(Debug, Clone, Copy, PartialEq, Eq, Structural)]
pub enum PluginState {
    /// Registered but not yet initialised.
    Registered,
    /// Initialised (loaded manifest, validated).
    Initialized,
    /// Running / active.
    Running,
    /// Explicitly stopped by the user.
    Stopped,
    /// Disabled: will not be started automatically.
    Disabled,
}

/// The lowercase name of a state.
pub open spec fn state_name(s: PluginState) -> Seq<char> {
    match s {
        PluginState::Registered => "registered"@,
        PluginState::Initialized => "initialized"@,
        PluginState::Running => "running"@,
        PluginState::Stopped => "stopped"@,
        PluginState::Disabled => "disabled"@,
    }
}

impl PluginState {
    /// The lowercase name (`registered`, `initialized`, `running`,
    /// `stopped`, `disabled`).
    pub fn to_string(&self) -> (r: String)
        ensures
            r@ == state_name(*self),
    {
        match self {
            PluginState::Registered => "registered".to_owned(),
            PluginState::Initialized => "initialized".to_owned(),
            PluginState::Running => "running".to_owned(),
            PluginState::Stopped => "stopped".to_owned(),
            PluginState::Disabled => "disabled".to_owned(),
        }
    }
}

/// The lifecycle moves a plugin may make through `transition`:
/// `Registered → Initialized`, `Initialized → Running`, `Running → Stopped`,
/// `Stopped → Running` (restart) and `Stopped → Registered` (re-init).
pub open spec fn allowed_move(from: PluginState, to: PluginState) -> bool {
    ||| from == PluginState::Registered && to == PluginState::Initialized
    ||| (from == PluginState::Initialized || from == PluginState::Stopped) && to
        == PluginState::Running
    ||| from == PluginState::Running && to == PluginState::Stopped
    ||| from == PluginState::Stopped && to == PluginState::Registered
}

/// Config-level metadata for a registered plugin.
#[derive(Debug)]
pub struct PluginEntry {
    /// Unique plugin identifier.
    pub name: String,
    /// Plugin version.
    pub version: String,
    /// Human-readable description.
    pub description: String,
    /// Author name.
    pub author: String,
    /// Required permissions (e.g. `["fs:read", "net:http"]`).
    pub permissions: Vec<String>,
    /// Whether the plugin is enabled.
    pub enabled: bool,
    /// Current lifecycle state.
    pub state: PluginState,
}

/// The number of names of `s` that come before `key`; in a sorted list,
/// the position at which `key` belongs.
pub open spec fn lower_bound(s: Seq<Seq<char>>, key: Seq<char>) -> int
    decreases s.len(),
{
    if s.len() == 0 {
        0
    } else if name_lt(s.last(), key) {
        s.len() as int
    } else {
        lower_bound(s.drop_last(), key)
    }
}

/// In a sorted list, the names before `lower_bound` come before `key`, and
/// the others do not.
pub proof fn lemma_lower_bound(s: Seq<Seq<char>>, key: Seq<char>)
    requires
        sorted_names(s),
    ensures
        0 <= lower_bound(s, key) <= s.len(),
        forall|i: int| 0 <= i < lower_bound(s, key) ==> name_lt(#[trigger] s[i], key),
        forall|i: int| lower_bound(s, key) <= i < s.len() ==> !name_lt(#[trigger] s[i], key),
    decreases s.len(),
{
    if s.len() > 0 {
        let last = s.last();
        if name_lt(last, key) {
            assert forall|i: int| 0 <= i < s.len() implies name_lt(#[trigger] s[i], key) by {
                if i < s.len() - 1 {
                    lemma_name_lt_transitive(s[i], last, key);
                }
            }
        } else {
            let t = s.drop_last();
            assert(sorted_names(t)) by {
                assert forall|i: int, j: int| 0 <= i < j < t.len() implies name_lt(#[trigger] t[i], #[trigger] t[j]) by {
                    assert(t[i] == s[i] && t[j] == s[j]);
                }
            }
            lemma_lower_bound(t, key);
            assert forall|i: int| 0 <= i < lower_bound(s, key) implies name_lt(#[trigger] s[i], key) by {
                assert(t[i] == s[i]);
            }
            assert forall|i: int| lower_bound(s, key) <= i < s.len() implies !name_lt(#[trigger] s[i], key) by {
                if i < s.len() - 1 {
                    assert(t[i] == s[i]);
                }
            }
        }
    }
}

/// The position of `key` in a list of names, or `-1`.
pub open spec fn name_index(s: Seq<Seq<char>>, key: Seq<char>) -> int {
    if s.contains(key) {
        choose|i: int| 0 <= i < s.len() && s[i] == key
    } else {
        -1
    }
}

/// In a list without repetition, `name_index` is the one position of `key`.
pub proof fn lemma_name_index(s: Seq<Seq<char>>, key: Seq<char>, i: int)
    requires
        sorted_names(s),
        0 <= i < s.len(),
        s[i] == key,
    ensures
        name_index(s, key) == i,
{
    let k = name_index(s, key);
    assert(s.contains(key));
    if k != i {
        if k < i {
            assert(name_lt(s[k], s[i]));
        } else {
            assert(name_lt(s[i], s[k]));
        }
        lemma_name_lt_irreflexive(key);
    }
}

/// The names after `key` is registered: unchanged when already present,
/// else with `key` at its place.
pub open spec fn names_after_register(s: Seq<Seq<char>>, key: Seq<char>) -> Seq<Seq<char>> {
    if s.contains(key) {
        s
    } else {
        s.insert(lower_bound(s, key), key)
    }
}

/// Law: registering keeps the names in order and without repetition, and
/// the registered name is present afterwards.
pub proof fn law_register_keeps_names_sorted(s: Seq<Seq<char>>, key: Seq<char>)
    requires
        sorted_names(s),
    ensures
        sorted_names(names_after_register(s, key)),
        names_after_register(s, key).contains(key),
{
    if s.contains(key) {
        let i = choose|i: int| 0 <= i < s.len() && s[i] == key;
        assert(s[i] == key);
    } else {
        lemma_lower_bound(s, key);
        let p = lower_bound(s, key);
        let t = s.insert(p, key);
        assert(t[p] == key);
        assert forall|i: int, j: int| 0 <= i < j < t.len() implies name_lt(#[trigger] t[i], #[trigger] t[j]) by {
            if j < p {
                assert(t[i] == s[i] && t[j] == s[j]);
            } else if j == p {
                assert(t[i] == s[i]);
            } else if i == p {
                assert(t[j] == s[j - 1]);
                lemma_name_lt_total(key, s[j - 1]);
                if s[j - 1] == key {
                    assert(s[j - 1] == key);
                }
            } else if i < p {
                assert(t[i] == s[i] && t[j] == s[j - 1]);
            } else {
                assert(t[i] == s[i - 1] && t[j] == s[j - 1]);
            }
        }
    }
}


// ── PluginRegistry ──────────────────────────────────────────────────────

/// The names of a list of (name, entry) pairs.
pub open spec fn pair_names(s: Seq<(String, PluginEntry)>) -> Seq<Seq<char>> {
    s.map_values(|p: (String, PluginEntry)| p.0@)
}

/// The entries of a list of (name, entry) pairs.
pub open spec fn pair_entries(s: Seq<(String, PluginEntry)>) -> Seq<PluginEntry> {
    s.map_values(|p: (String, PluginEntry)| p.1)
}

/// The entries of a sequence of entry references.
pub open spec fn deref_entries(s: Seq<&PluginEntry>) -> Seq<PluginEntry> {
    s.map_values(|e: &PluginEntry| *e)
}

/// Whether a plugin entry that says nothing of it is enabled: it is.
pub fn default_enabled() -> (r: bool)
    ensures
        r,
{
    true
}

/// The state of a plugin entry that names none: registered.
pub fn default_state() -> (r: PluginState)
    ensures
        r == PluginState::Registered,
{
    PluginState::Registered
}

/// The test for an enabled plugin.
pub open spec fn is_enabled() -> spec_fn(PluginEntry) -> bool {
    |e: PluginEntry| e.enabled
}

/// The plugins directory under the home directory `home`:
/// `~/.crab/plugins`.
pub open spec fn plugins_path(home: Seq<char>) -> Seq<char> {
    joined_path(joined_path(home, ".crab"@), "plugins"@)
}

/// The plugins directory, `plugins` under the global configuration
/// directory of the home directory `home`.
pub fn plugins_dir(home: &str) -> (r: String)
    ensures
        r@ == plugins_path(home@),
{
    let config = global_config_dir(home);
    join_path(config.as_str(), "plugins")
}

/// The configuration directory of plugin `name`: `~/.crab/plugins/{name}`.
pub fn plugin_config_dir(home: &str, name: &str) -> (r: String)
    ensures
        r@ == joined_path(plugins_path(home@), name@),
{
    let dir = plugins_dir(home);
    join_path(dir.as_str(), name)
}

/// The configuration file of plugin `name`:
/// `~/.crab/plugins/{name}/config.json`.
pub fn plugin_config_path(home: &str, name: &str) -> (r: String)
    ensures
        r@ == joined_path(joined_path(plugins_path(home@), name@), "config.json"@),
{
    let dir = plugin_config_dir(home, name);
    join_path(dir.as_str(), "config.json")
}

/// The set of registered plugins, ordered by name.
#[derive(Debug)]
pub struct PluginRegistry {
    items: Vec<(String, PluginEntry)>,
}

impl PluginRegistry {
    /// The registry file: `~/.crab/plugins/registry.json` for the home
    /// directory `home`.
    pub fn registry_path(home: &str) -> (r: String)
        ensures
            r@ == joined_path(plugins_path(home@), "registry.json"@),
    {
        let dir = plugins_dir(home);
        join_path(dir.as_str(), "registry.json")
    }

    /// The names are in order, without repetition.
    pub closed spec fn wf(&self) -> bool {
        sorted_names(pair_names(self.items@))
    }

    /// The names under which plugins are registered, in order.
    pub closed spec fn name_seq(&self) -> Seq<Seq<char>> {
        pair_names(self.items@)
    }

    /// The registered entries, in the order of their names.
    pub closed spec fn entry_seq(&self) -> Seq<PluginEntry> {
        pair_entries(self.items@)
    }

    /// Each entry carries the name it is registered under. Every operation
    /// keeps this; only a caller that renames an entry through `get_mut`
    /// breaks it.
    pub open spec fn keys_match(&self) -> bool {
        forall|i: int|
            0 <= i < self.name_seq().len() ==> (#[trigger] self.entry_seq()[i]).name@
                == self.name_seq()[i]
    }

    /// Create an empty registry.
    pub fn new() -> (r: Self)
        ensures
            r.wf(),
            r.name_seq() == Seq::<Seq<char>>::empty(),
            r.entry_seq() == Seq::<PluginEntry>::empty(),
            r.keys_match(),
    {
        let r = PluginRegistry { items: Vec::new() };
        proof {
            assert(pair_names(r.items@) =~= Seq::<Seq<char>>::empty());
            assert(pair_entries(r.items@) =~= Seq::<PluginEntry>::empty());
        }
        r
    }

    /// Position of the plugin registered as `name`.
    fn find(&self, name: &str) -> (r: Option<usize>)
        requires
            self.wf(),
        ensures
            self.name_seq().len() == self.entry_seq().len(),
            match r {
                Some(i) => (i as int) < self.name_seq().len() && self.name_seq()[i as int] == name@
                    && name_index(self.name_seq(), name@) == i,
                None => !self.name_seq().contains(name@) && name_index(self.name_seq(), name@) == -1,
            },
    {
        let ghost ns = self.name_seq();
        let mut i: usize = 0;
        while i < self.items.len()
            invariant
                i <= self.items.len(),
                ns == pair_names(self.items@),
                ns.len() == self.items.len(),
                sorted_names(ns),
                forall|k: int| 0 <= k < i ==> (#[trigger] ns[k]) != name@,
            decreases self.items.len() - i,
        {
            assert(ns[i as int] == self.items@[i as int].0@);
            if str_eq(self.items[i].0.as_str(), name) {
                proof {
                    lemma_name_index(ns, name@, i as int);
                }
                return Some(i);
            }
            i += 1;
        }
        None
    }

    /// Register a plugin under its name, replacing an entry of that name.
    pub fn register(&mut self, entry: PluginEntry)
        requires
            old(self).wf(),
        ensures
            final(self).wf(),
            final(self).name_seq() == names_after_register(old(self).name_seq(), entry.name@),
            old(self).name_seq().contains(entry.name@) ==> final(self).entry_seq()
                == old(self).entry_seq().update(name_index(old(self).name_seq(), entry.name@), entry),
            !old(self).name_seq().contains(entry.name@) ==> final(self).entry_seq()
                == old(self).entry_seq().insert(lower_bound(old(self).name_seq(), entry.name@), entry),
            final(self).name_seq().contains(entry.name@),
            final(self).entry_seq()[name_index(final(self).name_seq(), entry.name@)] == entry,
            final(self).name_seq().len() == old(self).name_seq().len() + if old(self).name_seq().contains(
                entry.name@,
            ) {
                0int
            } else {
                1int
            },
            old(self).keys_match() ==> final(self).keys_match(),
    {
        let ghost ns = self.name_seq();
        let ghost es = self.entry_seq();
        let ghost key = entry.name@;
        let found = self.find(entry.name.as_str());
        let mut p: usize = 0;
        if found.is_none() {
            let key_chars = chars_of(entry.name.as_str());
            proof {
                lemma_lower_bound(ns, key);
            }
            while p < self.items.len()
                invariant
                    p <= self.items.len(),
                    ns == pair_names(self.items@),
                    ns.len() == self.items.len(),
                    key_chars@ == key,
                    0 <= lower_bound(ns, key) <= ns.len(),
                    forall|i: int| 0 <= i < lower_bound(ns, key) ==> name_lt(#[trigger] ns[i], key),
                    forall|i: int| lower_bound(ns, key) <= i < ns.len() ==> !name_lt(#[trigger] ns[i], key),
                    p <= lower_bound(ns, key),
                ensures
                    p as int == lower_bound(ns, key),
                decreases self.items.len() - p,
            {
                let cur = chars_of(self.items[p].0.as_str());
                assert(cur@ == ns[p as int]);
                if !chars_lt(cur.as_slice(), key_chars.as_slice()) {
                    break;
                }
                p += 1;
            }
            assert(p as int == lower_bound(ns, key));
        }
        let name = entry.name.clone();
        match found {
            Some(i) => {
                let ghost e = entry;
                self.items.set(i, (name, entry));
                proof {
                    assert(pair_names(self.items@) =~= ns);
                    assert(pair_entries(self.items@) =~= es.update(i as int, e));
                    assert(self.entry_seq()[i as int] == e);
                }
            },
            None => {
                proof {
                    law_register_keeps_names_sorted(ns, key);
                }
                let ghost e = entry;
                self.items.insert(p, (name, entry));
                proof {
                    let t = ns.insert(p as int, key);
                    assert(pair_names(self.items@) =~= t);
                    assert(pair_entries(self.items@) =~= es.insert(p as int, e));
                    assert(t[p as int] == key);
                    lemma_name_index(t, key, p as int);
                    if old(self).keys_match() {
                        assert forall|j: int| 0 <= j < self.name_seq().len() implies (#[trigger] self.entry_seq()[j]).name@
                            == self.name_seq()[j] by {
                            if j < p {
                                assert(self.entry_seq()[j] == es[j] && self.name_seq()[j] == ns[j]);
                            } else if j > p {
                                assert(self.entry_seq()[j] == es[j - 1] && self.name_seq()[j] == ns[j - 1]);
                            }
                        }
                    }
                }
            },
        }
    }

    /// Unregister (remove) a plugin by name. Returns the removed entry.
    pub fn unregister(&mut self, name: &str) -> (r: Option<PluginEntry>)
        requires
            old(self).wf(),
        ensures
            final(self).wf(),
            match r {
                Some(e) => {
                    let i = name_index(old(self).name_seq(), name@);
                    &&& 0 <= i < old(self).name_seq().len()
                    &&& e == old(self).entry_seq()[i]
                    &&& final(self).name_seq() == old(self).name_seq().remove(i)
                    &&& final(self).entry_seq() == old(self).entry_seq().remove(i)
                },
                None => !old(self).name_seq().contains(name@) && final(self).name_seq() == old(
                    self,
                ).name_seq() && final(self).entry_seq() == old(self).entry_seq(),
            },
            old(self).keys_match() ==> final(self).keys_match(),
    {
        let ghost ns = self.name_seq();
        let ghost es = self.entry_seq();
        match self.find(name) {
            Some(i) => {
                let (_, e) = self.items.remove(i);
                proof {
                    if old(self).keys_match() {
                        assert forall|j: int| 0 <= j < self.name_seq().len() implies (#[trigger] self.entry_seq()[j]).name@
                            == self.name_seq()[j] by {
                            assert(self.entry_seq()[j] == pair_entries(self.items@)[j]);
                            if j < i {
                                assert(self.items@[j] == old(self).items@[j]);
                            } else {
                                assert(self.items@[j] == old(self).items@[j + 1]);
                            }
                            assert(es[if j < i { j } else { j + 1 }] == old(self).entry_seq()[if j < i { j } else { j + 1 }]);
                        }
                    }
                }
                proof {
                    assert(pair_names(self.items@) =~= ns.remove(i as int));
                    assert(pair_entries(self.items@) =~= es.remove(i as int));
                    let t = ns.remove(i as int);
                    assert forall|a: int, b: int| 0 <= a < b < t.len() implies name_lt(#[trigger] t[a], #[trigger] t[b]) by {
                        if b < i {
                            assert(t[a] == ns[a] && t[b] == ns[b]);
                        } else if a < i {
                            assert(t[a] == ns[a] && t[b] == ns[b + 1]);
                        } else {
                            assert(t[a] == ns[a + 1] && t[b] == ns[b + 1]);
                        }
                    }
                }
                Some(e)
            },
            None => None,
        }
    }

    /// Get a plugin entry by name.
    pub fn get(&self, name: &str) -> (r: Option<&PluginEntry>)
        requires
            self.wf(),
        ensures
            match r {
                Some(e) => self.name_seq().contains(name@) && *e == self.entry_seq()[name_index(
                    self.name_seq(),
                    name@,
                )],
                None => !self.name_seq().contains(name@),
            },
    {
        match self.find(name) {
            Some(i) => Some(&self.items[i].1),
            None => None,
        }
    }

    /// Get a mutable reference to a plugin entry. Its name in the registry
    /// stays as it was, whatever the caller writes into the entry.
    pub fn get_mut(&mut self, name: &str) -> (r: Option<&mut PluginEntry>)
        requires
            old(self).wf(),
        ensures
            final(self).name_seq() == old(self).name_seq(),
            sorted_names(final(self).name_seq()),
            final(self).wf(),
            match r {
                Some(e) => {
                    let i = name_index(old(self).name_seq(), name@);
                    &&& 0 <= i < old(self).name_seq().len()
                    &&& *e == old(self).entry_seq()[i]
                    &&& final(self).entry_seq() == old(self).entry_seq().update(i, *final(e))
                },
                None => !old(self).name_seq().contains(name@) && final(self).entry_seq() == old(
                    self,
                ).entry_seq(),
            },
    {
        match self.find(name) {
            Some(i) => {
                let r = &mut self.items[i].1;
                Some(r)
            },
            None => None,
        }
    }

    /// Whether a plugin is registered under `name`.
    pub fn contains(&self, name: &str) -> (r: bool)
        requires
            self.wf(),
        ensures
            r == self.name_seq().contains(name@),
    {
        self.find(name).is_some()
    }

    /// All registered plugins, in the order of their names.
    pub fn list(&self) -> (r: Vec<&PluginEntry>)
        ensures
            deref_entries(r@) == self.entry_seq(),
    {
        let mut r: Vec<&PluginEntry> = Vec::new();
        let mut i: usize = 0;
        while i < self.items.len()
            invariant
                i <= self.items.len(),
                deref_entries(r@) == pair_entries(self.items@).take(i as int),
            decreases self.items.len() - i,
        {
            let ghost before = r@;
            r.push(&self.items[i].1);
            proof {
                assert(deref_entries(r@) =~= deref_entries(before).push(self.items@[i as int].1));
                assert(pair_entries(self.items@).take(i + 1) =~= pair_entries(self.items@).take(
                    i as int,
                ).push(self.items@[i as int].1));
            }
            i += 1;
        }
        proof {
            assert(pair_entries(self.items@).take(i as int) =~= pair_entries(self.items@));
        }
        r
    }

    /// The enabled plugins, in the order of their names.
    pub fn list_enabled(&self) -> (r: Vec<&PluginEntry>)
        ensures
            deref_entries(r@) == self.entry_seq().filter(is_enabled()),
    {
        let ghost es = pair_entries(self.items@);
        let mut r: Vec<&PluginEntry> = Vec::new();
        let mut i: usize = 0;
        while i < self.items.len()
            invariant
                i <= self.items.len(),
                es == pair_entries(self.items@),
                es.len() == self.items.len(),
                deref_entries(r@) == es.take(i as int).filter(is_enabled()),
            decreases self.items.len() - i,
        {
            proof {
                assert(es.take(i + 1) =~= es.take(i as int).push(es[i as int]));
                es.take(i as int).lemma_filter_push(es[i as int], is_enabled());
            }
            if self.items[i].1.enabled {
                let ghost before = r@;
                r.push(&self.items[i].1);
                proof {
                    assert(deref_entries(r@) =~= deref_entries(before).push(es[i as int]));
                }
            }
            i += 1;
        }
        proof {
            assert(es.take(i as int) =~= es);
        }
        r
    }

    /// Number of registered plugins.
    pub fn len(&self) -> (r: usize)
        ensures
            r == self.name_seq().len(),
    {
        self.items.len()
    }

    /// Whether the registry is empty.
    pub fn is_empty(&self) -> (r: bool)
        ensures
            r == (self.name_seq().len() == 0),
    {
        self.items.len() == 0
    }

    /// Enable a plugin; a disabled one goes back to `Registered`. Returns
    /// `false` if not found.
    pub fn enable(&mut self, name: &str) -> (r: bool)
        requires
            old(self).wf(),
        ensures
            final(self).wf(),
            final(self).name_seq() == old(self).name_seq(),
            r == old(self).name_seq().contains(name@),
            !r ==> final(self).entry_seq() == old(self).entry_seq(),
            r ==> {
                let i = name_index(old(self).name_seq(), name@);
                let e = old(self).entry_seq()[i];
                final(self).entry_seq() == old(self).entry_seq().update(
                    i,
                    PluginEntry {
                        enabled: true,
                        state: if e.state == PluginState::Disabled {
                            PluginState::Registered
                        } else {
                            e.state
                        },
                        ..e
                    },
                )
            },
            old(self).keys_match() ==> final(self).keys_match(),
    {
        let ghost es = self.entry_seq();
        let ghost ns = self.name_seq();
        match self.find(name) {
            Some(i) => {
                self.items[i].1.enabled = true;
                if self.items[i].1.state == PluginState::Disabled {
                    self.items[i].1.state = PluginState::Registered;
                }
                proof {
                    assert(pair_entries(self.items@) =~= es.update(i as int, self.items@[i as int].1));
                    assert(pair_names(self.items@) =~= ns);
                }
                true
            },
            None => false,
        }
    }

    /// Disable a plugin. Returns `false` if not found.
    pub fn disable(&mut self, name: &str) -> (r: bool)
        requires
            old(self).wf(),
        ensures
            final(self).wf(),
            final(self).name_seq() == old(self).name_seq(),
            r == old(self).name_seq().contains(name@),
            !r ==> final(self).entry_seq() == old(self).entry_seq(),
            r ==> {
                let i = name_index(old(self).name_seq(), name@);
                final(self).entry_seq() == old(self).entry_seq().update(
                    i,
                    PluginEntry { enabled: false, state: PluginState::Disabled, ..old(self).entry_seq()[i] },
                )
            },
            old(self).keys_match() ==> final(self).keys_match(),
    {
        let ghost es = self.entry_seq();
        let ghost ns = self.name_seq();
        match self.find(name) {
            Some(i) => {
                self.items[i].1.enabled = false;
                self.items[i].1.state = PluginState::Disabled;
                proof {
                    assert(pair_entries(self.items@) =~= es.update(i as int, self.items@[i as int].1));
                    assert(pair_names(self.items@) =~= ns);
                }
                true
            },
            None => false,
        }
    }

    /// Move a plugin to a new lifecycle state along one of the allowed moves
    /// (see [`allowed_move`]). Fails, leaving the registry unchanged, when
    /// the plugin is not found or the move is not allowed.
    pub fn transition(&mut self, name: &str, target: PluginState) -> (r: Result<(), Error>)
        requires
            old(self).wf(),
        ensures
            final(self).wf(),
            final(self).name_seq() == old(self).name_seq(),
            !old(self).name_seq().contains(name@) ==> (r matches Err(Error::Config(m)) && m@
                == not_found_text(name@)) && final(self).entry_seq() == old(self).entry_seq(),
            old(self).name_seq().contains(name@) ==> {
                let i = name_index(old(self).name_seq(), name@);
                let e = old(self).entry_seq()[i];
                &&& allowed_move(e.state, target) ==> r is Ok && final(self).entry_seq()
                    == old(self).entry_seq().update(i, PluginEntry { state: target, ..e })
                &&& !allowed_move(e.state, target) ==> (r matches Err(Error::Config(m)) && m@
                    == bad_move_text(e.state, target, name@)) && final(self).entry_seq() == old(
                    self,
                ).entry_seq()
            },
            old(self).keys_match() ==> final(self).keys_match(),
    {
        let ghost es = self.entry_seq();
        let ghost ns = self.name_seq();
        let i = match self.find(name) {
            Some(i) => i,
            None => {
                let a = concat_str("plugin '", name);
                return Err(Error::Config(concat_str(a.as_str(), "' not found")));
            },
        };
        let from = self.items[i].1.state;
        let valid = match (from, target) {
            (PluginState::Registered, PluginState::Initialized) => true,
            (PluginState::Initialized, PluginState::Running) => true,
            (PluginState::Stopped, PluginState::Running) => true,
            (PluginState::Running, PluginState::Stopped) => true,
            (PluginState::Stopped, PluginState::Registered) => true,
            _ => false,
        };
        if valid {
            self.items[i].1.state = target;
            proof {
                assert(pair_entries(self.items@) =~= es.update(i as int, self.items@[i as int].1));
                assert(pair_names(self.items@) =~= ns);
            }
            Ok(())
        } else {
            let a = concat_str("invalid plugin state transition: ", from.to_string().as_str());
            let b = concat_str(a.as_str(), " \u{2192} ");
            let c = concat_str(b.as_str(), target.to_string().as_str());
            let d = concat_str(c.as_str(), " for '");
            let e = concat_str(d.as_str(), name);
            Err(Error::Config(concat_str(e.as_str(), "'")))
        }
    }
}

/// The error text for a plugin that is not registered.
pub open spec fn not_found_text(name: Seq<char>) -> Seq<char> {
    "plugin '"@ + name + "' not found"@
}

/// The error text for a move that is not allowed.
pub open spec fn bad_move_text(from: PluginState, to: PluginState, name: Seq<char>) -> Seq<char> {
    "invalid plugin state transition: "@ + state_name(from) + " \u{2192} "@ + state_name(to)
        + " for '"@ + name + "'"@
}

impl Default for PluginRegistry {
    fn default() -> (r: Self)
        ensures
            r.wf(),
            r.name_seq() == Seq::<Seq<char>>::empty(),
            r.entry_seq() == Seq::<PluginEntry>::empty(),
            r.keys_match(),
    {
        PluginRegistry::new()
    }
}

/// Law: the plugins of a registry are listed by name, in strictly
/// increasing order, so no name is registered twice; there is one entry
/// for each name, and when each entry carries its name, the listed entries'
/// names increase strictly too, so `list` holds each plugin once.
pub proof fn law_names_sorted(reg: &PluginRegistry)
    requires
        reg.wf(),
    ensures
        sorted_names(reg.name_seq()),
        reg.entry_seq().len() == reg.name_seq().len(),
        reg.keys_match() ==> forall|i: int, j: int|
            0 <= i < j < reg.entry_seq().len() ==> name_lt(
                (#[trigger] reg.entry_seq()[i]).name@,
                (#[trigger] reg.entry_seq()[j]).name@,
            ),
{
    if reg.keys_match() {
        assert forall|i: int, j: int| 0 <= i < j < reg.entry_seq().len() implies name_lt(
            (#[trigger] reg.entry_seq()[i]).name@,
            (#[trigger] reg.entry_seq()[j]).name@,
        ) by {
            assert(reg.entry_seq()[i].name@ == reg.name_seq()[i]);
            assert(reg.entry_seq()[j].name@ == reg.name_seq()[j]);
        }
    }
}

} // verus!
