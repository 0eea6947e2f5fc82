//! The dependencies named by a project's manifests: `Cargo.toml`,
//! `package.json`, `requirements.txt` and `go.mod`, taken from their text.
//!
//! TOML and JSON are parsed by the `toml` and `serde_json` crates; what the
//! library does with the tables they hand back (which key holds a version,
//! the order, duplicates) is verified here.
use vstd::prelude::*;
use vstd::multiset::Multiset;
use crate::error::{error_text, Error};
use crate::project_detect::{
    dep_view, deps_view, go_mod_state, parse_go_mod, parse_requirements, requirements_of,
    Dependency, ProjectType,
};
use crate::text::{
    chars_lt, chars_of, concat_str, copy_opt_string, lemma_name_lt_asymmetric,
    lemma_name_lt_total, lemma_name_lt_transitive, name_lt, opt_string_view, ordered_names,
    sorted_names, split_lines, str_eq,
};

verus! {

/// A dependency as plain values: its name and its version, if any.
pub type DepModel = (Seq<char>, Option<Seq<char>>);

/// A key of a table with the text of its value, when that is a string.
pub type TextEntry = (String, Option<String>);

/// An entry of a TOML table: its key, the text of its value when that is a
/// string, and, when the value is itself a table, that table's entries.
pub type TomlEntry = (String, Option<String>, Vec<TextEntry>);

/// A TOML entry as plain values.
pub type TomlEntryModel = (Seq<char>, Option<Seq<char>>, Seq<DepModel>);

/// The view of a key with its optional text.
pub open spec fn text_entry_view(e: TextEntry) -> DepModel {
    (e.0@, opt_string_view(e.1))
}

/// The views of a list of keys with their optional texts.
pub open spec fn text_entries_view(v: Seq<TextEntry>) -> Seq<DepModel> {
    v.map_values(|e: TextEntry| text_entry_view(e))
}

/// The view of a TOML entry.
pub open spec fn toml_entry_view(e: TomlEntry) -> TomlEntryModel {
    (e.0@, opt_string_view(e.1), text_entries_view(e.2@))
}

/// The view of what [`toml_section`] hands back.
pub open spec fn toml_section_view(r: Result<Option<Vec<TomlEntry>>, String>) -> Result<
    Option<Seq<TomlEntryModel>>,
    Seq<char>,
> {
    match r {
        Ok(Some(v)) => Ok(Some(v@.map_values(|e: TomlEntry| toml_entry_view(e)))),
        Ok(None) => Ok(None),
        Err(e) => Err(e@),
    }
}

/// The view of what [`json_section`] hands back.
pub open spec fn json_section_view(r: Result<Option<Vec<TextEntry>>, String>) -> Result<
    Option<Seq<DepModel>>,
    Seq<char>,
> {
    match r {
        Ok(Some(v)) => Ok(Some(text_entries_view(v@))),
        Ok(None) => Ok(None),
        Err(e) => Err(e@),
    }
}

/// What `toml` makes of the document `content`: the parse error's text, or,
/// for the table under `section` when there is one, its entries as
/// [`toml_section`] describes them.
pub uninterp spec fn toml_table_entries(content: Seq<char>, section: Seq<char>) -> Result<
    Option<Seq<TomlEntryModel>>,
    Seq<char>,
>;

/// What `serde_json` makes of the document `content`: the parse error's
/// text, or, for the object under `key` when there is one, its keys with the
/// text of each value that is a string.
pub uninterp spec fn json_object_entries(content: Seq<char>, key: Seq<char>) -> Result<
    Option<Seq<DepModel>>,
    Seq<char>,
>;

/// The table `section` of the TOML document `content`.
///
/// Parses with `toml::Table`'s `FromStr` (`toml::from_str`); a failure gives
/// the display text of `toml::de::Error`. When the document has a table under
/// `section`, each of its entries becomes its key, its text when the value is
/// a string, and, when the value is a table, that table's keys with the text
/// of each value that is a string. The result is named, not stated: it is
/// the TOML grammar of the crate.
#[verifier::external_body]
fn toml_section(content: &str, section: &str) -> (r: Result<Option<Vec<TomlEntry>>, String>)
    ensures
        toml_section_view(r) == toml_table_entries(content@, section@),
{
    let doc: toml::Table = content.parse().map_err(|e: toml::de::Error| e.to_string())?;
    Ok(doc.get(section).and_then(|v| v.as_table()).map(|t| t.iter().map(|(k, v)| (
        k.clone(),
        v.as_str().map(String::from),
        v.as_table().into_iter().flatten().map(|(ik, iv)| (ik.clone(), iv.as_str().map(String::from))).collect(),
    )).collect()))
}

/// The object under `key` of the JSON document `content`.
///
/// Parses with `serde_json::from_str` into a `serde_json::Value`; a failure
/// gives the display text of `serde_json::Error`. When the document is an
/// object with an object under `key`, each entry becomes its key and the
/// text of its value when that is a string. The result is named, not
/// stated: it is the JSON grammar of the crate.
#[verifier::external_body]
fn json_section(content: &str, key: &str) -> (r: Result<Option<Vec<TextEntry>>, String>)
    ensures
        json_section_view(r) == json_object_entries(content@, key@),
{
    let doc: serde_json::Value = serde_json::from_str(content).map_err(|e| e.to_string())?;
    Ok(doc.get(key).and_then(|v| v.as_object()).map(|o| o.iter().map(|(k, v)| (
        k.clone(),
        v.as_str().map(String::from),
    )).collect()))
}


// ── Versions and order ─────────────────────────────────────────────────

/// The text under the first entry named `key`, if that entry has text.
pub open spec fn lookup_text(entries: Seq<DepModel>, key: Seq<char>) -> Option<Seq<char>>
    decreases entries.len(),
{
    if entries.len() == 0 {
        None
    } else if entries[0].0 == key {
        entries[0].1
    } else {
        lookup_text(entries.drop_first(), key)
    }
}

/// The version of a `Cargo.toml` dependency: the string it is given, or the
/// `version` string of its table; none otherwise.
pub open spec fn cargo_version(e: TomlEntryModel) -> Option<Seq<char>> {
    match e.1 {
        Some(s) => Some(s),
        None => lookup_text(e.2, "version"@),
    }
}

/// The dependencies of the entries of a `[dependencies]` table, in order.
pub open spec fn cargo_entries_deps(es: Seq<TomlEntryModel>) -> Seq<DepModel> {
    es.map_values(|e: TomlEntryModel| (e.0, cargo_version(e)))
}

/// `d` placed in `s` before the first dependency whose name comes after its
/// own: after every one named like it.
pub open spec fn insert_by_name(s: Seq<DepModel>, d: DepModel) -> Seq<DepModel>
    decreases s.len(),
{
    if s.len() == 0 {
        seq![d]
    } else if name_lt(d.0, s[0].0) {
        seq![d] + s
    } else {
        seq![s[0]] + insert_by_name(s.drop_first(), d)
    }
}

/// The dependencies sorted by name, those with equal names in their order
/// in `s` (a stable sort).
pub open spec fn sort_by_name(s: Seq<DepModel>) -> Seq<DepModel>
    decreases s.len(),
{
    if s.len() == 0 {
        s
    } else {
        insert_by_name(sort_by_name(s.drop_last()), s.last())
    }
}

/// `s` without each dependency named like the one kept before it.
pub open spec fn dedup_by_name(s: Seq<DepModel>) -> Seq<DepModel>
    decreases s.len(),
{
    if s.len() == 0 {
        s
    } else {
        let p = dedup_by_name(s.drop_last());
        if p.len() > 0 && p.last().0 == s.last().0 {
            p
        } else {
            p.push(s.last())
        }
    }
}

/// The names of a dependency list.
pub open spec fn dep_names(s: Seq<DepModel>) -> Seq<Seq<char>> {
    s.map_values(|d: DepModel| d.0)
}

/// Inserting by name keeps a list ordered, adds exactly `d`, and brings in
/// nothing else.
proof fn lemma_insert_by_name(s: Seq<DepModel>, d: DepModel)
    requires
        ordered_names(dep_names(s)),
    ensures
        ordered_names(dep_names(insert_by_name(s, d))),
        insert_by_name(s, d).to_multiset() == s.to_multiset().insert(d),
        forall|k: int|
            0 <= k < insert_by_name(s, d).len() ==> #[trigger] insert_by_name(s, d)[k] == d
                || s.contains(insert_by_name(s, d)[k]),
    decreases s.len(),
{
    broadcast use vstd::seq_lib::group_to_multiset_ensures;
    broadcast use vstd::seq_lib::lemma_multiset_commutative;
    broadcast use vstd::multiset::group_multiset_axioms;

    let r = insert_by_name(s, d);
    if s.len() == 0 {
        assert(seq![d] =~= Seq::<DepModel>::empty().push(d));
        assert(Seq::<DepModel>::empty().to_multiset() =~= Multiset::empty());
        assert(r.to_multiset() =~= s.to_multiset().insert(d));
    } else if name_lt(d.0, s[0].0) {
        assert(seq![d] =~= Seq::<DepModel>::empty().push(d));
        assert(Seq::<DepModel>::empty().to_multiset() =~= Multiset::empty());
        assert(r.to_multiset() =~= s.to_multiset().insert(d));
        assert forall|i: int, j: int| 0 <= i < j < r.len() implies !name_lt(
            #[trigger] dep_names(r)[j],
            #[trigger] dep_names(r)[i],
        ) by {
            if i == 0 {
                lemma_name_lt_asymmetric(d.0, s[0].0);
                if j > 1 && name_lt(s[j - 1].0, d.0) {
                    lemma_name_lt_transitive(s[j - 1].0, d.0, s[0].0);
                    assert(dep_names(s)[j - 1] == s[j - 1].0);
                    assert(dep_names(s)[0] == s[0].0);
                }
            } else {
                assert(dep_names(r)[j] == dep_names(s)[j - 1]);
                assert(dep_names(r)[i] == dep_names(s)[i - 1]);
            }
        }
    } else {
        let t = s.drop_first();
        assert(ordered_names(dep_names(t))) by {
            assert forall|i: int, j: int| 0 <= i < j < t.len() implies !name_lt(
                #[trigger] dep_names(t)[j],
                #[trigger] dep_names(t)[i],
            ) by {
                assert(dep_names(t)[j] == dep_names(s)[j + 1]);
                assert(dep_names(t)[i] == dep_names(s)[i + 1]);
            }
        }
        lemma_insert_by_name(t, d);
        let rt = insert_by_name(t, d);
        assert(r == seq![s[0]] + rt);
        assert(s =~= seq![s[0]] + t);
        assert(seq![s[0]] =~= Seq::<DepModel>::empty().push(s[0]));
        assert(Seq::<DepModel>::empty().to_multiset() =~= Multiset::empty());
        assert(r.to_multiset() =~= s.to_multiset().insert(d));
        assert forall|k: int| 0 <= k < r.len() implies #[trigger] r[k] == d || s.contains(r[k]) by {
            if k > 0 {
                assert(r[k] == rt[k - 1]);
                if rt[k - 1] != d {
                    let w = choose|w: int| 0 <= w < t.len() && t[w] == rt[k - 1];
                    assert(s[w + 1] == r[k]);
                }
            } else {
                assert(s[0] == r[0]);
            }
        }
        assert forall|i: int, j: int| 0 <= i < j < r.len() implies !name_lt(
            #[trigger] dep_names(r)[j],
            #[trigger] dep_names(r)[i],
        ) by {
            if i == 0 {
                assert(r[j] == rt[j - 1]);
                if rt[j - 1] == d {
                } else {
                    let w = choose|w: int| 0 <= w < t.len() && t[w] == rt[j - 1];
                    assert(dep_names(s)[w + 1] == r[j].0);
                    assert(dep_names(s)[0] == s[0].0);
                }
            } else {
                assert(dep_names(r)[j] == dep_names(rt)[j - 1]);
                assert(dep_names(r)[i] == dep_names(rt)[i - 1]);
            }
        }
    }
}

/// A stable sort by name orders the list and keeps its dependencies.
proof fn lemma_sort_by_name(s: Seq<DepModel>)
    ensures
        ordered_names(dep_names(sort_by_name(s))),
        sort_by_name(s).to_multiset() == s.to_multiset(),
    decreases s.len(),
{
    broadcast use vstd::seq_lib::group_to_multiset_ensures;

    if s.len() > 0 {
        lemma_sort_by_name(s.drop_last());
        lemma_insert_by_name(sort_by_name(s.drop_last()), s.last());
        assert(s =~= s.drop_last().push(s.last()));
    } else {
        assert(dep_names(s).len() == 0);
    }
}

/// Deduplicating keeps only dependencies of the list.
proof fn lemma_dedup_from(s: Seq<DepModel>)
    ensures
        forall|k: int| 0 <= k < dedup_by_name(s).len() ==> s.contains(#[trigger] dedup_by_name(s)[k]),
    decreases s.len(),
{
    if s.len() > 0 {
        lemma_dedup_from(s.drop_last());
        let p = dedup_by_name(s.drop_last());
        assert forall|k: int| 0 <= k < dedup_by_name(s).len() implies s.contains(#[trigger] dedup_by_name(s)[k]) by {
            if k < p.len() {
                let w = choose|w: int| 0 <= w < s.drop_last().len() && s.drop_last()[w] == p[k];
                assert(s[w] == p[k]);
            } else {
                assert(s[s.len() - 1] == s.last());
            }
        }
    }
}

/// Deduplicating an ordered list leaves each name once, in increasing order.
proof fn lemma_dedup_sorted(s: Seq<DepModel>)
    requires
        ordered_names(dep_names(s)),
    ensures
        sorted_names(dep_names(dedup_by_name(s))),
    decreases s.len(),
{
    if s.len() > 0 {
        let s0 = s.drop_last();
        assert(ordered_names(dep_names(s0))) by {
            assert forall|i: int, j: int| 0 <= i < j < s0.len() implies !name_lt(
                #[trigger] dep_names(s0)[j],
                #[trigger] dep_names(s0)[i],
            ) by {
                assert(dep_names(s0)[j] == dep_names(s)[j]);
                assert(dep_names(s0)[i] == dep_names(s)[i]);
            }
        }
        lemma_dedup_sorted(s0);
        lemma_dedup_from(s0);
        let p = dedup_by_name(s0);
        let x = s.last();
        if !(p.len() > 0 && p.last().0 == x.0) {
            let r = p.push(x);
            assert forall|i: int, j: int| 0 <= i < j < r.len() implies name_lt(
                #[trigger] dep_names(r)[i],
                #[trigger] dep_names(r)[j],
            ) by {
                if j == r.len() - 1 {
                    let l = p.len() - 1;
                    let w = choose|w: int| 0 <= w < s0.len() && s0[w] == p[l];
                    assert(dep_names(s)[w] == p[l].0);
                    assert(dep_names(s)[s.len() - 1] == x.0);
                    assert(!name_lt(x.0, p[l].0));
                    lemma_name_lt_total(x.0, p[l].0);
                    assert(p[l] == p.last());
                    if i < l {
                        assert(dep_names(p)[i] == p[i].0);
                        assert(dep_names(p)[l] == p[l].0);
                        lemma_name_lt_transitive(p[i].0, p[l].0, x.0);
                    }
                } else {
                    assert(dep_names(r)[i] == dep_names(p)[i]);
                    assert(dep_names(r)[j] == dep_names(p)[j]);
                }
            }
        }
    }
}

/// The dependencies of a manifest come out ordered by name, none lost and
/// none added; a `package.json`'s, which are deduplicated after sorting,
/// name each dependency once, in increasing order.
pub proof fn law_dependencies_ordered_by_name(s: Seq<DepModel>)
    ensures
        ordered_names(dep_names(sort_by_name(s))),
        sort_by_name(s).to_multiset() == s.to_multiset(),
        sorted_names(dep_names(dedup_by_name(sort_by_name(s)))),
{
    lemma_sort_by_name(s);
    lemma_dedup_sorted(sort_by_name(s));
}

/// Inserting at the first position whose name comes after `d`'s.
proof fn lemma_insert_at(s: Seq<DepModel>, d: DepModel, p: int)
    requires
        0 <= p <= s.len(),
        forall|k: int| 0 <= k < p ==> !name_lt(d.0, #[trigger] s[k].0),
        p == s.len() || name_lt(d.0, s[p].0),
    ensures
        insert_by_name(s, d) == s.take(p) + seq![d] + s.skip(p),
    decreases p,
{
    if p == 0 {
        assert(s.take(0) + seq![d] + s.skip(0) =~= seq![d] + s);
        if s.len() == 0 {
            assert(seq![d] + s =~= seq![d]);
        }
    } else {
        let t = s.drop_first();
        assert forall|k: int| 0 <= k < p - 1 implies !name_lt(d.0, #[trigger] t[k].0) by {
            assert(t[k] == s[k + 1]);
        }
        if p < s.len() {
            assert(t[p - 1] == s[p]);
        }
        lemma_insert_at(t, d, p - 1);
        assert(!name_lt(d.0, s[0].0));
        assert(seq![s[0]] + (t.take(p - 1) + seq![d] + t.skip(p - 1)) =~= s.take(p) + seq![d]
            + s.skip(p));
    }
}

/// A copy of a dependency.
fn copy_dep(d: &Dependency) -> (r: Dependency)
    ensures
        r == *d,
{
    Dependency { name: d.name.clone(), version: copy_opt_string(&d.version) }
}

/// `d` inserted into `v` after every dependency whose name does not come
/// after its own.
fn insert_dep(v: Vec<Dependency>, d: Dependency) -> (r: Vec<Dependency>)
    ensures
        deps_view(r@) == insert_by_name(deps_view(v@), dep_view(d)),
{
    let dn = chars_of(d.name.as_str());
    let ghost s = deps_view(v@);
    let mut p: usize = 0;
    while p < v.len()
        invariant
            p <= v.len(),
            dn@ == d.name@,
            s == deps_view(v@),
            forall|k: int| 0 <= k < p ==> !name_lt(d.name@, #[trigger] s[k].0),
        ensures
            p <= v.len(),
            forall|k: int| 0 <= k < p ==> !name_lt(d.name@, #[trigger] s[k].0),
            p == v.len() || name_lt(d.name@, s[p as int].0),
        decreases v.len() - p,
    {
        let cur = chars_of(v[p].name.as_str());
        assert(cur@ == s[p as int].0);
        if chars_lt(dn.as_slice(), cur.as_slice()) {
            break;
        }
        p += 1;
    }
    proof {
        lemma_insert_at(s, dep_view(d), p as int);
    }
    let mut r = v;
    r.insert(p, d);
    proof {
        assert(deps_view(r@) =~= s.take(p as int) + seq![dep_view(d)] + s.skip(p as int));
    }
    r
}

/// `v` without each dependency named like the one kept before it.
fn dedup_deps(v: &Vec<Dependency>) -> (r: Vec<Dependency>)
    ensures
        deps_view(r@) == dedup_by_name(deps_view(v@)),
{
    let ghost s = deps_view(v@);
    let mut r: Vec<Dependency> = Vec::new();
    let mut i: usize = 0;
    while i < v.len()
        invariant
            i <= v.len(),
            s == deps_view(v@),
            deps_view(r@) == dedup_by_name(s.take(i as int)),
        decreases v.len() - i,
    {
        proof {
            assert(s.take(i + 1).drop_last() =~= s.take(i as int));
            assert(s.take(i + 1).last() == s[i as int]);
        }
        let n = r.len();
        let same = n > 0 && str_eq(r[n - 1].name.as_str(), v[i].name.as_str());
        if !same {
            let ghost before = r@;
            r.push(copy_dep(&v[i]));
            proof {
                assert(deps_view(r@) =~= deps_view(before).push(s[i as int]));
            }
        }
        i += 1;
    }
    proof {
        assert(s.take(i as int) =~= s);
    }
    r
}


// ── Manifests ──────────────────────────────────────────────────────────

/// A dependency list, or an error's text, as plain values.
pub open spec fn deps_result_view(r: Result<Vec<Dependency>, Error>) -> Result<Seq<DepModel>, Seq<char>> {
    match r {
        Ok(v) => Ok(deps_view(v@)),
        Err(e) => Err(error_text(e)),
    }
}

/// The dependencies of a `Cargo.toml`: the entries of its `[dependencies]`
/// table sorted by name, or the parse error.
pub open spec fn cargo_deps_of(content: Seq<char>) -> Result<Seq<DepModel>, Seq<char>> {
    match toml_table_entries(content, "dependencies"@) {
        Err(e) => Err("parse Cargo.toml: "@ + e),
        Ok(None) => Ok(Seq::empty()),
        Ok(Some(es)) => Ok(sort_by_name(cargo_entries_deps(es))),
    }
}

/// The entries of an optional table, none when it is absent.
pub open spec fn or_empty(o: Option<Seq<DepModel>>) -> Seq<DepModel> {
    match o {
        Some(s) => s,
        None => Seq::empty(),
    }
}

/// The dependencies of a `package.json`: those of `dependencies`, then
/// those of `devDependencies`, sorted by name and with each name kept once
/// (its first), or the parse error.
pub open spec fn package_json_deps_of(content: Seq<char>) -> Result<Seq<DepModel>, Seq<char>> {
    match json_object_entries(content, "dependencies"@) {
        Err(e) => Err("parse package.json: "@ + e),
        Ok(a) => match json_object_entries(content, "devDependencies"@) {
            Err(e) => Err("parse package.json: "@ + e),
            Ok(b) => Ok(dedup_by_name(sort_by_name(or_empty(a) + or_empty(b)))),
        },
    }
}

/// The version of a `Cargo.toml` dependency entry.
fn entry_version(e: &TomlEntry) -> (r: Option<String>)
    ensures
        opt_string_view(r) == cargo_version(toml_entry_view(*e)),
{
    if e.1.is_some() {
        return copy_opt_string(&e.1);
    }
    let ghost es = text_entries_view(e.2@);
    let mut i: usize = 0;
    assert(es.skip(0) =~= es);
    while i < e.2.len()
        invariant
            i <= e.2.len(),
            e.1 is None,
            es == text_entries_view(e.2@),
            lookup_text(es, "version"@) == lookup_text(es.skip(i as int), "version"@),
        decreases e.2.len() - i,
    {
        let ghost rest = es.skip(i as int);
        assert(rest.len() > 0);
        assert(rest[0] == text_entry_view(e.2@[i as int]));
        if str_eq(e.2[i].0.as_str(), "version") {
            let r = copy_opt_string(&e.2[i].1);
            assert(rest[0].0 == "version"@);
            assert(lookup_text(rest, "version"@) == rest[0].1);
            assert(rest[0].1 == opt_string_view(r));
            return r;
        }
        assert(rest.drop_first() =~= es.skip(i + 1));
        i += 1;
    }
    None
}

/// `r` with the entries' dependencies inserted by name, one after another.
fn insert_entries(r: Vec<Dependency>, entries: &Vec<TextEntry>, Ghost(done): Ghost<Seq<DepModel>>) -> (out: Vec<Dependency>)
    requires
        deps_view(r@) == sort_by_name(done),
    ensures
        deps_view(out@) == sort_by_name(done + text_entries_view(entries@)),
{
    let ghost es = text_entries_view(entries@);
    let mut out = r;
    let mut i: usize = 0;
    while i < entries.len()
        invariant
            i <= entries.len(),
            es == text_entries_view(entries@),
            deps_view(out@) == sort_by_name(done + es.take(i as int)),
        decreases entries.len() - i,
    {
        proof {
            assert((done + es.take(i + 1)).drop_last() =~= done + es.take(i as int));
            assert((done + es.take(i + 1)).last() == es[i as int]);
        }
        let d = Dependency { name: entries[i].0.clone(), version: copy_opt_string(&entries[i].1) };
        out = insert_dep(out, d);
        i += 1;
    }
    proof {
        assert(es.take(i as int) =~= es);
    }
    out
}

/// The dependencies of a `Cargo.toml`, sorted by name.
///
/// A document that does not parse gives `Error::Other` with
/// `parse Cargo.toml: ` and the parser's message.
pub fn parse_cargo_deps(content: &str) -> (r: Result<Vec<Dependency>, Error>)
    ensures
        deps_result_view(r) == cargo_deps_of(content@),
        r is Err ==> r->Err_0 is Other,
{
    match toml_section(content, "dependencies") {
        Err(e) => Err(Error::Other(concat_str("parse Cargo.toml: ", e.as_str()))),
        Ok(None) => {
            let out: Vec<Dependency> = Vec::new();
            assert(deps_view(out@) =~= Seq::<DepModel>::empty());
            Ok(out)
        },
        Ok(Some(entries)) => {
            let ghost es = entries@.map_values(|e: TomlEntry| toml_entry_view(e));
            let ghost ds = cargo_entries_deps(es);
            let mut out: Vec<Dependency> = Vec::new();
            let mut i: usize = 0;
            assert(deps_view(out@) =~= sort_by_name(ds.take(0)));
            while i < entries.len()
                invariant
                    i <= entries.len(),
                    es == entries@.map_values(|e: TomlEntry| toml_entry_view(e)),
                    ds == cargo_entries_deps(es),
                    deps_view(out@) == sort_by_name(ds.take(i as int)),
                decreases entries.len() - i,
            {
                proof {
                    assert(ds.take(i + 1).drop_last() =~= ds.take(i as int));
                    assert(ds.take(i + 1).last() == ds[i as int]);
                }
                let version = entry_version(&entries[i]);
                let d = Dependency { name: entries[i].0.clone(), version };
                out = insert_dep(out, d);
                i += 1;
            }
            proof {
                assert(ds.take(i as int) =~= ds);
            }
            Ok(out)
        },
    }
}

/// The dependencies and dev-dependencies of a `package.json`, sorted by
/// name, each name once.
///
/// A document that does not parse gives `Error::Other` with
/// `parse package.json: ` and the parser's message.
pub fn parse_package_json_deps(content: &str) -> (r: Result<Vec<Dependency>, Error>)
    ensures
        deps_result_view(r) == package_json_deps_of(content@),
        r is Err ==> r->Err_0 is Other,
{
    let a = match json_section(content, "dependencies") {
        Err(e) => {
            return Err(Error::Other(concat_str("parse package.json: ", e.as_str())));
        },
        Ok(a) => a,
    };
    let b = match json_section(content, "devDependencies") {
        Err(e) => {
            return Err(Error::Other(concat_str("parse package.json: ", e.as_str())));
        },
        Ok(b) => b,
    };
    let ghost av = or_empty(match json_section_view(Ok(a)) { Ok(x) => x, Err(_) => None });
    let ghost bv = or_empty(match json_section_view(Ok(b)) { Ok(x) => x, Err(_) => None });
    let mut sorted: Vec<Dependency> = Vec::new();
    proof {
        assert(deps_view(sorted@) =~= sort_by_name(Seq::<DepModel>::empty()));
    }
    let empty: Vec<TextEntry> = Vec::new();
    let first = match &a {
        Some(v) => v,
        None => &empty,
    };
    assert(text_entries_view(first@) == av);
    sorted = insert_entries(sorted, first, Ghost(Seq::<DepModel>::empty()));
    assert(Seq::<DepModel>::empty() + av =~= av);
    let second = match &b {
        Some(v) => v,
        None => &empty,
    };
    assert(text_entries_view(second@) == bv);
    sorted = insert_entries(sorted, second, Ghost(av));
    Ok(dedup_deps(&sorted))
}


// ── Scanning a project ─────────────────────────────────────────────────

/// The text of an optional manifest.
pub open spec fn opt_text(o: Option<&str>) -> Option<Seq<char>> {
    match o {
        Some(s) => Some(s@),
        None => None,
    }
}

/// A project type with its dependencies, when it has any.
pub open spec fn listed(t: ProjectType, deps: Seq<DepModel>) -> Seq<(ProjectType, Seq<DepModel>)> {
    if deps.len() == 0 {
        Seq::empty()
    } else {
        seq![(t, deps)]
    }
}

/// The dependencies of each project type whose manifest is present and
/// names any, in the order Rust, Node, Python, Go; or the first error of a
/// manifest that does not parse (`Cargo.toml` before `package.json`).
pub open spec fn scan_of(
    cargo_toml: Option<Seq<char>>,
    package_json: Option<Seq<char>>,
    requirements: Option<Seq<char>>,
    go_mod: Option<Seq<char>>,
) -> Result<Seq<(ProjectType, Seq<DepModel>)>, Seq<char>> {
    let rust = match cargo_toml {
        Some(c) => cargo_deps_of(c),
        None => Ok(Seq::empty()),
    };
    let node = match package_json {
        Some(c) => package_json_deps_of(c),
        None => Ok(Seq::empty()),
    };
    let python = match requirements {
        Some(c) => requirements_of(split_lines(c)),
        None => Seq::empty(),
    };
    let go = match go_mod {
        Some(c) => go_mod_state(split_lines(c)).0,
        None => Seq::empty(),
    };
    match rust {
        Err(e) => Err(e),
        Ok(rd) => match node {
            Err(e) => Err(e),
            Ok(nd) => Ok(listed(ProjectType::Rust, rd) + listed(ProjectType::Node, nd) + listed(
                ProjectType::Python,
                python,
            ) + listed(ProjectType::Go, go)),
        },
    }
}

/// The view of a scan's result.
pub open spec fn scan_view(r: Result<Vec<(ProjectType, Vec<Dependency>)>, Error>) -> Result<
    Seq<(ProjectType, Seq<DepModel>)>,
    Seq<char>,
> {
    match r {
        Ok(v) => Ok(v@.map_values(|p: (ProjectType, Vec<Dependency>)| (p.0, deps_view(p.1@)))),
        Err(e) => Err(error_text(e)),
    }
}

/// `out` with `t` and its dependencies added when there are any.
fn push_listed(
    out: &mut Vec<(ProjectType, Vec<Dependency>)>,
    t: ProjectType,
    deps: Vec<Dependency>,
)
    ensures
        final(out)@.map_values(|p: (ProjectType, Vec<Dependency>)| (p.0, deps_view(p.1@)))
            == old(out)@.map_values(|p: (ProjectType, Vec<Dependency>)| (p.0, deps_view(p.1@)))
            + listed(t, deps_view(deps@)),
{
    let ghost before = out@;
    if deps.len() > 0 {
        out.push((t, deps));
    }
    proof {
        let f = |p: (ProjectType, Vec<Dependency>)| (p.0, deps_view(p.1@));
        if deps@.len() > 0 {
            assert(out@.map_values(f) =~= before.map_values(f) + seq![(t, deps_view(deps@))]);
        } else {
            assert(out@.map_values(f) =~= before.map_values(f) + Seq::<(ProjectType, Seq<DepModel>)>::empty());
        }
    }
}

/// An empty dependency list.
fn no_deps() -> (r: Vec<Dependency>)
    ensures
        deps_view(r@) == Seq::<DepModel>::empty(),
{
    let r: Vec<Dependency> = Vec::new();
    assert(deps_view(r@) =~= Seq::<DepModel>::empty());
    r
}

/// The dependencies named by a project's manifests, given the text of each
/// that is present: `Cargo.toml`, `package.json`, `requirements.txt` and
/// `go.mod`. A project type is listed only when its manifest names
/// dependencies; types come in the order Rust, Node, Python, Go.
pub fn scan_dependencies_in(
    cargo_toml: Option<&str>,
    package_json: Option<&str>,
    requirements: Option<&str>,
    go_mod: Option<&str>,
) -> (r: Result<Vec<(ProjectType, Vec<Dependency>)>, Error>)
    ensures
        scan_view(r) == scan_of(
            opt_text(cargo_toml),
            opt_text(package_json),
            opt_text(requirements),
            opt_text(go_mod),
        ),
        r is Err ==> r->Err_0 is Other,
{
    let rust = match cargo_toml {
        Some(c) => match parse_cargo_deps(c) {
            Ok(v) => v,
            Err(e) => {
                return Err(e);
            },
        },
        None => no_deps(),
    };
    let node = match package_json {
        Some(c) => match parse_package_json_deps(c) {
            Ok(v) => v,
            Err(e) => {
                return Err(e);
            },
        },
        None => no_deps(),
    };
    let python = match requirements {
        Some(c) => parse_requirements(c),
        None => no_deps(),
    };
    let go = match go_mod {
        Some(c) => parse_go_mod(c),
        None => no_deps(),
    };
    let mut out: Vec<(ProjectType, Vec<Dependency>)> = Vec::new();
    proof {
        let f = |p: (ProjectType, Vec<Dependency>)| (p.0, deps_view(p.1@));
        assert(out@.map_values(f) =~= Seq::<(ProjectType, Seq<DepModel>)>::empty());
    }
    push_listed(&mut out, ProjectType::Rust, rust);
    push_listed(&mut out, ProjectType::Node, node);
    push_listed(&mut out, ProjectType::Python, python);
    push_listed(&mut out, ProjectType::Go, go);
    Ok(out)
}

} // verus!
