//! `.gitignore` maintenance for the local configuration file.
//!
//! The decisions are made on the text of the ignore files; running `git`
//! and reading and writing the files is left to the caller.
use vstd::prelude::*;
use crate::text::{
    chars_end_with, chars_eq, chars_of, chars_start_with, concat_str, ends_with, join_path,
    joined_path, lemma_line_end, line_end, lines_from, split_lines, starts_with, string_of,
    sub_chars, text_lines, trim, trim_chars,
};

verus! {

/// The entry written to a project `.gitignore` for the local config file.
pub open spec fn local_entry() -> Seq<char> {
    "/.crab/config.local.toml"@
}

/// Whether a line of a global ignore file covers the local config file:
/// not blank, not a comment (`#`) nor a negation (`!`), and ending with
/// `config.local.toml`.
pub open spec fn covers_local_config(line: Seq<char>) -> bool {
    let t = trim(line);
    &&& t.len() > 0
    &&& t[0] != '#'
    &&& t[0] != '!'
    &&& ends_with(t, "config.local.toml"@)
}

/// Match a single ignore-file line against the local config file name.
/// Comments, blank lines and negations never match.
pub fn matches_local_config_entry(line: &str) -> (r: bool)
    ensures
        r == covers_local_config(line@),
{
    let c = chars_of(line);
    let t = trim_chars(c.as_slice());
    if t.len() == 0 || t[0] == '#' || t[0] == '!' {
        return false;
    }
    let suffix = chars_of("config.local.toml");
    chars_end_with(t.as_slice(), suffix.as_slice())
}

/// Whether some line of an ignore file covers the local config file.
pub fn global_gitignore_covers(content: &str) -> (r: bool)
    ensures
        r == exists|k: int| 0 <= k < split_lines(content@).len() && covers_local_config(
            #[trigger] split_lines(content@)[k],
        ),
{
    let lines = text_lines(content);
    let ghost ls = lines@.map_values(|l: Vec<char>| l@);
    let mut i: usize = 0;
    while i < lines.len()
        invariant
            i <= lines.len(),
            ls == lines@.map_values(|l: Vec<char>| l@),
            ls == split_lines(content@),
            forall|k: int| 0 <= k < i ==> !covers_local_config(#[trigger] ls[k]),
        decreases lines.len() - i,
    {
        let s = string_of(lines[i].as_slice());
        assert(s@ == ls[i as int]);
        if matches_local_config_entry(s.as_str()) {
            return true;
        }
        i += 1;
    }
    false
}

/// Whether some line of `content`, trimmed, is the local config entry.
pub open spec fn has_local_entry(content: Seq<char>) -> bool {
    exists|k: int| 0 <= k < split_lines(content).len() && trim(#[trigger] split_lines(content)[k])
        == local_entry()
}

/// `content` with the local config entry added as a line of its own: a
/// newline first when the text does not end with one, and a newline after.
pub open spec fn with_local_entry(content: Seq<char>) -> Seq<char> {
    let base = if content.len() > 0 && content.last() != '\n' {
        content.push('\n')
    } else {
        content
    };
    base + local_entry() + seq!['\n']
}

/// The new text of a project `.gitignore` that must list the local config
/// file: `None` when a line already lists it, else the text with the entry
/// appended.
pub fn gitignore_with_local_entry(content: &str) -> (r: Option<String>)
    ensures
        has_local_entry(content@) ==> r is None,
        !has_local_entry(content@) ==> (r matches Some(s) && s@ == with_local_entry(content@)),
{
    let lines = text_lines(content);
    let entry = chars_of("/.crab/config.local.toml");
    let ghost ls = lines@.map_values(|l: Vec<char>| l@);
    let mut i: usize = 0;
    while i < lines.len()
        invariant
            i <= lines.len(),
            ls == lines@.map_values(|l: Vec<char>| l@),
            ls == split_lines(content@),
            entry@ == local_entry(),
            forall|k: int| 0 <= k < i ==> trim(#[trigger] ls[k]) != local_entry(),
        decreases lines.len() - i,
    {
        let t = trim_chars(lines[i].as_slice());
        assert(lines@[i as int]@ == ls[i as int]);
        if chars_eq(t.as_slice(), entry.as_slice()) {
            return None;
        }
        i += 1;
    }
    let c = chars_of(content);
    let base = if c.len() > 0 && c[c.len() - 1] != '\n' {
        concat_str(content, "\n")
    } else {
        content.to_owned()
    };
    let with_entry = concat_str(base.as_str(), "/.crab/config.local.toml");
    let out = concat_str(with_entry.as_str(), "\n");
    proof {
        reveal_strlit("\n");
        assert("\n"@ =~= seq!['\n']);
        if content@.len() > 0 && content@.last() != '\n' {
            assert(content@ + "\n"@ =~= content@.push('\n'));
        }
    }
    Some(out)
}

/// Splitting `p + q`, where `p` ends with a newline, splits `p` and `q`
/// apart.
proof fn lemma_lines_concat(p: Seq<char>, q: Seq<char>, i: int)
    requires
        p.len() > 0,
        p.last() == '\n',
        0 <= i <= p.len(),
    ensures
        lines_from(p + q, i) == lines_from(p, i) + lines_from(q, 0),
    decreases p.len() - i,
{
    let s = p + q;
    if i < p.len() {
        lemma_line_end(p, i);
        lemma_line_end(s, i);
        let j = line_end(p, i);
        assert(j < p.len()) by {
            if j == p.len() {
                assert(p[p.len() - 1] == '\n');
            }
        }
        assert(line_end(s, i) == j) by {
            lemma_line_end_prefix(p, q, i);
        }
        assert(s.subrange(i, j) =~= p.subrange(i, j));
        lemma_lines_concat(p, q, j + 1);
        assert(lines_from(p + q, i) =~= lines_from(p, i) + lines_from(q, 0));
    } else {
        lemma_lines_shift(p, q, 0);
        assert(lines_from(p, i) =~= Seq::<Seq<char>>::empty());
        assert(lines_from(p + q, i) =~= lines_from(p, i) + lines_from(q, 0));
    }
}

/// Where `p` holds a newline at or after `i`, the first newline of `p + q`
/// from `i` is that of `p`.
proof fn lemma_line_end_prefix(p: Seq<char>, q: Seq<char>, i: int)
    requires
        0 <= i < p.len(),
        p.last() == '\n',
    ensures
        line_end(p + q, i) == line_end(p, i),
    decreases p.len() - i,
{
    let s = p + q;
    assert(s[i] == p[i]);
    if p[i] != '\n' {
        if i + 1 < p.len() {
            lemma_line_end_prefix(p, q, i + 1);
        }
    }
}

/// Splitting `p + q` from position `p.len() + k` splits `q` from `k`.
proof fn lemma_lines_shift(p: Seq<char>, q: Seq<char>, k: int)
    requires
        0 <= k <= q.len(),
    ensures
        lines_from(p + q, p.len() + k) == lines_from(q, k),
    decreases q.len() - k,
{
    let s = p + q;
    if k < q.len() {
        lemma_line_end_shift(p, q, k);
        let j = line_end(q, k);
        lemma_line_end(q, k);
        assert(s.subrange(p.len() + k, p.len() + j) =~= q.subrange(k, j));
        assert(s.subrange(p.len() + k, s.len() as int) =~= q.subrange(k, q.len() as int));
        if j < q.len() {
            lemma_lines_shift(p, q, j + 1);
        }
    }
}

/// The first newline of `p + q` from `p.len() + k` is that of `q` from `k`,
/// moved by `p.len()`.
proof fn lemma_line_end_shift(p: Seq<char>, q: Seq<char>, k: int)
    requires
        0 <= k <= q.len(),
    ensures
        line_end(p + q, p.len() + k) == p.len() + line_end(q, k),
    decreases q.len() - k,
{
    let s = p + q;
    if k < q.len() {
        assert(s[p.len() + k] == q[k]);
        if q[k] != '\n' {
            lemma_line_end_shift(p, q, k + 1);
        }
    }
}

/// Law: adding the local config entry is idempotent. Once it has been
/// added, the text lists it, so a second write changes nothing.
pub proof fn law_local_entry_idempotent(content: Seq<char>)
    ensures
        has_local_entry(with_local_entry(content)),
{
    let base = if content.len() > 0 && content.last() != '\n' {
        content.push('\n')
    } else {
        content
    };
    let tail = local_entry() + seq!['\n'];
    let full = with_local_entry(content);
    assert(full =~= base + tail);
    reveal_strlit("/.crab/config.local.toml");
    lemma_line_end(tail, 0);
    assert(line_end(tail, 0) == local_entry().len()) by {
        assert forall|k: int| 0 <= k < local_entry().len() implies tail[k] != '\n' by {}
        lemma_line_end_exact(tail, 0, local_entry().len() as int);
    }
    assert(lines_from(tail, 0) =~= seq![local_entry()]) by {
        assert(tail.subrange(0, local_entry().len() as int) =~= local_entry());
        assert(lines_from(tail, local_entry().len() as int + 1) =~= Seq::<Seq<char>>::empty());
    }
    if base.len() == 0 {
        assert(full =~= tail);
        assert(split_lines(full)[0] == local_entry());
        assert(trim(local_entry()) == local_entry()) by {
            lemma_entry_trimmed();
        }
    } else {
        assert(base.last() == '\n');
        lemma_lines_concat(base, tail, 0);
        let n = lines_from(base, 0).len();
        assert(split_lines(full)[n as int] == local_entry());
        assert(trim(local_entry()) == local_entry()) by {
            lemma_entry_trimmed();
        }
    }
}

/// The first newline of `s` from `i` is at `j` when there is one at `j` and
/// none before it.
proof fn lemma_line_end_exact(s: Seq<char>, i: int, j: int)
    requires
        0 <= i <= j < s.len(),
        s[j] == '\n',
        forall|k: int| i <= k < j ==> s[k] != '\n',
    ensures
        line_end(s, i) == j,
    decreases j - i,
{
    if i < j {
        lemma_line_end_exact(s, i + 1, j);
    }
}

/// The local config entry has no white space at either end.
proof fn lemma_entry_trimmed()
    ensures
        trim(local_entry()) == local_entry(),
{
    reveal_strlit("/.crab/config.local.toml");
    let e = local_entry();
    assert(!crate::text::is_ws(e[0]));
    assert(!crate::text::is_ws(e[e.len() - 1]));
    crate::text::lemma_first_non_ws(e, 0);
    crate::text::lemma_end_non_ws(e, e.len() as int);
    assert(crate::text::first_non_ws(e, 0) == 0);
    assert(crate::text::end_non_ws(e, e.len() as int) == e.len());
    assert(crate::text::trim_start(e) =~= e);
    assert(crate::text::trim_end(e) =~= e);
}


// ── Where the ignore files are ─────────────────────────────────────────

/// `p` with a leading `~/` replaced by the home directory `home`.
pub open spec fn expanded_user(p: Seq<char>, home: Seq<char>) -> Seq<char> {
    if starts_with(p, "~/"@) {
        joined_path(home, p.skip(2))
    } else {
        p
    }
}

/// Expands a leading `~/` to the user's home directory `home`.
pub fn expand_user(p: &str, home: &str) -> (r: String)
    ensures
        r@ == expanded_user(p@, home@),
{
    let c = chars_of(p);
    let tilde = chars_of("~/");
    proof {
        reveal_strlit("~/");
    }
    if chars_start_with(c.as_slice(), tilde.as_slice()) {
        let rest = string_of(sub_chars(c.as_slice(), 2, c.len()).as_slice());
        proof {
            assert(c@.subrange(2, c@.len() as int) =~= p@.skip(2));
        }
        join_path(home, rest.as_str())
    } else {
        p.to_owned()
    }
}

/// The user's global ignore file: the `core.excludesfile` that git reports,
/// trimmed and with `~/` expanded, when it reports one that is not blank;
/// else `.config/git/ignore` under the home directory, git's documented
/// default.
pub open spec fn global_ignore_path(excludes_file: Option<Seq<char>>, home: Seq<char>) -> Seq<char> {
    match excludes_file {
        Some(s) if trim(s).len() > 0 => expanded_user(trim(s), home),
        _ => joined_path(joined_path(joined_path(home, ".config"@), "git"@), "ignore"@),
    }
}

/// Locates the user's global ignore file, given what
/// `git config --global --get core.excludesfile` printed when it succeeded.
pub fn global_gitignore_path(excludes_file: Option<&str>, home: &str) -> (r: String)
    ensures
        r@ == global_ignore_path(
            match excludes_file {
                Some(s) => Some(s@),
                None => None,
            },
            home@,
        ),
{
    if let Some(s) = excludes_file {
        let t = trim_chars(chars_of(s).as_slice());
        if t.len() > 0 {
            let ts = string_of(t.as_slice());
            return expand_user(ts.as_str(), home);
        }
    }
    let config = join_path(home, ".config");
    let git = join_path(config.as_str(), "git");
    join_path(git.as_str(), "ignore")
}

/// The project `.gitignore` that must list the local config file: none
/// when git already ignores the file, when the global ignore file covers
/// it, or when it is not inside a repository; else the `.gitignore` at the
/// root of its repository.
pub fn gitignore_to_update(already_ignored: bool, global_covers: bool, repo_root: Option<&str>) -> (r: Option<String>)
    ensures
        (already_ignored || global_covers || repo_root is None) <==> r is None,
        r matches Some(path) ==> (repo_root matches Some(root) && path@ == joined_path(root@, ".gitignore"@)),
{
    if already_ignored || global_covers {
        return None;
    }
    match repo_root {
        Some(root) => Some(join_path(root, ".gitignore")),
        None => None,
    }
}

} // verus!
