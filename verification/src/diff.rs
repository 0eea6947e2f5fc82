//! Exact-string edits with ambiguity checking, and unified diffs (made by
//! the `similar` crate): the building block of the edit tool.
use vstd::prelude::*;
use crate::error::Error;
use crate::rule_parser::{find_sub, find_sub_from, lemma_find_sub_bounds};
use crate::text::{chars_of, concat_str, decimal, extend_chars, string_of, u64_to_string};

verus! {

/// Result of applying an edit.
#[derive(Debug, Clone)]
pub struct EditResult {
    /// File content before the edit.
    pub old_content: String,
    /// File content after the edit.
    pub new_content: String,
    /// Unified diff between old and new content.
    pub unified_diff: String,
    /// Number of occurrences of the old string (all replaced when more than
    /// one).
    pub replacements: usize,
}

/// Options of an edit.
pub struct EditOptions<'a> {
    /// Full file content to edit.
    pub file_content: &'a str,
    /// Exact string to find.
    pub old_string: &'a str,
    /// Replacement string.
    pub new_string: &'a str,
    /// Replace every occurrence; when `false`, more than one occurrence is
    /// an error.
    pub replace_all: bool,
    /// Optional file-path label for the diff header.
    pub file_label: Option<&'a str>,
}

impl<'a> EditOptions<'a> {
    /// Options for a single-occurrence replacement.
    pub fn new(file_content: &'a str, old_string: &'a str, new_string: &'a str) -> (r: Self)
        ensures
            r.file_content == file_content,
            r.old_string == old_string,
            r.new_string == new_string,
            !r.replace_all,
            r.file_label is None,
    {
        EditOptions { file_content, old_string, new_string, replace_all: false, file_label: None }
    }
}

/// The number of non-overlapping occurrences of the non-empty `p` in `s`
/// from `i` on, found left to right.
pub open spec fn count_from(s: Seq<char>, p: Seq<char>, i: int) -> nat
    decreases s.len() + 1 - i,
{
    if p.len() == 0 || i < 0 || i > s.len() {
        0
    } else {
        match find_sub(s, p, i) {
            Some(k) => if k >= i && k + p.len() <= s.len() {
                1 + count_from(s, p, k + p.len())
            } else {
                0
            },
            None => 0,
        }
    }
}

/// The number of matches of `p` in `s`, as `str::matches` counts them: the
/// empty string matches at each of the `s.len() + 1` boundaries.
pub open spec fn match_count(s: Seq<char>, p: Seq<char>) -> nat {
    if p.len() == 0 {
        s.len() + 1
    } else {
        count_from(s, p, 0)
    }
}

/// `s` from `i` on with each occurrence of the non-empty `p`, left to
/// right, replaced by `r`.
pub open spec fn replaced_from(s: Seq<char>, p: Seq<char>, r: Seq<char>, i: int) -> Seq<char>
    decreases s.len() + 1 - i,
{
    if p.len() == 0 || i < 0 || i > s.len() {
        Seq::empty()
    } else {
        match find_sub(s, p, i) {
            Some(k) => if k >= i && k + p.len() <= s.len() {
                s.subrange(i, k) + r + replaced_from(s, p, r, k + p.len())
            } else {
                s.subrange(i, s.len() as int)
            },
            None => s.subrange(i, s.len() as int),
        }
    }
}

/// `r` before each character of `s` and at its end, as `str::replace`
/// does with an empty pattern.
pub open spec fn interleaved(s: Seq<char>, r: Seq<char>) -> Seq<char>
    decreases s.len(),
{
    if s.len() == 0 {
        r
    } else {
        r + seq![s[0]] + interleaved(s.drop_first(), r)
    }
}

/// `str::replace(s, p, r)`: every occurrence replaced.
pub open spec fn replace_all(s: Seq<char>, p: Seq<char>, r: Seq<char>) -> Seq<char> {
    if p.len() == 0 {
        interleaved(s, r)
    } else {
        replaced_from(s, p, r, 0)
    }
}

/// `str::replacen(s, p, r, 1)`: the first occurrence replaced.
pub open spec fn replace_first(s: Seq<char>, p: Seq<char>, r: Seq<char>) -> Seq<char> {
    match find_sub(s, p, 0) {
        Some(k) => s.take(k) + r + s.skip(k + p.len()),
        None => s,
    }
}

/// The unified diff from `old` to `new` under the header labels, as the
/// `similar` crate writes it.
pub uninterp spec fn unified_diff_text(old: Seq<char>, new: Seq<char>, old_label: Seq<char>, new_label: Seq<char>) -> Seq<char>;

/// A line-based unified diff.
///
/// Calls `similar::TextDiff::from_lines(old, new).unified_diff()` with the
/// header labels and renders it; the text, a function of the four
/// arguments alone (no deadline is set), is named `unified_diff_text` and
/// not written out here.
#[verifier::external_body]
fn similar_unified_diff(old: &str, new: &str, old_label: &str, new_label: &str) -> (r: String)
    ensures
        r@ == unified_diff_text(old@, new@, old_label@, new_label@),
{
    similar::TextDiff::from_lines(old, new).unified_diff().header(old_label, new_label).to_string()
}

/// Generate a unified diff between two strings without applying any edit.
pub fn unified_diff(old: &str, new: &str, old_label: &str, new_label: &str) -> (r: String)
    ensures
        r@ == unified_diff_text(old@, new@, old_label@, new_label@),
{
    similar_unified_diff(old, new, old_label, new_label)
}

/// Count the matches of `p` in `s`.
fn count_matches(s: &[char], p: &[char]) -> (r: usize)
    requires
        s@.len() < usize::MAX,
    ensures
        r == match_count(s@, p@),
{
    if p.len() == 0 {
        return s.len() + 1;
    }
    let mut n: usize = 0;
    let mut i: usize = 0;
    while i <= s.len()
        invariant
            p@.len() > 0,
            i <= s.len() + 1,
            s@.len() < usize::MAX,
            n + count_from(s@, p@, i as int) == count_from(s@, p@, 0),
            n <= i,
        decreases s.len() + 1 - i,
    {
        proof {
            lemma_find_sub_bounds(s@, p@, i as int);
        }
        match find_sub_from(s, p, i) {
            Some(k) => {
                n = n + 1;
                i = k + p.len();
            },
            None => {
                return n;
            },
        }
    }
    n
}

/// `s` with every occurrence of the non-empty `p` replaced by `r`.
fn replace_every(s: &[char], p: &[char], r: &[char]) -> (out: Vec<char>)
    requires
        p@.len() > 0,
    ensures
        out@ == replaced_from(s@, p@, r@, 0),
{
    let mut out: Vec<char> = Vec::new();
    let mut i: usize = 0;
    loop
        invariant
            p@.len() > 0,
            i <= s.len(),
            out@ + replaced_from(s@, p@, r@, i as int) == replaced_from(s@, p@, r@, 0),
        decreases s.len() + 1 - i,
    {
        proof {
            lemma_find_sub_bounds(s@, p@, i as int);
        }
        match find_sub_from(s, p, i) {
            Some(k) => {
                let ghost before = out@;
                let piece = crate::text::sub_chars(s, i, k);
                extend_chars(&mut out, piece.as_slice());
                extend_chars(&mut out, r);
                proof {
                    assert(out@ =~= before + s@.subrange(i as int, k as int) + r@);
                    assert(before + (s@.subrange(i as int, k as int) + r@ + replaced_from(s@, p@, r@, k + p@.len()))
                        =~= out@ + replaced_from(s@, p@, r@, k + p@.len()));
                }
                i = k + p.len();
            },
            None => {
                let ghost before = out@;
                let piece = crate::text::sub_chars(s, i, s.len());
                extend_chars(&mut out, piece.as_slice());
                proof {
                    assert(out@ =~= before + s@.subrange(i as int, s@.len() as int));
                }
                return out;
            },
        }
    }
}

/// `s` with `r` before each character and at the end.
fn interleave(s: &[char], r: &[char]) -> (out: Vec<char>)
    ensures
        out@ == interleaved(s@, r@),
{
    let mut out: Vec<char> = Vec::new();
    let mut i: usize = 0;
    proof {
        assert(s@.skip(0) =~= s@);
        assert(out@ + interleaved(s@, r@) =~= interleaved(s@, r@));
    }
    while i < s.len()
        invariant
            i <= s.len(),
            out@ + interleaved(s@.skip(i as int), r@) == interleaved(s@, r@),
        decreases s.len() - i,
    {
        proof {
            assert(s@.skip(i as int).drop_first() =~= s@.skip(i + 1));
            assert(s@.skip(i as int)[0] == s@[i as int]);
        }
        let ghost before = out@;
        extend_chars(&mut out, r);
        out.push(s[i]);
        proof {
            assert(out@ =~= before + r@ + seq![s@[i as int]]);
            assert(before + (r@ + seq![s@[i as int]] + interleaved(s@.skip(i + 1), r@)) =~= out@ + interleaved(s@.skip(i + 1), r@));
        }
        i += 1;
    }
    proof {
        assert(s@.skip(i as int).len() == 0);
    }
    let ghost before = out@;
    extend_chars(&mut out, r);
    proof {
        assert(out@ =~= before + r@);
    }
    out
}

/// `s` with the first occurrence of `p` replaced by `r`.
fn replace_once(s: &[char], p: &[char], r: &[char]) -> (out: Vec<char>)
    ensures
        out@ == replace_first(s@, p@, r@),
{
    proof {
        lemma_find_sub_bounds(s@, p@, 0);
    }
    match find_sub_from(s, p, 0) {
        Some(k) => {
            proof {
                lemma_find_sub_bounds(s@, p@, 0);
                assert(find_sub(s@, p@, 0) == Some(k as int));
                assert(k + p@.len() <= s@.len());
            }
            let total = s.len();
            assert(k + p@.len() <= total);
            let end: usize = k + p.len();
            let mut out = crate::text::sub_chars(s, 0, k);
            extend_chars(&mut out, r);
            let tail = crate::text::sub_chars(s, end, s.len());
            extend_chars(&mut out, tail.as_slice());
            proof {
                assert(out@ =~= s@.take(k as int) + r@ + s@.skip(k + p@.len()));
            }
            out
        },
        None => {
            let out = crate::text::sub_chars(s, 0, s.len());
            proof {
                assert(out@ =~= s@);
            }
            out
        },
    }
}

/// The content after an edit: every occurrence replaced when `all`, else
/// the first.
pub open spec fn edited_content(s: Seq<char>, p: Seq<char>, r: Seq<char>, all: bool) -> Seq<char> {
    if all {
        replace_all(s, p, r)
    } else {
        if p.len() == 0 {
            r + s
        } else {
            replace_first(s, p, r)
        }
    }
}

/// The message for an old string that occurs more than once.
pub open spec fn ambiguous_text(count: nat) -> Seq<char> {
    "old_string matches "@ + decimal(count) + " times; use replace_all or provide more context"@
}

/// Apply an exact string replacement within file content.
///
/// Fails when the old string does not occur, or occurs more than once and
/// `replace_all` is off; otherwise replaces the one occurrence, or all of
/// them.
pub fn apply_edit(opts: &EditOptions<'_>) -> (r: Result<EditResult, Error>)
    requires
        opts.file_content@.len() < usize::MAX,
    ensures
        ({
            let s = opts.file_content@;
            let p = opts.old_string@;
            let n = match_count(s, p);
            if n == 0 {
                r matches Err(Error::Other(m)) && m@ == "old_string not found in file content"@
            } else if n > 1 && !opts.replace_all {
                r matches Err(Error::Other(m)) && m@ == ambiguous_text(n)
            } else {
                r matches Ok(e) && {
                    let new = edited_content(s, p, opts.new_string@, opts.replace_all);
                    let old_label = match opts.file_label {
                        Some(l) => l@,
                        None => "a"@,
                    };
                    let new_label = match opts.file_label {
                        Some(l) => l@,
                        None => "b"@,
                    };
                    &&& e.old_content@ == s
                    &&& e.new_content@ == new
                    &&& e.replacements == n
                    &&& e.unified_diff@ == unified_diff_text(s, new, old_label, new_label)
                }
            }
        }),
{
    let s = chars_of(opts.file_content);
    let p = chars_of(opts.old_string);
    let rep = chars_of(opts.new_string);
    let count = count_matches(s.as_slice(), p.as_slice());
    if count == 0 {
        return Err(Error::Other("old_string not found in file content".to_owned()));
    }
    if count > 1 && !opts.replace_all {
        let a = concat_str("old_string matches ", u64_to_string(count as u64).as_str());
        return Err(Error::Other(concat_str(a.as_str(), " times; use replace_all or provide more context")));
    }
    let new_chars = if opts.replace_all {
        if p.len() == 0 {
            interleave(s.as_slice(), rep.as_slice())
        } else {
            replace_every(s.as_slice(), p.as_slice(), rep.as_slice())
        }
    } else if p.len() == 0 {
        let mut out = rep.clone();
        extend_chars(&mut out, s.as_slice());
        out
    } else {
        replace_once(s.as_slice(), p.as_slice(), rep.as_slice())
    };
    let new_content = string_of(new_chars.as_slice());
    let old_label = match opts.file_label {
        Some(l) => l,
        None => "a",
    };
    let new_label = match opts.file_label {
        Some(l) => l,
        None => "b",
    };
    let diff = unified_diff(opts.file_content, new_content.as_str(), old_label, new_label);
    Ok(EditResult { old_content: opts.file_content.to_owned(), new_content, unified_diff: diff, replacements: count })
}

/// [`apply_edit`] with the options of [`EditOptions::new`].
pub fn apply_edit_simple(file_content: &str, old_string: &str, new_string: &str) -> (r: Result<EditResult, Error>)
    requires
        file_content@.len() < usize::MAX,
    ensures
        ({
            let s = file_content@;
            let p = old_string@;
            let n = match_count(s, p);
            if n == 0 {
                r matches Err(Error::Other(m)) && m@ == "old_string not found in file content"@
            } else if n > 1 {
                r matches Err(Error::Other(m)) && m@ == ambiguous_text(n)
            } else {
                r matches Ok(e) && {
                    let new = edited_content(s, p, new_string@, false);
                    &&& e.old_content@ == s
                    &&& e.new_content@ == new
                    &&& e.replacements == n
                    &&& e.unified_diff@ == unified_diff_text(s, new, "a"@, "b"@)
                }
            }
        }),
{
    apply_edit(&EditOptions::new(file_content, old_string, new_string))
}

} // verus!
