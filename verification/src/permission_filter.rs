//! Tool-filter glob: `*` (any characters), `?` (one character) and
//! `[abc]` / `[a-z]` classes, matched against whole tool names.
//!
//! Unlike the config glob, a class here has no negation and `**` is just
//! two stars. A `*` in the pattern always stands for any characters, also
//! where the input holds a `*` itself.
use vstd::prelude::*;

use crate::glob::{
    class_free, class_scan, glob_language, lemma_class_scan_bounds, lemma_fit_skip, lemma_language_at_end,
    lemma_needs_length, lemma_star_after_fit, lemma_star_some, literal_fit, matches_from_some, skip_stars,
    star_measure, state_wf,
};
use crate::text::{chars_of, starts_with};

verus! {

/// The class at `pi` tested against `ch`: `None` when `pat[pi]` is not
/// `[` or the class never closes, else membership and the index past `]`.
pub open spec fn filter_class(pat: Seq<char>, pi: int, ch: char) -> Option<(bool, int)> {
    if pi < 0 || pi >= pat.len() || pat[pi] != '[' {
        None
    } else {
        class_scan(pat, pi + 1, ch, false)
    }
}

/// The tool-filter scan from pattern position `pi`, input position `ii`,
/// with the last star crossed (if any).
pub open spec fn filter_run(pat: Seq<char>, inp: Seq<char>, pi: int, ii: int, star: Option<(int, int)>) -> bool
    decreases star_measure(inp, star), inp.len() - ii, pat.len() - pi,
{
    if !state_wf(pat, inp, pi, ii, star) {
        false
    } else if ii >= inp.len() {
        skip_stars(pat, pi) == pat.len()
    } else if pi < pat.len() && pat[pi] == '[' {
        proof {
            lemma_class_scan_bounds(pat, pi + 1, inp[ii], false);
        }
        match filter_class(pat, pi, inp[ii]) {
            Some((true, e)) => filter_run(pat, inp, e, ii + 1, star),
            _ => match star {
                Some((sp, si)) => filter_run(pat, inp, sp + 1, si + 1, Some((sp, si + 1))),
                None => false,
            },
        }
    } else if pi < pat.len() && pat[pi] == '*' {
        filter_run(pat, inp, pi + 1, ii, Some((pi, ii)))
    } else if pi < pat.len() && (pat[pi] == '?' || pat[pi] == inp[ii]) {
        filter_run(pat, inp, pi + 1, ii + 1, star)
    } else {
        match star {
            Some((sp, si)) => filter_run(pat, inp, sp + 1, si + 1, Some((sp, si + 1))),
            None => false,
        }
    }
}

/// Whether a tool-filter glob matches the whole input.
pub open spec fn filter_glob_matches(pat: Seq<char>, inp: Seq<char>) -> bool {
    filter_run(pat, inp, 0, 0, None)
}

/// The remembered star as the specification sees it.
pub open spec fn star_of(star_pat: usize, star_inp: usize) -> Option<(int, int)> {
    if star_pat == usize::MAX {
        None
    } else {
        Some((star_pat as int, star_inp as int))
    }
}

/// Tests the class starting at `pat[pi]` against `ch`.
fn match_char_class(pat: &[char], pi: usize, ch: char) -> (r: Option<(bool, usize)>)
    requires
        pi < pat.len(),
        pat@[pi as int] == '[',
    ensures
        match filter_class(pat@, pi as int, ch) {
            Some((m, e)) => r == Some((m, e as usize)),
            None => r is None,
        },
{
    proof {
        lemma_class_scan_bounds(pat@, pi + 1, ch, false);
    }
    let mut i = pi + 1;
    let mut matched = false;
    while i < pat.len() && pat[i] != ']'
        invariant
            pi < i,
            i <= pat.len() + 2,
            pat@[pi as int] == '[',
            filter_class(pat@, pi as int, ch) == class_scan(pat@, i as int, ch, matched),
        decreases pat.len() + 3 - i,
    {
        if pat.len() - i > 2 && pat[i + 1] == '-' && pat[i + 2] != ']' {
            if ch >= pat[i] && ch <= pat[i + 2] {
                matched = true;
            }
            i += 3;
        } else {
            if ch == pat[i] {
                matched = true;
            }
            i += 1;
        }
    }
    if i < pat.len() && pat[i] == ']' {
        Some((matched, i + 1))
    } else {
        None
    }
}

/// Runs the tool-filter scan over whole character sequences.
fn glob_match_inner(pat: &[char], input: &[char]) -> (r: bool)
    ensures
        r == filter_glob_matches(pat@, input@),
{
    let ghost p = pat@;
    let ghost s = input@;
    let mut pi: usize = 0;
    let mut ii: usize = 0;
    let mut star_pat: usize = usize::MAX;
    let mut star_input: usize = usize::MAX;
    while ii < input.len()
        invariant
            p == pat@,
            s == input@,
            star_pat == usize::MAX ==> star_input == usize::MAX,
            state_wf(p, s, pi as int, ii as int, star_of(star_pat, star_input)),
            filter_run(p, s, pi as int, ii as int, star_of(star_pat, star_input)) == filter_glob_matches(p, s),
        decreases star_measure(s, star_of(star_pat, star_input)), s.len() - ii, p.len() - pi,
    {
        if pi < pat.len() && pat[pi] == '[' {
            proof {
                lemma_class_scan_bounds(p, pi + 1, s[ii as int], false);
            }
            if let Some((matched, end)) = match_char_class(pat, pi, input[ii]) {
                if matched {
                    pi = end;
                    ii += 1;
                    continue;
                }
            }
            if star_pat != usize::MAX {
                pi = star_pat + 1;
                star_input += 1;
                ii = star_input;
                continue;
            }
            assert(filter_run(p, s, pi as int, ii as int, star_of(star_pat, star_input)) == false);
            return false;
        } else if pi < pat.len() && pat[pi] == '*' {
            star_pat = pi;
            star_input = ii;
            pi += 1;
        } else if pi < pat.len() && (pat[pi] == '?' || pat[pi] == input[ii]) {
            pi += 1;
            ii += 1;
        } else if star_pat != usize::MAX {
            pi = star_pat + 1;
            star_input += 1;
            ii = star_input;
        } else {
            assert(filter_run(p, s, pi as int, ii as int, star_of(star_pat, star_input)) == false);
            return false;
        }
    }
    let ghost pi0 = pi as int;
    while pi < pat.len() && pat[pi] == '*'
        invariant
            pi0 <= pi <= pat.len(),
            skip_stars(p, pi0) == skip_stars(p, pi as int),
            p == pat@,
        decreases pat.len() - pi,
    {
        pi += 1;
    }
    pi == pat.len()
}

/// Simple glob matching of a tool-filter pattern against a whole input:
/// `*` (any characters), `?` (one character), `[abc]` / `[a-z]` classes.
pub fn glob_match(pattern: &str, input: &str) -> (r: bool)
    ensures
        r == filter_glob_matches(pattern@, input@),
{
    let pat_chars = chars_of(pattern);
    let input_chars = chars_of(input);
    glob_match_inner(pat_chars.as_slice(), input_chars.as_slice())
}

/// Whether a tool name matches a filter pattern (same glob as [`glob_match`]).
pub fn tool_name_matches_pattern(pattern: &str, tool_name: &str) -> (r: bool)
    ensures
        r == filter_glob_matches(pattern@, tool_name@),
{
    glob_match(pattern, tool_name)
}

// ── Laws ──────────────────────────────────────────────────────────

/// A filter pattern with no `*`, `?` or `[`.
pub open spec fn is_plain_name(p: Seq<char>) -> bool {
    forall|k: int| 0 <= k < p.len() ==> #[trigger] p[k] != '*' && p[k] != '?' && p[k] != '['
}

/// Lemma: a plain-name scan accepts exactly when the rests are equal.
proof fn lemma_plain_run(p: Seq<char>, s: Seq<char>, pi: int, ii: int)
    requires
        is_plain_name(p),
        0 <= pi <= p.len(),
        0 <= ii <= s.len(),
    ensures
        filter_run(p, s, pi, ii, None) == (p.skip(pi) == s.skip(ii)),
    decreases s.len() - ii,
{
    if ii >= s.len() {
        assert(s.skip(ii) =~= Seq::<char>::empty());
        if pi < p.len() {
            assert(p[pi] != '*');
            assert(p.skip(pi).len() > 0);
        } else {
            assert(p.skip(pi) =~= Seq::<char>::empty());
        }
    } else {
        assert(s.skip(ii)[0] == s[ii]);
        if pi < p.len() {
            assert(p[pi] != '*' && p[pi] != '?' && p[pi] != '[');
            assert(p.skip(pi)[0] == p[pi]);
            if p[pi] == s[ii] {
                lemma_plain_run(p, s, pi + 1, ii + 1);
                assert(p.skip(pi) =~= seq![p[pi]] + p.skip(pi + 1));
                assert(s.skip(ii) =~= seq![s[ii]] + s.skip(ii + 1));
                if p.skip(pi) == s.skip(ii) {
                    assert(p.skip(pi + 1) =~= p.skip(pi).skip(1));
                    assert(s.skip(ii + 1) =~= s.skip(ii).skip(1));
                }
            } else {
                assert(p.skip(pi)[0] != s.skip(ii)[0]);
            }
        } else {
            assert(p.skip(pi).len() == 0);
            assert(s.skip(ii).len() > 0);
        }
    }
}

/// Law: a tool-filter pattern without glob syntax matches exactly the
/// tool name equal to it (matching is case-sensitive and whole-name).
pub proof fn law_plain_filter_matches_only_itself(p: Seq<char>, s: Seq<char>)
    requires
        is_plain_name(p),
    ensures
        filter_glob_matches(p, s) <==> p == s,
{
    lemma_plain_run(p, s, 0, 0);
    assert(p.skip(0) =~= p);
    assert(s.skip(0) =~= s);
}

/// Lemma: the scan of the pattern `*` accepts from its start and from
/// every state with the star behind it.
proof fn lemma_star_run(s: Seq<char>, pi: int, ii: int, star: Option<(int, int)>)
    requires
        0 <= ii <= s.len(),
        (pi == 0 && star is None) || (pi == 1 && star == Some((0int, ii))),
    ensures
        filter_run(seq!['*'], s, pi, ii, star),
    decreases star_measure(s, star), s.len() - ii, 1 - pi,
{
    let p = seq!['*'];
    if ii >= s.len() {
        assert(skip_stars(p, 1) == 1);
        assert(skip_stars(p, 0) == skip_stars(p, 1));
    } else if pi == 0 {
        lemma_star_run(s, 1, ii, Some((0, ii)));
    } else {
        lemma_star_run(s, 1, ii + 1, Some((0, ii + 1)));
    }
}

/// Law: the filter `*` matches every tool name.
pub proof fn law_star_filter_matches_any_name(s: Seq<char>)
    ensures
        filter_glob_matches(seq!['*'], s),
{
    lemma_star_run(s, 0, 0, None);
}


/// Lemma: once the pattern's last character, a `*`, has been crossed, the
/// scan accepts whatever input is left.
proof fn lemma_trailing_star_run(p: Seq<char>, s: Seq<char>, ii: int)
    requires
        p.len() > 0,
        p.last() == '*',
        0 <= ii <= s.len(),
    ensures
        filter_run(p, s, p.len() as int, ii, Some((p.len() - 1, ii))),
    decreases s.len() - ii,
{
    if ii < s.len() {
        lemma_trailing_star_run(p, s, ii + 1);
    } else {
        assert(skip_stars(p, p.len() as int) == p.len());
    }
}

/// Lemma: scanning `q` followed by `*`, with `q` a plain name, from the
/// `i`-th character of both, accepts exactly when the input from there
/// starts with the rest of `q`.
proof fn lemma_prefix_star_run(q: Seq<char>, s: Seq<char>, i: int)
    requires
        is_plain_name(q),
        0 <= i <= q.len(),
        i <= s.len(),
    ensures
        filter_run(q.push('*'), s, i, i, None) == starts_with(s.skip(i), q.skip(i)),
    decreases q.len() - i,
{
    let p = q.push('*');
    if i == q.len() {
        assert(q.skip(i) =~= Seq::<char>::empty());
        assert(s.skip(i).subrange(0, 0) =~= q.skip(i));
        assert(starts_with(s.skip(i), q.skip(i)));
        if i < s.len() {
            assert(p[i] == '*');
            lemma_trailing_star_run(p, s, i);
        } else {
            assert(skip_stars(p, i + 1) == p.len());
            assert(skip_stars(p, i) == skip_stars(p, i + 1));
        }
    } else {
        assert(p[i] == q[i]);
        assert(q[i] != '*' && q[i] != '?' && q[i] != '[');
        if i >= s.len() {
            assert(skip_stars(p, i) == i);
            assert(s.skip(i).len() == 0);
            assert(q.skip(i).len() > 0);
        } else {
            assert(s.skip(i)[0] == s[i]);
            assert(q.skip(i)[0] == q[i]);
            if q[i] == s[i] {
                lemma_prefix_star_run(q, s, i + 1);
                assert(s.skip(i + 1) =~= s.skip(i).skip(1));
                assert(q.skip(i + 1) =~= q.skip(i).skip(1));
                let a = s.skip(i);
                let b = q.skip(i);
                if starts_with(a, b) {
                    assert(s.skip(i + 1).subrange(0, q.skip(i + 1).len() as int) =~= a.subrange(
                        0,
                        b.len() as int,
                    ).skip(1));
                }
                if starts_with(s.skip(i + 1), q.skip(i + 1)) {
                    assert(a.subrange(0, b.len() as int) =~= seq![s[i]] + s.skip(i + 1).subrange(
                        0,
                        q.skip(i + 1).len() as int,
                    ));
                    assert(b =~= seq![q[i]] + q.skip(i + 1));
                }
            } else {
                let a = s.skip(i);
                let b = q.skip(i);
                if starts_with(a, b) {
                    assert(a.subrange(0, b.len() as int)[0] == b[0]);
                }
            }
        }
    }
}

/// Law: a filter made of a plain name followed by `*` matches exactly the
/// tool names that start with that name, whatever follows, a literal `*`
/// included (so `mcp__*` matches every `mcp__` tool).
pub proof fn law_prefix_star_filter(q: Seq<char>, s: Seq<char>)
    requires
        is_plain_name(q),
    ensures
        filter_glob_matches(q.push('*'), s) == starts_with(s, q),
{
    if q.len() <= s.len() {
        lemma_prefix_star_run(q, s, 0);
        assert(s.skip(0) =~= s);
        assert(q.skip(0) =~= q);
    } else {
        lemma_prefix_short(q, s, 0);
    }
}

/// Lemma: an input shorter than the plain name is never matched by the
/// name followed by `*`.
proof fn lemma_prefix_short(q: Seq<char>, s: Seq<char>, i: int)
    requires
        is_plain_name(q),
        s.len() < q.len(),
        0 <= i <= s.len(),
    ensures
        !filter_run(q.push('*'), s, i, i, None),
        !starts_with(s, q),
    decreases s.len() - i,
{
    assert(q.len() > s.len());
    let p = q.push('*');
    assert(p[i] == q[i]);
    assert(q[i] != '*' && q[i] != '?' && q[i] != '[');
    if i < s.len() && q[i] == s[i] {
        lemma_prefix_short(q, s, i + 1);
    } else if i >= s.len() {
        assert(skip_stars(p, i) == i);
    }
}


/// A filter pattern with no `*` and no `[`: literal characters and `?`.
pub open spec fn is_star_free(p: Seq<char>) -> bool {
    forall|k: int| 0 <= k < p.len() ==> #[trigger] p[k] != '*' && p[k] != '['
}

/// Whether `s` has the length of `p` and, wherever `p` is not `?`, its
/// characters.
pub open spec fn fits_positions(p: Seq<char>, s: Seq<char>) -> bool {
    &&& p.len() == s.len()
    &&& forall|k: int| 0 <= k < p.len() ==> (#[trigger] p[k]) == '?' || p[k] == s[k]
}

/// Lemma: a star-free scan from position `i` of both accepts exactly when
/// the rests fit position by position.
proof fn lemma_star_free_run(p: Seq<char>, s: Seq<char>, i: int)
    requires
        is_star_free(p),
        0 <= i <= p.len(),
        i <= s.len(),
    ensures
        filter_run(p, s, i, i, None) == fits_positions(p.skip(i), s.skip(i)),
    decreases s.len() - i,
{
    let a = p.skip(i);
    let b = s.skip(i);
    if i >= s.len() {
        if i < p.len() {
            assert(p[i] != '*');
            assert(a.len() > 0 && b.len() == 0);
        } else {
            assert(a.len() == 0 && b.len() == 0);
        }
    } else if i >= p.len() {
        assert(a.len() == 0 && b.len() > 0);
    } else {
        assert(p[i] != '*' && p[i] != '[');
        assert(a[0] == p[i] && b[0] == s[i]);
        if p[i] == '?' || p[i] == s[i] {
            lemma_star_free_run(p, s, i + 1);
            let a1 = p.skip(i + 1);
            let b1 = s.skip(i + 1);
            if fits_positions(a, b) {
                assert forall|k: int| 0 <= k < a1.len() implies (#[trigger] a1[k]) == '?' || a1[k] == b1[k] by {
                    assert(a[k + 1] == '?' || a[k + 1] == b[k + 1]);
                }
            }
            if fits_positions(a1, b1) {
                assert forall|k: int| 0 <= k < a.len() implies (#[trigger] a[k]) == '?' || a[k] == b[k] by {
                    if k > 0 {
                        assert(a1[k - 1] == '?' || a1[k - 1] == b1[k - 1]);
                    }
                }
            }
        } else {
            if a.len() == b.len() {
                assert(!(a[0] == '?' || a[0] == b[0]));
            }
        }
    }
}

/// Law: a filter pattern without `*` or classes matches exactly the names
/// of its length that agree with it wherever it is not `?`; `?` stands for
/// any one character.
pub proof fn law_star_free_filter(p: Seq<char>, s: Seq<char>)
    requires
        is_star_free(p),
    ensures
        filter_glob_matches(p, s) == fits_positions(p, s),
{
    if s.len() >= p.len() {
        lemma_star_free_run(p, s, 0);
        assert(p.skip(0) =~= p);
        assert(s.skip(0) =~= s);
    } else {
        lemma_star_free_short(p, s, 0);
    }
}

/// Lemma: a star-free pattern longer than the input never matches it.
proof fn lemma_star_free_short(p: Seq<char>, s: Seq<char>, i: int)
    requires
        is_star_free(p),
        s.len() < p.len(),
        0 <= i <= s.len(),
    ensures
        !filter_run(p, s, i, i, None),
    decreases s.len() - i,
{
    assert(p[i] != '*' && p[i] != '[');
    if i < s.len() && (p[i] == '?' || p[i] == s[i]) {
        lemma_star_free_short(p, s, i + 1);
    } else if i >= s.len() {
        assert(skip_stars(p, i) == i);
    }
}


/// The scan after crossing the star at `sp` from input position `si`, with
/// the literal stretch `p[sp+1..pi]` fitting `s[si..ii]`, accepts exactly
/// when the pattern after the star matches from some position from `si`
/// on.
proof fn lemma_run_with_star(p: Seq<char>, s: Seq<char>, pi: int, ii: int, sp: int, si: int)
    requires
        class_free(p),
        0 <= sp < pi <= p.len(),
        p[sp] == '*',
        0 <= si <= ii <= s.len(),
        pi - (sp + 1) == ii - si,
        literal_fit(p, s, sp + 1, si, pi - (sp + 1)),
    ensures
        filter_run(p, s, pi, ii, Some((sp, si))) == matches_from_some(p, s, sp + 1, si),
    decreases star_measure(s, Some((sp, si))), s.len() - ii, p.len() - pi,
{
    let n = pi - (sp + 1);
    lemma_fit_skip(p, s, sp + 1, si, n);
    if ii >= s.len() {
        lemma_language_at_end(p, s, pi);
        if matches_from_some(p, s, sp + 1, si) {
            let k = choose|k: int| si <= k <= s.len() && #[trigger] glob_language(p, s, sp + 1, k);
            if k > si {
                assert forall|t: int| 0 <= t < n implies #[trigger] p[sp + 1 + t] != '*' by {}
                lemma_needs_length(p, s, sp + 1, k, n);
            }
        }
        if skip_stars(p, pi) == p.len() {
            assert(glob_language(p, s, sp + 1, si));
        }
    } else if pi < p.len() && p[pi] == '*' {
        assert(p[pi] != '[');
        assert(literal_fit(p, s, pi + 1, ii, 0));
        lemma_run_with_star(p, s, pi + 1, ii, pi, ii);
        lemma_star_some(p, s, pi, ii);
        lemma_star_after_fit(p, s, sp + 1, si, n);
    } else if pi < p.len() && (p[pi] == '?' || p[pi] == s[ii]) {
        assert(p[pi] != '[');
        assert(literal_fit(p, s, sp + 1, si, n + 1)) by {
            assert forall|t: int| 0 <= t < n + 1 implies #[trigger] p[sp + 1 + t] != '*' && (p[sp + 1 + t] == '?'
                || p[sp + 1 + t] == s[si + t]) by {
                if t < n {
                    assert(p[sp + 1 + t] != '*');
                }
            }
        }
        lemma_run_with_star(p, s, pi + 1, ii + 1, sp, si);
    } else {
        if pi < p.len() {
            assert(p[pi] != '[');
        }
        assert(!glob_language(p, s, pi, ii));
        assert(literal_fit(p, s, sp + 1, si + 1, 0));
        lemma_run_with_star(p, s, sp + 1, si + 1, sp, si + 1);
        if matches_from_some(p, s, sp + 1, si) {
            let k = choose|k: int| si <= k <= s.len() && #[trigger] glob_language(p, s, sp + 1, k);
            assert(k != si);
            assert(matches_from_some(p, s, sp + 1, si + 1));
        }
        if matches_from_some(p, s, sp + 1, si + 1) {
            let k = choose|k: int| si + 1 <= k <= s.len() && #[trigger] glob_language(p, s, sp + 1, k);
            assert(matches_from_some(p, s, sp + 1, si));
        }
    }
}

/// The scan before any star is crossed decides the pattern's language.
proof fn lemma_run_without_star(p: Seq<char>, s: Seq<char>, pi: int, ii: int)
    requires
        class_free(p),
        0 <= pi <= p.len(),
        0 <= ii <= s.len(),
    ensures
        filter_run(p, s, pi, ii, None) == glob_language(p, s, pi, ii),
    decreases s.len() - ii, p.len() - pi,
{
    if ii >= s.len() {
        lemma_language_at_end(p, s, pi);
    } else if pi < p.len() && p[pi] == '*' {
        assert(p[pi] != '[');
        assert(literal_fit(p, s, pi + 1, ii, 0));
        lemma_run_with_star(p, s, pi + 1, ii, pi, ii);
        lemma_star_some(p, s, pi, ii);
    } else if pi < p.len() && (p[pi] == '?' || p[pi] == s[ii]) {
        assert(p[pi] != '[');
        lemma_run_without_star(p, s, pi + 1, ii + 1);
    } else {
        if pi < p.len() {
            assert(p[pi] != '[');
        }
    }
}

/// Law: a tool-filter pattern without character classes matches exactly
/// the names in its language: `*` stands for any run of characters (none
/// included, a literal `*` included), `?` for any one character, and any
/// other character for itself.
pub proof fn law_filter_matches_its_language(p: Seq<char>, s: Seq<char>)
    requires
        class_free(p),
    ensures
        filter_glob_matches(p, s) == glob_language(p, s, 0, 0),
{
    lemma_run_without_star(p, s, 0, 0);
}

} // verus!
