//! Glob matching for permission patterns: `*`, `**`, `?`, `[abc]`,
//! `[!a-z]` / `[^a-z]`, and one level of `{a,b}` alternation.
//!
//! The matcher is a single left-to-right scan that remembers the last star
//! it crossed and backtracks to it on a mismatch. Its meaning is stated by
//! [`glob_run`], one step of the scan per unfolding.
use vstd::prelude::*;

use crate::text::{chars_of, string_of};

verus! {

// ── Specification ─────────────────────────────────────────────────

/// A path separator, skipped after `**`.
pub open spec fn is_sep(c: char) -> bool {
    c == '/' || c == '\\'
}

/// Scans the members of a character class starting at `i` (just past `[`
/// and the optional negation mark), accumulating whether `ch` is a member.
/// Yields the membership and the index just past the closing `]`, or
/// `None` when the class never closes.
pub open spec fn class_scan(pat: Seq<char>, i: int, ch: char, matched: bool) -> Option<(bool, int)>
    decreases pat.len() - i,
{
    if i < 0 || i >= pat.len() {
        None
    } else if pat[i] == ']' {
        Some((matched, i + 1))
    } else if i + 2 < pat.len() && pat[i + 1] == '-' && pat[i + 2] != ']' {
        class_scan(pat, i + 3, ch, matched || (pat[i] <= ch && ch <= pat[i + 2]))
    } else {
        class_scan(pat, i + 1, ch, matched || pat[i] == ch)
    }
}

/// Whether a class at `pi` starts with a negation mark (`!` or `^`).
pub open spec fn class_negated(pat: Seq<char>, pi: int) -> bool {
    pi + 1 < pat.len() && (pat[pi + 1] == '!' || pat[pi + 1] == '^')
}

/// The character class at `pi` tested against `ch`: `None` when `pat[pi]`
/// is not `[` or the class is unclosed, else whether `ch` is accepted and
/// the index just past `]`.
pub open spec fn char_class(pat: Seq<char>, pi: int, ch: char) -> Option<(bool, int)> {
    if pi < 0 || pi >= pat.len() || pat[pi] != '[' {
        None
    } else {
        let neg = class_negated(pat, pi);
        let start = if neg { pi + 2 } else { pi + 1 };
        match class_scan(pat, start, ch, false) {
            Some((m, e)) => Some((if neg { !m } else { m }, e)),
            None => None,
        }
    }
}

/// Index after skipping every `*` from `pi` on.
pub open spec fn skip_stars(pat: Seq<char>, pi: int) -> int
    decreases pat.len() - pi,
{
    if 0 <= pi < pat.len() && pat[pi] == '*' {
        skip_stars(pat, pi + 1)
    } else {
        pi
    }
}

/// Position after `**` (which ends at `p`), skipping one separator.
pub open spec fn after_double(pat: Seq<char>, p: int) -> int {
    if 0 <= p < pat.len() && is_sep(pat[p]) {
        p + 1
    } else {
        p
    }
}

/// Where the scan resumes in the pattern when it backtracks to the star at `sp`.
pub open spec fn resume_at(pat: Seq<char>, sp: int) -> int {
    if sp + 1 < pat.len() && pat[sp + 1] == '*' {
        after_double(pat, sp + 2)
    } else {
        sp + 1
    }
}

/// A well-formed scan state: positions in range, and the remembered star
/// (pattern index, input index) behind the current input position.
pub open spec fn state_wf(pat: Seq<char>, inp: Seq<char>, pi: int, ii: int, star: Option<(int, int)>) -> bool {
    &&& 0 <= pi <= pat.len()
    &&& 0 <= ii <= inp.len()
    &&& match star {
        Some((sp, si)) => 0 <= sp < pat.len() && 0 <= si <= ii,
        None => true,
    }
}

/// First component of the scan's termination measure.
pub open spec fn star_measure(inp: Seq<char>, star: Option<(int, int)>) -> int {
    match star {
        Some((sp, si)) => inp.len() - si,
        None => inp.len() + 1int,
    }
}

/// Lemma: a closed character class ends strictly after its start, within the pattern.
pub proof fn lemma_class_scan_bounds(pat: Seq<char>, i: int, ch: char, matched: bool)
    ensures
        class_scan(pat, i, ch, matched) matches Some((m, e)) ==> i < e <= pat.len(),
    decreases pat.len() - i,
{
    if i < 0 || i >= pat.len() {
    } else if pat[i] == ']' {
    } else if i + 2 < pat.len() && pat[i + 1] == '-' && pat[i + 2] != ']' {
        lemma_class_scan_bounds(pat, i + 3, ch, matched || (pat[i] <= ch && ch <= pat[i + 2]));
    } else {
        lemma_class_scan_bounds(pat, i + 1, ch, matched || pat[i] == ch);
    }
}

/// Lemma: a closed character class at `pi` ends past `pi`, within the pattern.
pub proof fn lemma_char_class_bounds(pat: Seq<char>, pi: int, ch: char)
    ensures
        char_class(pat, pi, ch) matches Some((m, e)) ==> pi < e <= pat.len(),
{
    if 0 <= pi < pat.len() && pat[pi] == '[' {
        let neg = class_negated(pat, pi);
        let start = if neg { pi + 2 } else { pi + 1 };
        lemma_class_scan_bounds(pat, start, ch, false);
    }
}

/// The glob scan, one step per unfolding, from pattern position `pi`,
/// input position `ii`, with the last star crossed (if any).
pub open spec fn glob_run(pat: Seq<char>, inp: Seq<char>, pi: int, ii: int, star: Option<(int, int)>) -> bool
    decreases star_measure(inp, star), inp.len() - ii, pat.len() - pi,
{
    if !state_wf(pat, inp, pi, ii, star) {
        false
    } else if ii >= inp.len() {
        skip_stars(pat, pi) == pat.len()
    } else if pi < pat.len() && pat[pi] == '[' {
        proof {
            lemma_char_class_bounds(pat, pi, inp[ii]);
        }
        match char_class(pat, pi, inp[ii]) {
            Some((true, e)) => glob_run(pat, inp, e, ii + 1, star),
            _ => match star {
                Some((sp, si)) => glob_run(pat, inp, sp + 1, si + 1, Some((sp, si + 1))),
                None => false,
            },
        }
    } else if pi < pat.len() && pat.len() - pi > 1 && pat[pi] == '*' && pat[pi + 1] == '*' {
        glob_run(pat, inp, after_double(pat, pi + 2), ii, Some((pi, ii)))
    } else if pi < pat.len() && pat[pi] == '*' {
        glob_run(pat, inp, pi + 1, ii, Some((pi, ii)))
    } else if pi < pat.len() && (pat[pi] == '?' || pat[pi] == inp[ii]) {
        glob_run(pat, inp, pi + 1, ii + 1, star)
    } else {
        match star {
            Some((sp, si)) => glob_run(pat, inp, resume_at(pat, sp), si + 1, Some((sp, si + 1))),
            None => false,
        }
    }
}

/// Whether one brace-free glob alternative matches the whole input.
pub open spec fn glob_matches(pat: Seq<char>, inp: Seq<char>) -> bool {
    glob_run(pat, inp, 0, 0, None)
}

// ── Brace expansion (specification) ───────────────────────────────

/// Index of the first occurrence of `c` at or after `i`.
pub open spec fn find_char(s: Seq<char>, c: char, i: int) -> Option<int>
    decreases s.len() - i,
{
    if i < 0 || i >= s.len() {
        None
    } else if s[i] == c {
        Some(i)
    } else {
        find_char(s, c, i + 1)
    }
}

/// Index of the `}` that brings the brace depth back to zero, scanning
/// from `i` with the given depth.
pub open spec fn matching_close(s: Seq<char>, i: int, depth: int) -> Option<int>
    decreases s.len() - i,
{
    if i < 0 || i >= s.len() {
        None
    } else if s[i] == '{' {
        matching_close(s, i + 1, depth + 1)
    } else if s[i] == '}' {
        if depth - 1 == 0 {
            Some(i)
        } else {
            matching_close(s, i + 1, depth - 1)
        }
    } else {
        matching_close(s, i + 1, depth)
    }
}

/// Splits `inner` at the commas that stand at brace depth zero; `cur` is
/// the alternative being built and `acc` the ones already finished.
pub open spec fn split_alternatives(inner: Seq<char>, d: int, cur: Seq<char>, acc: Seq<Seq<char>>) -> Seq<Seq<char>>
    decreases inner.len(),
{
    if inner.len() == 0 {
        acc.push(cur)
    } else {
        let c = inner[0];
        let rest = inner.drop_first();
        if c == '{' {
            split_alternatives(rest, d + 1, cur.push(c), acc)
        } else if c == '}' {
            split_alternatives(rest, d - 1, cur.push(c), acc)
        } else if c == ',' && d == 0 {
            split_alternatives(rest, d, Seq::empty(), acc.push(cur))
        } else {
            split_alternatives(rest, d, cur.push(c), acc)
        }
    }
}

/// The alternatives a pattern stands for: the first `{…}` group (matched
/// by depth) is replaced by each of its top-level comma-separated parts;
/// without a closed group the pattern stands for itself.
pub open spec fn expand_spec(p: Seq<char>) -> Seq<Seq<char>> {
    match find_char(p, '{', 0) {
        None => seq![p],
        Some(open) => match matching_close(p, open, 0) {
            None => seq![p],
            Some(close) => {
                let alts = split_alternatives(p.subrange(open + 1, close), 0, Seq::empty(), Seq::empty());
                let prefix = p.subrange(0, open);
                let suffix = p.subrange(close + 1, p.len() as int);
                alts.map_values(|a: Seq<char>| prefix + a + suffix)
            },
        },
    }
}

/// Whether a full pattern (with braces) matches the input: some
/// alternative of its expansion matches.
pub open spec fn pattern_matches(p: Seq<char>, inp: Seq<char>) -> bool {
    exists|k: int| 0 <= k < expand_spec(p).len() && glob_matches(#[trigger] expand_spec(p)[k], inp)
}

// ── Executable matcher ────────────────────────────────────────────

/// Tests the character class at `pi` against `ch` (see [`char_class`]).
pub fn match_char_class(pat: &[char], pi: usize, ch: char) -> (r: Option<(bool, usize)>)
    ensures
        match char_class(pat@, pi as int, ch) {
            Some((m, e)) => r == Some((m, e as usize)),
            None => r is None,
        },
{
    proof {
        lemma_char_class_bounds(pat@, pi as int, ch);
    }
    if pi >= pat.len() || pat[pi] != '[' {
        return None;
    }
    let mut i = pi + 1;
    let negated = i < pat.len() && (pat[i] == '!' || pat[i] == '^');
    if negated {
        i += 1;
    }
    let ghost start = i as int;
    let mut matched = false;
    while i < pat.len() && pat[i] != ']'
        invariant
            start <= i,
            i <= pat.len() + 2,
            class_scan(pat@, start, ch, false) == class_scan(pat@, i as int, ch, matched),
        decreases pat.len() + 3 - i,
    {
        if pat.len() - i > 2 && pat[i + 1] == '-' && pat[i + 2] != ']' {
            let lo = pat[i];
            let hi = pat[i + 2];
            if ch >= lo && ch <= hi {
                matched = true;
            }
            i += 3;
        } else {
            if pat[i] == ch {
                matched = true;
            }
            i += 1;
        }
    }
    if i < pat.len() && pat[i] == ']' {
        if negated {
            matched = !matched;
        }
        Some((matched, i + 1))
    } else {
        None
    }
}

/// Runs the scan from `(pi, ii)` with no star crossed yet.
pub fn do_match(pat: &[char], pi: usize, inp: &[char], ii: usize) -> (r: bool)
    requires
        pi <= pat.len(),
        ii <= inp.len(),
    ensures
        r == glob_run(pat@, inp@, pi as int, ii as int, None),
{
    let ghost p = pat@;
    let ghost s = inp@;
    let mut i_pat = pi;
    let mut i_inp = ii;
    let mut star_pat: usize = usize::MAX;
    let mut star_inp: usize = usize::MAX;
    let ghost goal = glob_run(p, s, pi as int, ii as int, None);
    while i_inp < inp.len()
        invariant
            p == pat@,
            s == inp@,
            star_pat == usize::MAX ==> star_inp == usize::MAX,
            state_wf(p, s, i_pat as int, i_inp as int, cur_star(star_pat, star_inp)),
            glob_run(p, s, i_pat as int, i_inp as int, cur_star(star_pat, star_inp)) == goal,
            goal == glob_run(pat@, inp@, pi as int, ii as int, None),
        decreases star_measure(s, cur_star(star_pat, star_inp)), s.len() - i_inp, p.len() - i_pat,
    {
        if i_pat < pat.len() && pat[i_pat] == '[' {
            let cls = match_char_class(pat, i_pat, inp[i_inp]);
            proof {
                lemma_char_class_bounds(p, i_pat as int, s[i_inp as int]);
            }
            if let Some((matched, end)) = cls {
                if matched {
                    i_pat = end;
                    i_inp += 1;
                    continue;
                }
            }
            if star_pat != usize::MAX {
                i_pat = star_pat + 1;
                star_inp += 1;
                i_inp = star_inp;
                continue;
            }
            assert(glob_run(p, s, i_pat as int, i_inp as int, cur_star(star_pat, star_inp)) == false);
            return false;
        }
        if i_pat < pat.len() && pat.len() - i_pat > 1 && pat[i_pat] == '*' && pat[i_pat + 1] == '*' {
            star_pat = i_pat;
            star_inp = i_inp;
            i_pat += 2;
            if i_pat < pat.len() && (pat[i_pat] == '/' || pat[i_pat] == '\\') {
                i_pat += 1;
            }
            continue;
        }
        if i_pat < pat.len() && pat[i_pat] == '*' {
            star_pat = i_pat;
            star_inp = i_inp;
            i_pat += 1;
            continue;
        }
        if i_pat < pat.len() && pat[i_pat] == '?' {
            i_pat += 1;
            i_inp += 1;
            continue;
        }
        if i_pat < pat.len() && pat[i_pat] == inp[i_inp] {
            i_pat += 1;
            i_inp += 1;
            continue;
        }
        if star_pat != usize::MAX {
            i_pat = star_pat + 1;
            if pat.len() - star_pat > 1 && pat[star_pat + 1] == '*' {
                i_pat = star_pat + 2;
                if i_pat < pat.len() && (pat[i_pat] == '/' || pat[i_pat] == '\\') {
                    i_pat += 1;
                }
            }
            star_inp += 1;
            i_inp = star_inp;
            continue;
        }
        assert(glob_run(p, s, i_pat as int, i_inp as int, cur_star(star_pat, star_inp)) == false);
        return false;
    }
    let ghost pi0 = i_pat as int;
    while i_pat < pat.len() && pat[i_pat] == '*'
        invariant
            pi0 <= i_pat <= pat.len(),
            skip_stars(p, pi0) == skip_stars(p, i_pat as int),
            p == pat@,
        decreases pat.len() - i_pat,
    {
        i_pat += 1;
    }
    i_pat == pat.len()
}

/// The remembered star as the specification sees it.
pub open spec fn cur_star(star_pat: usize, star_inp: usize) -> Option<(int, int)> {
    if star_pat == usize::MAX {
        None
    } else {
        Some((star_pat as int, star_inp as int))
    }
}

/// Matches one brace-free glob alternative against the whole input.
pub fn glob_match(pattern: &str, input: &str) -> (r: bool)
    ensures
        r == glob_matches(pattern@, input@),
{
    let pat = chars_of(pattern);
    let inp = chars_of(input);
    do_match(pat.as_slice(), 0, inp.as_slice(), 0)
}

// ── Executable brace expansion ────────────────────────────────────

/// The views of a list of character vectors.
pub open spec fn views_of(v: Seq<Vec<char>>) -> Seq<Seq<char>> {
    v.map_values(|x: Vec<char>| x@)
}

/// The views of a list of strings.
pub open spec fn string_views(v: Seq<String>) -> Seq<Seq<char>> {
    v.map_values(|x: String| x@)
}

/// Position of the first `{`, if any.
fn find_open(chars: &[char]) -> (r: Option<usize>)
    ensures
        match find_char(chars@, '{', 0) {
            Some(i) => r == Some(i as usize),
            None => r is None,
        },
{
    let mut i: usize = 0;
    while i < chars.len()
        invariant
            i <= chars.len(),
            find_char(chars@, '{', 0) == find_char(chars@, '{', i as int),
        decreases chars.len() - i,
    {
        if chars[i] == '{' {
            return Some(i);
        }
        i += 1;
    }
    None
}

/// Position of the `}` matching the `{` at `open`, if any.
fn find_close(chars: &[char], open: usize) -> (r: Option<usize>)
    requires
        open < chars.len(),
        chars@[open as int] == '{',
    ensures
        r matches Some(c) ==> matching_close(chars@, open as int, 0) == Some(c as int) && open < c
            < chars.len(),
        r is None ==> matching_close(chars@, open as int, 0) is None,
{
    let mut depth: usize = 1;
    let mut i: usize = open + 1;
    while i < chars.len()
        invariant
            open < i <= chars.len(),
            1 <= depth <= i - open,
            matching_close(chars@, open as int, 0) == matching_close(chars@, i as int, depth as int),
        decreases chars.len() - i,
    {
        let c = chars[i];
        if c == '{' {
            depth += 1;
        } else if c == '}' {
            if depth - 1 == 0 {
                return Some(i);
            }
            depth -= 1;
        }
        i += 1;
    }
    None
}

/// Splits the inside of a brace group at its top-level commas.
fn split_top_level(inner: &[char]) -> (r: Vec<Vec<char>>)
    ensures
        views_of(r@) == split_alternatives(inner@, 0, Seq::empty(), Seq::empty()),
{
    let mut alternatives: Vec<Vec<char>> = Vec::new();
    let mut current: Vec<char> = Vec::new();
    let mut opens: usize = 0;
    let mut closes: usize = 0;
    let mut k: usize = 0;
    proof {
        assert(inner@.skip(0) =~= inner@);
        assert(views_of(alternatives@) =~= Seq::<Seq<char>>::empty());
    }
    while k < inner.len()
        invariant
            k <= inner.len(),
            opens <= k,
            closes <= k,
            split_alternatives(inner@, 0, Seq::empty(), Seq::empty()) == split_alternatives(
                inner@.skip(k as int),
                opens - closes,
                current@,
                views_of(alternatives@),
            ),
        decreases inner.len() - k,
    {
        let c = inner[k];
        proof {
            assert(inner@.skip(k as int).drop_first() =~= inner@.skip(k + 1));
            assert(inner@.skip(k as int)[0] == c);
        }
        if c == '{' {
            opens += 1;
            current.push(c);
        } else if c == '}' {
            closes += 1;
            current.push(c);
        } else if c == ',' && opens == closes {
            let ghost before = views_of(alternatives@);
            let done = current;
            alternatives.push(done);
            current = Vec::new();
            proof {
                assert(views_of(alternatives@) =~= before.push(done@));
                assert(current@ =~= Seq::<char>::empty());
            }
        } else {
            current.push(c);
        }
        k += 1;
    }
    let ghost before = views_of(alternatives@);
    alternatives.push(current);
    proof {
        assert(inner@.skip(k as int) =~= Seq::<char>::empty());
        assert(views_of(alternatives@) =~= before.push(current@));
    }
    alternatives
}

/// Expands the first `{a,b,...}` group of a pattern into one pattern per
/// alternative; a pattern without a closed group expands to itself.
pub fn expand_braces(pattern: &str) -> (r: Vec<String>)
    ensures
        string_views(r@) == expand_spec(pattern@),
{
    let chars = chars_of(pattern);
    let open = match find_open(chars.as_slice()) {
        Some(o) => o,
        None => {
            let only = string_of(chars.as_slice());
            let mut r: Vec<String> = Vec::new();
            r.push(only);
            proof {
                assert(string_views(r@) =~= seq![pattern@]);
            }
            return r;
        },
    };
    proof {
        lemma_find_char_bounds(chars@, '{', 0);
    }
    let close = match find_close(chars.as_slice(), open) {
        Some(c) => c,
        None => {
            let only = string_of(chars.as_slice());
            let mut r: Vec<String> = Vec::new();
            r.push(only);
            proof {
                assert(string_views(r@) =~= seq![pattern@]);
            }
            return r;
        },
    };
    proof {
        assert(matching_close(chars@, open as int, 0) == Some(close as int));
        assert(open + 1 <= close && close < chars.len());
    }
    let inner = slice_range(chars.as_slice(), open + 1, close);
    let alts = split_top_level(inner.as_slice());
    let prefix = slice_range(chars.as_slice(), 0, open);
    let suffix = slice_range(chars.as_slice(), close + 1, chars.len());
    let ghost spec_alts = split_alternatives(chars@.subrange(open + 1, close as int), 0, Seq::empty(), Seq::empty());
    let ghost pre = chars@.subrange(0, open as int);
    let ghost suf = chars@.subrange(close + 1, chars@.len() as int);
    let mut out: Vec<String> = Vec::new();
    let mut j: usize = 0;
    while j < alts.len()
        invariant
            j <= alts.len(),
            views_of(alts@) == spec_alts,
            prefix@ == pre,
            suffix@ == suf,
            string_views(out@) =~= spec_alts.take(j as int).map_values(|a: Seq<char>| pre + a + suf),
        decreases alts.len() - j,
    {
        let mut whole: Vec<char> = Vec::new();
        append_chars(&mut whole, prefix.as_slice());
        append_chars(&mut whole, alts[j].as_slice());
        append_chars(&mut whole, suffix.as_slice());
        let ghost before = string_views(out@);
        out.push(string_of(whole.as_slice()));
        proof {
            assert(views_of(alts@)[j as int] == alts@[j as int]@);
            assert(spec_alts.take(j + 1) =~= spec_alts.take(j as int).push(spec_alts[j as int]));
            assert(string_views(out@) =~= before.push(pre + spec_alts[j as int] + suf));
        }
        j += 1;
    }
    proof {
        assert(spec_alts.take(j as int) =~= spec_alts);
    }
    out
}

/// Lemma: a found character lies in range and is the one sought.
pub proof fn lemma_find_char_bounds(s: Seq<char>, c: char, i: int)
    ensures
        find_char(s, c, i) matches Some(k) ==> i <= k < s.len() && s[k] == c,
    decreases s.len() - i,
{
    if i < 0 || i >= s.len() {
    } else if s[i] == c {
    } else {
        lemma_find_char_bounds(s, c, i + 1);
    }
}

/// Lemma: a matched closing brace lies after the start, within the sequence.
pub proof fn lemma_matching_close_bounds(s: Seq<char>, i: int, depth: int)
    ensures
        matching_close(s, i, depth) matches Some(c) ==> i <= c < s.len(),
    decreases s.len() - i,
{
    if i < 0 || i >= s.len() {
    } else if s[i] == '{' {
        lemma_matching_close_bounds(s, i + 1, depth + 1);
    } else if s[i] == '}' {
        if depth - 1 != 0 {
            lemma_matching_close_bounds(s, i + 1, depth - 1);
        }
    } else {
        lemma_matching_close_bounds(s, i + 1, depth);
    }
}

/// Copies `v[from..to]`.
fn slice_range(v: &[char], from: usize, to: usize) -> (r: Vec<char>)
    requires
        from <= to <= v.len(),
    ensures
        r@ == v@.subrange(from as int, to as int),
{
    let mut r: Vec<char> = Vec::new();
    let mut i = from;
    while i < to
        invariant
            from <= i <= to,
            to <= v.len(),
            r@ == v@.subrange(from as int, i as int),
        decreases to - i,
    {
        r.push(v[i]);
        proof {
            assert(v@.subrange(from as int, i + 1) =~= v@.subrange(from as int, i as int).push(v@[i as int]));
        }
        i += 1;
    }
    r
}

/// Appends all of `src` to `dst`.
fn append_chars(dst: &mut Vec<char>, src: &[char])
    ensures
        final(dst)@ == old(dst)@ + src@,
{
    let ghost start = dst@;
    let mut i: usize = 0;
    while i < src.len()
        invariant
            i <= src.len(),
            dst@ == start + src@.subrange(0, i as int),
        decreases src.len() - i,
    {
        dst.push(src[i]);
        proof {
            assert(src@.subrange(0, i + 1) =~= src@.subrange(0, i as int).push(src@[i as int]));
        }
        i += 1;
    }
    proof {
        assert(src@.subrange(0, i as int) =~= src@);
    }
}

// ── GlobMatcher ───────────────────────────────────────────────────

/// A compiled glob pattern: the original text and its brace expansion.
#[derive(Debug)]
pub struct GlobMatcher {
    pattern: String,
    alternatives: Vec<String>,
}

impl View for GlobMatcher {
    type V = Seq<char>;

    /// A matcher stands for its pattern text.
    closed spec fn view(&self) -> Seq<char> {
        self.pattern@
    }
}

impl GlobMatcher {
    /// The stored alternatives are the brace expansion of the pattern.
    #[verifier::type_invariant]
    spec fn expansion_holds(&self) -> bool {
        string_views(self.alternatives@) == expand_spec(self.pattern@)
    }

    /// Compiles a glob pattern.
    pub fn new(pattern: &str) -> (m: Self)
        ensures
            m@ == pattern@,
    {
        let alternatives = expand_braces(pattern);
        GlobMatcher { pattern: pattern.to_string(), alternatives }
    }

    /// The original pattern string.
    pub fn pattern(&self) -> (r: &str)
        ensures
            r@ == self@,
    {
        self.pattern.as_str()
    }

    /// Whether `input` matches some alternative of the pattern.
    pub fn is_match(&self, input: &str) -> (r: bool)
        ensures
            r == pattern_matches(self@, input@),
    {
        proof {
            use_type_invariant(self);
        }
        let mut k: usize = 0;
        while k < self.alternatives.len()
            invariant
                k <= self.alternatives.len(),
                string_views(self.alternatives@) == expand_spec(self@),
                forall|j: int| 0 <= j < k ==> !glob_matches(#[trigger] expand_spec(self@)[j], input@),
            decreases self.alternatives.len() - k,
        {
            if glob_match(self.alternatives[k].as_str(), input) {
                proof {
                    assert(string_views(self.alternatives@)[k as int] == self.alternatives@[k as int]@);
                }
                return true;
            }
            proof {
                assert(string_views(self.alternatives@)[k as int] == self.alternatives@[k as int]@);
            }
            k += 1;
        }
        false
    }

    /// A copy of this matcher.
    pub fn duplicate(&self) -> (r: Self)
        ensures
            r@ == self@,
    {
        GlobMatcher::new(self.pattern.as_str())
    }
}

impl Clone for GlobMatcher {
    fn clone(&self) -> (r: Self)
        ensures
            r@ == self@,
    {
        self.duplicate()
    }
}

// ── GlobSet ───────────────────────────────────────────────────────

/// Whether any pattern of the list matches the input.
pub open spec fn any_pattern_matches(pats: Seq<Seq<char>>, inp: Seq<char>) -> bool {
    exists|k: int| 0 <= k < pats.len() && pattern_matches(#[trigger] pats[k], inp)
}

/// The patterns among the first `n` of the list that match the input, in order.
pub open spec fn matching_prefix(pats: Seq<Seq<char>>, inp: Seq<char>, n: int) -> Seq<Seq<char>>
    decreases n,
{
    if n <= 0 {
        Seq::empty()
    } else if pattern_matches(pats[n - 1], inp) {
        matching_prefix(pats, inp, n - 1).push(pats[n - 1])
    } else {
        matching_prefix(pats, inp, n - 1)
    }
}

/// A set of glob patterns; matches when any of them does.
#[derive(Debug)]
pub struct GlobSet {
    matchers: Vec<GlobMatcher>,
}

impl View for GlobSet {
    type V = Seq<Seq<char>>;

    /// A set stands for its patterns, in insertion order.
    closed spec fn view(&self) -> Seq<Seq<char>> {
        self.matchers@.map_values(|m: GlobMatcher| m@)
    }
}

impl GlobSet {
    /// An empty set.
    pub fn new() -> (r: Self)
        ensures
            r@ == Seq::<Seq<char>>::empty(),
    {
        let r = GlobSet { matchers: Vec::new() };
        proof {
            assert(r@ =~= Seq::<Seq<char>>::empty());
        }
        r
    }

    /// Adds a pattern at the end.
    pub fn add(&mut self, pattern: &str)
        ensures
            final(self)@ == old(self)@.push(pattern@),
    {
        let m = GlobMatcher::new(pattern);
        self.matchers.push(m);
        proof {
            assert(self@ =~= old(self)@.push(pattern@));
        }
    }

    /// A set holding the given patterns, in order.
    pub fn from_patterns(patterns: &[&str]) -> (r: Self)
        ensures
            r@ == patterns@.map_values(|p: &str| p@),
    {
        let mut r = GlobSet::new();
        let mut i: usize = 0;
        while i < patterns.len()
            invariant
                i <= patterns.len(),
                r@ =~= patterns@.take(i as int).map_values(|p: &str| p@),
            decreases patterns.len() - i,
        {
            r.add(patterns[i]);
            proof {
                assert(patterns@.take(i + 1) =~= patterns@.take(i as int).push(patterns@[i as int]));
            }
            i += 1;
        }
        proof {
            assert(patterns@.take(i as int) =~= patterns@);
        }
        r
    }

    /// Whether any pattern matches `input`.
    pub fn is_match(&self, input: &str) -> (r: bool)
        ensures
            r == any_pattern_matches(self@, input@),
    {
        let mut k: usize = 0;
        while k < self.matchers.len()
            invariant
                k <= self.matchers.len(),
                forall|j: int| 0 <= j < k ==> !pattern_matches(#[trigger] self@[j], input@),
            decreases self.matchers.len() - k,
        {
            if self.matchers[k].is_match(input) {
                proof {
                    assert(self@[k as int] == self.matchers@[k as int]@);
                }
                return true;
            }
            k += 1;
        }
        false
    }

    /// The patterns that match `input`, in insertion order.
    pub fn matching_patterns(&self, input: &str) -> (r: Vec<&str>)
        ensures
            r@.map_values(|p: &str| p@) == matching_prefix(self@, input@, self@.len() as int),
    {
        let mut r: Vec<&str> = Vec::new();
        let mut k: usize = 0;
        while k < self.matchers.len()
            invariant
                k <= self.matchers.len(),
                r@.map_values(|p: &str| p@) =~= matching_prefix(self@, input@, k as int),
            decreases self.matchers.len() - k,
        {
            let m = &self.matchers[k];
            if m.is_match(input) {
                r.push(m.pattern());
            }
            k += 1;
        }
        r
    }

    /// Number of patterns.
    pub fn len(&self) -> (r: usize)
        ensures
            r == self@.len(),
    {
        self.matchers.len()
    }

    /// Whether the set holds no pattern.
    pub fn is_empty(&self) -> (r: bool)
        ensures
            r == (self@.len() == 0),
    {
        self.matchers.len() == 0
    }
}

impl Default for GlobSet {
    fn default() -> (r: Self)
        ensures
            r@ == Seq::<Seq<char>>::empty(),
    {
        GlobSet::new()
    }
}

// ── Laws ──────────────────────────────────────────────────────────

/// A pattern with no wildcard, class, or brace syntax.
pub open spec fn is_literal(p: Seq<char>) -> bool {
    forall|k: int| 0 <= k < p.len() ==> #[trigger] p[k] != '*' && p[k] != '?' && p[k] != '[' && p[k] != '{'
}

/// A non-empty pattern made only of `*`.
pub open spec fn is_all_stars(p: Seq<char>) -> bool {
    p.len() > 0 && forall|k: int| 0 <= k < p.len() ==> #[trigger] p[k] == '*'
}

/// Lemma: a character absent from a suffix is not found there.
pub proof fn lemma_find_char_absent(s: Seq<char>, c: char, i: int)
    requires
        0 <= i,
        forall|k: int| i <= k < s.len() ==> s[k] != c,
    ensures
        find_char(s, c, i) is None,
    decreases s.len() - i,
{
    if i < s.len() {
        lemma_find_char_absent(s, c, i + 1);
    }
}

/// Lemma: a pattern without `{` expands to itself alone.
pub proof fn lemma_no_brace_expands_to_itself(p: Seq<char>)
    requires
        forall|k: int| 0 <= k < p.len() ==> p[k] != '{',
    ensures
        expand_spec(p) == seq![p],
        forall|s: Seq<char>| pattern_matches(p, s) == glob_matches(p, s),
{
    lemma_find_char_absent(p, '{', 0);
    assert forall|s: Seq<char>| pattern_matches(p, s) == glob_matches(p, s) by {
        if glob_matches(p, s) {
            assert(expand_spec(p)[0] == p);
        }
    }
}

/// Lemma: from any in-range position, a literal pattern scan accepts
/// exactly when the rest of the pattern equals the rest of the input.
proof fn lemma_literal_run(p: Seq<char>, s: Seq<char>, pi: int, ii: int)
    requires
        is_literal(p),
        0 <= pi <= p.len(),
        0 <= ii <= s.len(),
    ensures
        glob_run(p, s, pi, ii, None) == (p.skip(pi) == s.skip(ii)),
    decreases s.len() - ii,
{
    if ii >= s.len() {
        assert(s.skip(ii) =~= Seq::<char>::empty());
        if pi < p.len() {
            assert(p[pi] != '*');
            assert(p.skip(pi).len() > 0);
        } else {
            assert(p.skip(pi) =~= Seq::<char>::empty());
        }
    } else {
        assert(s.skip(ii)[0] == s[ii]);
        if pi < p.len() {
            assert(p[pi] != '*' && p[pi] != '?' && p[pi] != '[');
            assert(p.skip(pi)[0] == p[pi]);
            if p[pi] == s[ii] {
                lemma_literal_run(p, s, pi + 1, ii + 1);
                assert(p.skip(pi) =~= seq![p[pi]] + p.skip(pi + 1));
                assert(s.skip(ii) =~= seq![s[ii]] + s.skip(ii + 1));
                if p.skip(pi) == s.skip(ii) {
                    assert(p.skip(pi + 1) =~= p.skip(pi).skip(1));
                    assert(s.skip(ii + 1) =~= s.skip(ii).skip(1));
                }
            } else {
                assert(p.skip(pi)[0] != s.skip(ii)[0]);
            }
        } else {
            assert(p.skip(pi).len() == 0);
            assert(s.skip(ii).len() > 0);
        }
    }
}

/// Law: a pattern with no glob syntax matches exactly the input equal to it.
pub proof fn law_literal_pattern_matches_only_itself(p: Seq<char>, s: Seq<char>)
    requires
        is_literal(p),
    ensures
        pattern_matches(p, s) <==> p == s,
{
    lemma_no_brace_expands_to_itself(p);
    lemma_literal_run(p, s, 0, 0);
    assert(p.skip(0) =~= p);
    assert(s.skip(0) =~= s);
}

/// Lemma: in an all-star pattern every position skips to the end.
proof fn lemma_skip_stars_all(p: Seq<char>, pi: int)
    requires
        forall|k: int| 0 <= k < p.len() ==> #[trigger] p[k] == '*',
        0 <= pi <= p.len(),
    ensures
        skip_stars(p, pi) == p.len(),
    decreases p.len() - pi,
{
    if pi < p.len() {
        lemma_skip_stars_all(p, pi + 1);
    }
}

/// Lemma: an all-star pattern scan accepts from every state that has
/// pattern left or a star behind it.
proof fn lemma_all_stars_run(p: Seq<char>, s: Seq<char>, pi: int, ii: int, star: Option<(int, int)>)
    requires
        is_all_stars(p),
        state_wf(p, s, pi, ii, star),
        pi < p.len() || star is Some,
    ensures
        glob_run(p, s, pi, ii, star),
    decreases star_measure(s, star), s.len() - ii, p.len() - pi,
{
    if ii >= s.len() {
        lemma_skip_stars_all(p, pi);
    } else if pi + 1 < p.len() && p[pi] == '*' && p[pi + 1] == '*' {
        assert(pi + 2 < p.len() ==> p[pi + 2] == '*');
        lemma_all_stars_run(p, s, after_double(p, pi + 2), ii, Some((pi, ii)));
    } else if pi < p.len() {
        assert(p[pi] == '*');
        lemma_all_stars_run(p, s, pi + 1, ii, Some((pi, ii)));
    } else {
        let (sp, si) = star.unwrap();
        assert(sp + 2 < p.len() ==> p[sp + 2] == '*');
        lemma_all_stars_run(p, s, resume_at(p, sp), si + 1, Some((sp, si + 1)));
    }
}

/// Law: a pattern made only of stars (`*`, `**`, ...) matches every input.
pub proof fn law_all_star_pattern_matches_everything(p: Seq<char>, s: Seq<char>)
    requires
        is_all_stars(p),
    ensures
        pattern_matches(p, s),
{
    lemma_no_brace_expands_to_itself(p);
    lemma_all_stars_run(p, s, 0, 0, None);
}

/// Law: the empty pattern matches only the empty input.
pub proof fn law_empty_pattern_matches_only_empty(s: Seq<char>)
    ensures
        pattern_matches(Seq::empty(), s) <==> s.len() == 0,
{
    law_literal_pattern_matches_only_itself(Seq::empty(), s);
    if s.len() == 0 {
        assert(s =~= Seq::<char>::empty());
    }
}

/// Law: adding a pattern to a set adds exactly the inputs it matches.
pub proof fn law_set_add_is_union(pats: Seq<Seq<char>>, p: Seq<char>, s: Seq<char>)
    ensures
        any_pattern_matches(pats.push(p), s) <==> (any_pattern_matches(pats, s) || pattern_matches(p, s)),
{
    if any_pattern_matches(pats, s) {
        let k = choose|k: int| 0 <= k < pats.len() && pattern_matches(#[trigger] pats[k], s);
        assert(pats.push(p)[k] == pats[k]);
    }
    if pattern_matches(p, s) {
        assert(pats.push(p)[pats.len() as int] == p);
    }
    if any_pattern_matches(pats.push(p), s) {
        let k = choose|k: int| 0 <= k < pats.len() + 1 && pattern_matches(#[trigger] pats.push(p)[k], s);
        if k < pats.len() {
            assert(pats.push(p)[k] == pats[k]);
        }
    }
}

/// Law: the patterns reported as matching are exactly the matching
/// members of the set (every reported one matches; every matching one is reported).
pub proof fn law_matching_patterns_sound_and_complete(pats: Seq<Seq<char>>, s: Seq<char>, n: int)
    requires
        0 <= n <= pats.len(),
    ensures
        forall|q: Seq<char>| matching_prefix(pats, s, n).contains(q) <==> (exists|k: int| 0 <= k < n && pats[k] == q && pattern_matches(q, s)),
    decreases n,
{
    if n > 0 {
        law_matching_patterns_sound_and_complete(pats, s, n - 1);
        let prev = matching_prefix(pats, s, n - 1);
        assert forall|q: Seq<char>| matching_prefix(pats, s, n).contains(q) <==> (exists|k: int| 0 <= k < n && pats[k] == q && pattern_matches(q, s)) by {
            let in_prev = exists|k: int| 0 <= k < n - 1 && pats[k] == q && pattern_matches(q, s);
            assert(prev.contains(q) == in_prev);
            if pattern_matches(pats[n - 1], s) {
                let cur = prev.push(pats[n - 1]);
                assert(matching_prefix(pats, s, n) == cur);
                if cur.contains(q) {
                    let j = choose|j: int| 0 <= j < cur.len() && cur[j] == q;
                    if j < prev.len() {
                        assert(prev[j] == q);
                        assert(prev.contains(q));
                        let k = choose|k: int| 0 <= k < n - 1 && pats[k] == q && pattern_matches(q, s);
                        assert(0 <= k < n && pats[k] == q && pattern_matches(q, s));
                    } else {
                        assert(0 <= n - 1 < n && pats[n - 1] == q && pattern_matches(q, s));
                    }
                }
                if exists|k: int| 0 <= k < n && pats[k] == q && pattern_matches(q, s) {
                    let k = choose|k: int| 0 <= k < n && pats[k] == q && pattern_matches(q, s);
                    if k == n - 1 {
                        assert(cur[prev.len() as int] == q);
                    } else {
                        assert(0 <= k < n - 1 && pats[k] == q && pattern_matches(q, s));
                        assert(prev.contains(q));
                        let j = choose|j: int| 0 <= j < prev.len() && prev[j] == q;
                        assert(cur[j] == q);
                    }
                    assert(cur.contains(q));
                }
            } else {
                assert(matching_prefix(pats, s, n) == prev);
                if prev.contains(q) {
                    let k = choose|k: int| 0 <= k < n - 1 && pats[k] == q && pattern_matches(q, s);
                    assert(0 <= k < n && pats[k] == q && pattern_matches(q, s));
                }
                if exists|k: int| 0 <= k < n && pats[k] == q && pattern_matches(q, s) {
                    let k = choose|k: int| 0 <= k < n && pats[k] == q && pattern_matches(q, s);
                    assert(k != n - 1);
                    assert(0 <= k < n - 1 && pats[k] == q && pattern_matches(q, s));
                }
            }
        }
    }
}

// ── The language of a pattern ─────────────────────────────────────

/// Whether the pattern from position `i` matches the input from position
/// `j`, as globbing defines it: `*` stands for any run of characters (none
/// included), `?` for any one character, and every other character for
/// itself.
pub open spec fn glob_language(p: Seq<char>, s: Seq<char>, i: int, j: int) -> bool
    decreases p.len() - i, s.len() - j,
{
    if i < 0 || j < 0 || i >= p.len() {
        i >= p.len() && j == s.len()
    } else if p[i] == '*' {
        glob_language(p, s, i + 1, j) || (j < s.len() && glob_language(p, s, i, j + 1))
    } else {
        j < s.len() && (p[i] == '?' || p[i] == s[j]) && glob_language(p, s, i + 1, j + 1)
    }
}

/// A pattern without character classes.
pub open spec fn class_free(p: Seq<char>) -> bool {
    forall|k: int| 0 <= k < p.len() ==> #[trigger] p[k] != '['
}

/// Whether some start from `j` on lets the pattern from `i` match.
pub open spec fn matches_from_some(p: Seq<char>, s: Seq<char>, i: int, j: int) -> bool {
    exists|k: int| j <= k <= s.len() && #[trigger] glob_language(p, s, i, k)
}

/// Whether `p[a..a+n]` holds no `*` and fits `s[b..b+n]` character by
/// character.
pub open spec fn literal_fit(p: Seq<char>, s: Seq<char>, a: int, b: int, n: int) -> bool {
    &&& 0 <= n
    &&& 0 <= a
    &&& 0 <= b
    &&& a + n <= p.len()
    &&& b + n <= s.len()
    &&& forall|t: int| 0 <= t < n ==> #[trigger] p[a + t] != '*' && (p[a + t] == '?' || p[a + t] == s[b + t])
}

/// A fitting literal stretch can be skipped on both sides.
pub proof fn lemma_fit_skip(p: Seq<char>, s: Seq<char>, a: int, b: int, n: int)
    requires
        literal_fit(p, s, a, b, n),
    ensures
        glob_language(p, s, a, b) == glob_language(p, s, a + n, b + n),
    decreases n,
{
    if n > 0 {
        assert(p[a + 0] != '*');
        assert(literal_fit(p, s, a + 1, b + 1, n - 1)) by {
            assert forall|t: int| 0 <= t < n - 1 implies #[trigger] p[a + 1 + t] != '*' && (p[a + 1 + t] == '?'
                || p[a + 1 + t] == s[b + 1 + t]) by {
                assert(p[a + (t + 1)] != '*');
            }
        }
        lemma_fit_skip(p, s, a + 1, b + 1, n - 1);
    }
}

/// A pattern stretch of `n` characters without `*` needs `n` characters
/// of input.
pub proof fn lemma_needs_length(p: Seq<char>, s: Seq<char>, a: int, k: int, n: int)
    requires
        0 <= a,
        0 <= k <= s.len(),
        a + n <= p.len(),
        n > s.len() - k,
        forall|t: int| 0 <= t < n ==> #[trigger] p[a + t] != '*',
    ensures
        !glob_language(p, s, a, k),
    decreases n,
{
    assert(p[a + 0] != '*');
    if k < s.len() {
        assert forall|t: int| 0 <= t < n - 1 implies #[trigger] p[a + 1 + t] != '*' by {
            assert(p[a + (t + 1)] != '*');
        }
        lemma_needs_length(p, s, a + 1, k + 1, n - 1);
    }
}

/// A star can take more of the input: matching from a later position
/// gives a match from an earlier one.
pub proof fn lemma_star_absorbs(p: Seq<char>, s: Seq<char>, i: int, j: int, j2: int)
    requires
        0 <= i < p.len(),
        p[i] == '*',
        0 <= j <= j2 <= s.len(),
        glob_language(p, s, i, j2),
    ensures
        glob_language(p, s, i, j),
    decreases j2 - j,
{
    if j < j2 {
        lemma_star_absorbs(p, s, i, j + 1, j2);
    }
}

/// A star at `i` matches from `j` exactly when the rest of the pattern
/// matches from some position from `j` on.
pub proof fn lemma_star_some(p: Seq<char>, s: Seq<char>, i: int, j: int)
    requires
        0 <= i < p.len(),
        p[i] == '*',
        0 <= j <= s.len(),
    ensures
        glob_language(p, s, i, j) == matches_from_some(p, s, i + 1, j),
    decreases s.len() - j,
{
    if j < s.len() {
        lemma_star_some(p, s, i, j + 1);
        assert(glob_language(p, s, i, j) == (glob_language(p, s, i + 1, j) || glob_language(p, s, i, j + 1)));
        if matches_from_some(p, s, i + 1, j) {
            let k = choose|k: int| j <= k <= s.len() && #[trigger] glob_language(p, s, i + 1, k);
            if k > j {
                assert(matches_from_some(p, s, i + 1, j + 1));
            }
        }
        if matches_from_some(p, s, i + 1, j + 1) {
            let k = choose|k: int| j + 1 <= k <= s.len() && #[trigger] glob_language(p, s, i + 1, k);
            assert(glob_language(p, s, i + 1, k));
            assert(matches_from_some(p, s, i + 1, j));
        }
        if glob_language(p, s, i + 1, j) {
            assert(matches_from_some(p, s, i + 1, j));
        }
    } else {
        assert(glob_language(p, s, i, j) == glob_language(p, s, i + 1, j));
        if matches_from_some(p, s, i + 1, j) {
            let k = choose|k: int| j <= k <= s.len() && #[trigger] glob_language(p, s, i + 1, k);
            assert(k == j);
            assert(glob_language(p, s, i + 1, j));
        }
        if glob_language(p, s, i + 1, j) {
            assert(matches_from_some(p, s, i + 1, j));
        }
    }
}

/// At the end of the input, the pattern matches when only stars are left.
pub proof fn lemma_language_at_end(p: Seq<char>, s: Seq<char>, i: int)
    requires
        0 <= i <= p.len(),
    ensures
        glob_language(p, s, i, s.len() as int) == (skip_stars(p, i) == p.len()),
    decreases p.len() - i,
{
    if i < p.len() && p[i] == '*' {
        lemma_language_at_end(p, s, i + 1);
    }
}

/// A literal stretch that does not fit its input never matches there.
pub proof fn lemma_fit_fails(p: Seq<char>, s: Seq<char>, a: int, b: int, n: int)
    requires
        0 <= a,
        0 <= b,
        0 <= n,
        a + n <= p.len(),
        b + n <= s.len(),
        forall|t: int| 0 <= t < n ==> #[trigger] p[a + t] != '*',
        !literal_fit(p, s, a, b, n),
    ensures
        !glob_language(p, s, a, b),
    decreases n,
{
    assert(n > 0);
    assert(p[a + 0] != '*');
    if p[a] == '?' || p[a] == s[b] {
        assert forall|t: int| 0 <= t < n - 1 implies #[trigger] p[a + 1 + t] != '*' by {
            assert(p[a + (t + 1)] != '*');
        }
        assert(!literal_fit(p, s, a + 1, b + 1, n - 1)) by {
            if literal_fit(p, s, a + 1, b + 1, n - 1) {
                assert forall|t: int| 0 <= t < n implies #[trigger] p[a + t] != '*' && (p[a + t] == '?' || p[a + t]
                    == s[b + t]) by {
                    if t > 0 {
                        assert(p[a + 1 + (t - 1)] == '?' || p[a + 1 + (t - 1)] == s[b + 1 + (t - 1)]);
                    }
                }
            }
        }
        lemma_fit_fails(p, s, a + 1, b + 1, n - 1);
    }
}


/// A star right after a literal stretch that fits: matching from the star
/// is matching the stretch's start from some position on.
pub proof fn lemma_star_after_fit(p: Seq<char>, s: Seq<char>, c: int, si: int, n: int)
    requires
        literal_fit(p, s, c, si, n),
        c + n < p.len(),
        p[c + n] == '*',
    ensures
        glob_language(p, s, c + n, si + n) == matches_from_some(p, s, c, si),
{
    let pi = c + n;
    let ii = si + n;
    lemma_fit_skip(p, s, c, si, n);
    if glob_language(p, s, pi, ii) {
        assert(glob_language(p, s, c, si));
        assert(matches_from_some(p, s, c, si));
    }
    if matches_from_some(p, s, c, si) {
        let k = choose|k: int| si <= k <= s.len() && #[trigger] glob_language(p, s, c, k);
        if k > si {
            assert forall|t: int| 0 <= t < n implies #[trigger] p[c + t] != '*' by {}
            if k + n <= s.len() {
                if literal_fit(p, s, c, k, n) {
                    lemma_fit_skip(p, s, c, k, n);
                    lemma_star_absorbs(p, s, pi, ii, k + n);
                } else {
                    lemma_fit_fails(p, s, c, k, n);
                }
            } else {
                lemma_needs_length(p, s, c, k, n);
            }
        }
    }
}

/// A run of stars `p[a..c]` matches from `j` exactly when the pattern after
/// it matches from some position from `j` on.
pub proof fn lemma_stars_collapse(p: Seq<char>, s: Seq<char>, a: int, c: int, j: int)
    requires
        0 <= a < c <= p.len(),
        forall|t: int| a <= t < c ==> #[trigger] p[t] == '*',
        0 <= j <= s.len(),
    ensures
        glob_language(p, s, a, j) == matches_from_some(p, s, c, j),
    decreases c - a,
{
    assert(p[a] == '*');
    lemma_star_some(p, s, a, j);
    if c > a + 1 {
        if matches_from_some(p, s, a + 1, j) {
            let k = choose|k: int| j <= k <= s.len() && #[trigger] glob_language(p, s, a + 1, k);
            lemma_stars_collapse(p, s, a + 1, c, k);
            let m = choose|m: int| k <= m <= s.len() && #[trigger] glob_language(p, s, c, m);
            assert(matches_from_some(p, s, c, j));
        }
        if matches_from_some(p, s, c, j) {
            let m = choose|m: int| j <= m <= s.len() && #[trigger] glob_language(p, s, c, m);
            lemma_stars_collapse(p, s, a + 1, c, m);
            assert(matches_from_some(p, s, c, m));
            assert(glob_language(p, s, a + 1, m));
            assert(matches_from_some(p, s, a + 1, j));
        }
    }
}

/// No `**` in the pattern is followed by a path separator (which `**`
/// would swallow).
pub open spec fn no_separator_after_double(p: Seq<char>) -> bool {
    forall|k: int| 0 <= k && k + 2 < p.len() && #[trigger] p[k] == '*' && p[k + 1] == '*' ==> !is_sep(p[k + 2])
}

/// A pattern with no `[` and no `{`.
pub open spec fn plain_glob(p: Seq<char>) -> bool {
    forall|k: int| 0 <= k < p.len() ==> #[trigger] p[k] != '[' && p[k] != '{'
}

/// Where the scan resumes after the star at `sp`, every skipped character
/// is a star.
proof fn lemma_resume_after_stars(p: Seq<char>, sp: int)
    requires
        no_separator_after_double(p),
        0 <= sp < p.len(),
        p[sp] == '*',
    ensures
        sp < resume_at(p, sp) <= p.len(),
        forall|t: int| sp <= t < resume_at(p, sp) ==> #[trigger] p[t] == '*',
        resume_at(p, sp) == sp + 1 || resume_at(p, sp) == sp + 2,
        (sp + 1 < p.len() && p[sp + 1] == '*') ==> resume_at(p, sp) == sp + 2,
{
    if sp + 2 < p.len() && p[sp + 1] == '*' {
        assert(!is_sep(p[sp + 2]));
    }
}

/// The glob scan after crossing the star at `sp` from input position `si`,
/// with the literal stretch from the resume point fitting `s[si..ii]`,
/// accepts exactly when the pattern from the resume point matches from
/// some position from `si` on.
proof fn lemma_glob_run_with_star(p: Seq<char>, s: Seq<char>, pi: int, ii: int, sp: int, si: int)
    requires
        plain_glob(p),
        no_separator_after_double(p),
        0 <= sp < p.len(),
        p[sp] == '*',
        resume_at(p, sp) <= pi <= p.len(),
        0 <= si <= ii <= s.len(),
        pi - resume_at(p, sp) == ii - si,
        literal_fit(p, s, resume_at(p, sp), si, pi - resume_at(p, sp)),
    ensures
        glob_run(p, s, pi, ii, Some((sp, si))) == matches_from_some(p, s, resume_at(p, sp), si),
    decreases star_measure(s, Some((sp, si))), s.len() - ii, p.len() - pi,
{
    let c = resume_at(p, sp);
    let n = pi - c;
    lemma_resume_after_stars(p, sp);
    lemma_fit_skip(p, s, c, si, n);
    if ii >= s.len() {
        lemma_language_at_end(p, s, pi);
        if matches_from_some(p, s, c, si) {
            let k = choose|k: int| si <= k <= s.len() && #[trigger] glob_language(p, s, c, k);
            if k > si {
                assert forall|t: int| 0 <= t < n implies #[trigger] p[c + t] != '*' by {}
                lemma_needs_length(p, s, c, k, n);
            }
        }
        if skip_stars(p, pi) == p.len() {
            assert(glob_language(p, s, c, si));
        }
    } else if pi < p.len() && p.len() - pi > 1 && p[pi] == '*' && p[pi + 1] == '*' {
        assert(p[pi] != '[');
        lemma_resume_after_stars(p, pi);
        assert(after_double(p, pi + 2) == pi + 2);
        assert(literal_fit(p, s, pi + 2, ii, 0));
        lemma_glob_run_with_star(p, s, pi + 2, ii, pi, ii);
        lemma_stars_collapse(p, s, pi, pi + 2, ii);
        lemma_star_after_fit(p, s, c, si, n);
    } else if pi < p.len() && p[pi] == '*' {
        assert(p[pi] != '[');
        lemma_resume_after_stars(p, pi);
        assert(literal_fit(p, s, pi + 1, ii, 0));
        lemma_glob_run_with_star(p, s, pi + 1, ii, pi, ii);
        lemma_star_some(p, s, pi, ii);
        lemma_star_after_fit(p, s, c, si, n);
    } else if pi < p.len() && (p[pi] == '?' || p[pi] == s[ii]) {
        assert(p[pi] != '[');
        assert(literal_fit(p, s, c, si, n + 1)) by {
            assert forall|t: int| 0 <= t < n + 1 implies #[trigger] p[c + t] != '*' && (p[c + t] == '?'
                || p[c + t] == s[si + t]) by {
                if t < n {
                    assert(p[c + t] != '*');
                }
            }
        }
        lemma_glob_run_with_star(p, s, pi + 1, ii + 1, sp, si);
    } else {
        if pi < p.len() {
            assert(p[pi] != '[');
        }
        assert(!glob_language(p, s, pi, ii));
        assert(literal_fit(p, s, c, si + 1, 0));
        lemma_glob_run_with_star(p, s, c, si + 1, sp, si + 1);
        if matches_from_some(p, s, c, si) {
            let k = choose|k: int| si <= k <= s.len() && #[trigger] glob_language(p, s, c, k);
            assert(k != si);
            assert(matches_from_some(p, s, c, si + 1));
        }
        if matches_from_some(p, s, c, si + 1) {
            let k = choose|k: int| si + 1 <= k <= s.len() && #[trigger] glob_language(p, s, c, k);
            assert(matches_from_some(p, s, c, si));
        }
    }
}

/// The glob scan before any star is crossed decides the pattern's language.
proof fn lemma_glob_run_without_star(p: Seq<char>, s: Seq<char>, pi: int, ii: int)
    requires
        plain_glob(p),
        no_separator_after_double(p),
        0 <= pi <= p.len(),
        0 <= ii <= s.len(),
    ensures
        glob_run(p, s, pi, ii, None) == glob_language(p, s, pi, ii),
    decreases s.len() - ii, p.len() - pi,
{
    if ii >= s.len() {
        lemma_language_at_end(p, s, pi);
    } else if pi < p.len() && p.len() - pi > 1 && p[pi] == '*' && p[pi + 1] == '*' {
        assert(p[pi] != '[');
        lemma_resume_after_stars(p, pi);
        assert(after_double(p, pi + 2) == pi + 2);
        assert(literal_fit(p, s, pi + 2, ii, 0));
        lemma_glob_run_with_star(p, s, pi + 2, ii, pi, ii);
        lemma_stars_collapse(p, s, pi, pi + 2, ii);
    } else if pi < p.len() && p[pi] == '*' {
        assert(p[pi] != '[');
        lemma_resume_after_stars(p, pi);
        assert(literal_fit(p, s, pi + 1, ii, 0));
        lemma_glob_run_with_star(p, s, pi + 1, ii, pi, ii);
        lemma_star_some(p, s, pi, ii);
    } else if pi < p.len() && (p[pi] == '?' || p[pi] == s[ii]) {
        assert(p[pi] != '[');
        lemma_glob_run_without_star(p, s, pi + 1, ii + 1);
    } else {
        if pi < p.len() {
            assert(p[pi] != '[');
        }
    }
}

/// Law: a glob pattern without classes or braces, in which no `**` is
/// followed by a path separator, matches exactly the inputs in its
/// language: every run of stars stands for any run of characters (none
/// included, separators included), `?` for any one character, and any other
/// character for itself.
pub proof fn law_glob_matches_its_language(p: Seq<char>, s: Seq<char>)
    requires
        plain_glob(p),
        no_separator_after_double(p),
    ensures
        pattern_matches(p, s) == glob_language(p, s, 0, 0),
{
    lemma_no_brace_expands_to_itself(p);
    lemma_glob_run_without_star(p, s, 0, 0);
}

} // verus!
