//! Content search by regular expression.
//!
//! Patterns are compiled with `regex`, file-name filters with `globset`.
//! A file is searched line by line; binary files (holding a NUL byte) and
//! files that are not UTF-8 are skipped.

use vstd::prelude::*;
use crate::error::Error;
use crate::text::{chars_of, concat_str, string_of, strings_view, split_lines, sub_chars, text_lines};

verus! {

// ── Outside calls ──────────────────────────────────────────────────────

#[verifier::external_type_specification]
#[verifier::external_body]
pub struct ExRegex(regex::Regex);

#[verifier::external_type_specification]
#[verifier::external_body]
pub struct ExGlob(globset::Glob);

/// The error text of `regex::RegexBuilder::build` for a pattern and case
/// flag, or `None` when the pattern compiles.
pub uninterp spec fn regex_build_error(pattern: Seq<char>, case_insensitive: bool) -> Option<Seq<char>>;

/// Whether the regex compiled from a pattern and case flag matches
/// somewhere in `haystack` (`regex::Regex::is_match`).
pub uninterp spec fn regex_is_match(pattern: Seq<char>, case_insensitive: bool, haystack: Seq<char>) -> bool;

/// The error text of `globset::GlobBuilder::build` for a pattern, or `None`
/// when the pattern compiles.
pub uninterp spec fn glob_build_error(pattern: Seq<char>) -> Option<Seq<char>>;

/// Whether the glob compiled from a pattern matches a file name
/// (`globset::GlobMatcher::is_match`).
pub uninterp spec fn glob_is_match(pattern: Seq<char>, name: Seq<char>) -> bool;

/// Compiles `pattern` with `regex::RegexBuilder`, case-insensitively when
/// asked; on failure, the error's display text.
///
/// The result is named: `Ok` exactly when `regex_build_error` is `None`,
/// else the text it names.
#[verifier::external_body]
fn build_regex(pattern: &str, case_insensitive: bool) -> (r: Result<regex::Regex, String>)
    ensures
        match r {
            Ok(_) => regex_build_error(pattern@, case_insensitive) is None,
            Err(e) => regex_build_error(pattern@, case_insensitive) == Some(e@),
        },
{
    regex::RegexBuilder::new(pattern).case_insensitive(case_insensitive).build().map_err(|e| e.to_string())
}

/// `regex::Regex::is_match` of the pattern's regex on `line`; the result is
/// named by `regex_is_match` over the pattern's source and case flag.
#[verifier::external_body]
fn regex_matches(p: &SearchPattern, line: &str) -> (r: bool)
    ensures
        r == regex_is_match(p.source@, p.case_insensitive, line@),
{
    p.regex.is_match(line)
}

/// Compiles `pattern` with `globset::GlobBuilder`; on failure, the error's
/// display text.
///
/// The result is named: `Ok` exactly when `glob_build_error` is `None`,
/// else the text it names.
#[verifier::external_body]
fn build_glob(pattern: &str) -> (r: Result<globset::Glob, String>)
    ensures
        match r {
            Ok(_) => glob_build_error(pattern@) is None,
            Err(e) => glob_build_error(pattern@) == Some(e@),
        },
{
    globset::GlobBuilder::new(pattern).build().map_err(|e| e.to_string())
}

/// Whether the filter's glob matches a file name: `is_match` of the
/// glob's `compile_matcher`. The result is named by `glob_is_match` over
/// the filter's source.
#[verifier::external_body]
fn glob_matches(g: &NameFilter, name: &str) -> (r: bool)
    ensures
        r == glob_is_match(g.source@, name@),
{
    g.glob.compile_matcher().is_match(name)
}

/// `String::from_utf8`: the text that `bytes` encode, when they are valid
/// UTF-8 (std documents the error for anything else).
#[verifier::external_body]
fn utf8_text(bytes: Vec<u8>) -> (r: Option<String>)
    ensures
        r is Some <==> vstd::utf8::valid_utf8(bytes@),
        r matches Some(s) ==> s@ == vstd::utf8::decode_utf8(bytes@),
{
    String::from_utf8(bytes).ok()
}

// ── Types ──────────────────────────────────────────────────────────────

/// A compiled search pattern.
pub struct SearchPattern {
    source: String,
    case_insensitive: bool,
    regex: regex::Regex,
}

impl SearchPattern {
    /// The pattern's source text.
    pub closed spec fn source(&self) -> Seq<char> {
        self.source@
    }

    /// Whether the pattern ignores case.
    pub closed spec fn ignores_case(&self) -> bool {
        self.case_insensitive
    }

    /// Compiles `pattern`; an invalid one gives `invalid regex: ` and the
    /// compiler's message.
    pub fn new(pattern: &str, case_insensitive: bool) -> (r: Result<Self, String>)
        ensures
            match r {
                Ok(p) => regex_build_error(pattern@, case_insensitive) is None && p.source()
                    == pattern@ && p.ignores_case() == case_insensitive,
                Err(m) => regex_build_error(pattern@, case_insensitive) matches Some(e) && m@
                    == "invalid regex: "@ + e,
            },
    {
        match build_regex(pattern, case_insensitive) {
            Ok(regex) => Ok(SearchPattern { source: pattern.to_owned(), case_insensitive, regex }),
            Err(e) => Err(concat_str("invalid regex: ", e.as_str())),
        }
    }

    /// Whether the pattern matches somewhere in `line`.
    pub fn is_match(&self, line: &str) -> (r: bool)
        ensures
            r == regex_is_match(self.source(), self.ignores_case(), line@),
    {
        regex_matches(self, line)
    }
}

/// A compiled file-name filter.
pub struct NameFilter {
    source: String,
    glob: globset::Glob,
}

impl NameFilter {
    /// The filter's glob text.
    pub closed spec fn source(&self) -> Seq<char> {
        self.source@
    }

    /// Compiles `pattern`; an invalid one gives `invalid file glob: ` and
    /// the compiler's message.
    pub fn new(pattern: &str) -> (r: Result<Self, String>)
        ensures
            match r {
                Ok(g) => glob_build_error(pattern@) is None && g.source() == pattern@,
                Err(m) => glob_build_error(pattern@) matches Some(e) && m@ == "invalid file glob: "@
                    + e,
            },
    {
        match build_glob(pattern) {
            Ok(glob) => Ok(NameFilter { source: pattern.to_owned(), glob }),
            Err(e) => Err(concat_str("invalid file glob: ", e.as_str())),
        }
    }

    /// Whether the filter accepts the file name `name`.
    pub fn is_match(&self, name: &str) -> (r: bool)
        ensures
            r == glob_is_match(self.source(), name@),
    {
        glob_matches(self, name)
    }
}

/// A single match from a content search.
#[derive(Debug, Clone)]
pub struct GrepMatch {
    /// File containing the match.
    pub path: String,
    /// 1-based line number of the match.
    pub line_number: usize,
    /// The matched line (line terminator stripped).
    pub line_content: String,
    /// Context lines before the match (when `context_lines > 0`).
    pub context_before: Vec<String>,
    /// Context lines after the match (when `context_lines > 0`).
    pub context_after: Vec<String>,
}

/// Options controlling a content search.
pub struct GrepOptions {
    /// Regex pattern to search for.
    pub pattern: String,
    /// Root path: a single file or a directory.
    pub path: String,
    /// Enable case-insensitive matching.
    pub case_insensitive: bool,
    /// Optional file-name glob filter (e.g. `"*.rs"`): only files whose
    /// name matches are searched.
    pub file_glob: Option<String>,
    /// Maximum number of matches to return; `0` means unlimited.
    pub max_results: usize,
    /// Number of context lines to capture before and after each match.
    pub context_lines: usize,
    /// Whether the directory walk respects `.gitignore` rules.
    pub respect_gitignore: bool,
}

/// A file to search: its path, its file name and its content.
pub struct SourceFile {
    pub path: String,
    pub name: String,
    pub content: Vec<u8>,
}

/// A match as plain values: path, line number, line, context before and
/// after.
pub open spec fn match_view(m: GrepMatch) -> (Seq<char>, int, Seq<char>, Seq<Seq<char>>, Seq<Seq<char>>) {
    (m.path@, m.line_number as int, m.line_content@, strings_view(m.context_before@), strings_view(m.context_after@))
}

/// The views of a list of matches.
pub open spec fn matches_view(v: Seq<GrepMatch>) -> Seq<(Seq<char>, int, Seq<char>, Seq<Seq<char>>, Seq<Seq<char>>)> {
    v.map_values(|m: GrepMatch| match_view(m))
}

// ── Lines ──────────────────────────────────────────────────────────────

/// `l` without one trailing carriage return.
pub open spec fn drop_cr(l: Seq<char>) -> Seq<char> {
    if l.len() > 0 && l.last() == '\r' {
        l.drop_last()
    } else {
        l
    }
}

/// The lines of `s` as `str::lines` gives them: split at each `\n` (a final
/// one ends the last line), and a line ended by `\n` loses one trailing
/// `\r`.
pub open spec fn std_lines(s: Seq<char>) -> Seq<Seq<char>> {
    let ls = split_lines(s);
    Seq::new(
        ls.len(),
        |k: int|
            if k + 1 < ls.len() || (s.len() > 0 && s.last() == '\n') {
                drop_cr(ls[k])
            } else {
                ls[k]
            },
    )
}

/// The lines of `text`, as `str::lines` gives them.
pub fn std_line_strings(text: &str) -> (r: Vec<String>)
    ensures
        strings_view(r@) == std_lines(text@),
{
    let pieces = text_lines(text);
    let chars = chars_of(text);
    let ends_nl = chars.len() > 0 && chars[chars.len() - 1] == '\n';
    let n = pieces.len();
    let ghost ls = split_lines(text@);
    let mut out: Vec<String> = Vec::new();
    let mut k: usize = 0;
    while k < n
        invariant
            n == pieces@.len(),
            pieces@.map_values(|l: Vec<char>| l@) == ls,
            ls == split_lines(text@),
            chars@ == text@,
            ends_nl == (text@.len() > 0 && text@.last() == '\n'),
            k <= n,
            strings_view(out@) == std_lines(text@).take(k as int),
        decreases n - k,
    {
        let piece = &pieces[k];
        let line = if (k + 1 < n || ends_nl) && piece.len() > 0 && piece[piece.len() - 1] == '\r' {
            sub_chars(piece.as_slice(), 0, piece.len() - 1)
        } else {
            sub_chars(piece.as_slice(), 0, piece.len())
        };
        let s = string_of(line.as_slice());
        proof {
            assert(ls[k as int] == pieces@[k as int]@);
            assert(pieces@[k as int]@.subrange(0, pieces@[k as int]@.len() as int) =~= pieces@[k as int]@);
            if pieces@[k as int]@.len() > 0 {
                assert(pieces@[k as int]@.subrange(0, pieces@[k as int]@.len() - 1) =~= pieces@[k as int]@.drop_last());
            }
            assert(s@ == std_lines(text@)[k as int]);
        }
        let ghost before = out@;
        out.push(s);
        proof {
            assert(strings_view(out@) =~= strings_view(before).push(s@));
            assert(std_lines(text@).take(k + 1) =~= std_lines(text@).take(k as int).push(
                std_lines(text@)[k as int],
            ));
        }
        k += 1;
    }
    proof {
        assert(std_lines(text@).take(n as int) =~= std_lines(text@));
    }
    out
}

// ── Searching a file ───────────────────────────────────────────────────

/// The lines of a file's content, or `None` for a binary file (one holding
/// a NUL byte) or content that is not UTF-8.
pub open spec fn content_lines(b: Seq<u8>) -> Option<Seq<Seq<char>>> {
    if b.contains(0u8) || !vstd::utf8::valid_utf8(b) {
        None
    } else {
        Some(std_lines(vstd::utf8::decode_utf8(b)))
    }
}

/// The lines of a file's content, or `None` for a binary file or content
/// that is not UTF-8.
pub fn lines_of_content(content: &[u8]) -> (r: Option<Vec<String>>)
    ensures
        match r {
            Some(v) => content_lines(content@) == Some(strings_view(v@)),
            None => content_lines(content@) is None,
        },
{
    let mut bytes: Vec<u8> = Vec::new();
    let mut i: usize = 0;
    while i < content.len()
        invariant
            i <= content@.len(),
            bytes@ == content@.take(i as int),
            forall|k: int| 0 <= k < i ==> content@[k] != 0u8,
        decreases content@.len() - i,
    {
        if content[i] == 0 {
            proof {
                assert(content@.contains(0u8));
            }
            return None;
        }
        bytes.push(content[i]);
        proof {
            assert(content@.take(i + 1) =~= content@.take(i as int).push(content@[i as int]));
        }
        i += 1;
    }
    proof {
        assert(content@.take(i as int) =~= content@);
        assert(!content@.contains(0u8));
    }
    match utf8_text(bytes) {
        None => None,
        Some(text) => Some(std_line_strings(text.as_str())),
    }
}

/// The context before line `i`: up to `c` lines just above it.
pub open spec fn context_before(lines: Seq<Seq<char>>, i: int, c: int) -> Seq<Seq<char>> {
    lines.subrange(if i - c < 0 { 0 } else { i - c }, i)
}

/// The context after line `i`: up to `c` lines just below it.
pub open spec fn context_after(lines: Seq<Seq<char>>, i: int, c: int) -> Seq<Seq<char>> {
    lines.subrange(i + 1, if i + 1 + c > lines.len() { lines.len() as int } else { i + 1 + c })
}

/// The match reported for line `i` (0-based) of `lines` in file `path`.
pub open spec fn line_match(path: Seq<char>, lines: Seq<Seq<char>>, i: int, c: int) -> (
    Seq<char>,
    int,
    Seq<char>,
    Seq<Seq<char>>,
    Seq<Seq<char>>,
) {
    (path, i + 1, lines[i], context_before(lines, i, c), context_after(lines, i, c))
}

/// The matches for the lines among the first `n` whose hit flag is set, in
/// line order.
pub open spec fn hit_matches(path: Seq<char>, lines: Seq<Seq<char>>, hits: Seq<bool>, c: int, n: int) -> Seq<
    (Seq<char>, int, Seq<char>, Seq<Seq<char>>, Seq<Seq<char>>),
>
    decreases n,
{
    if n <= 0 {
        Seq::empty()
    } else if hits[n - 1] {
        hit_matches(path, lines, hits, c, n - 1).push(line_match(path, lines, n - 1, c))
    } else {
        hit_matches(path, lines, hits, c, n - 1)
    }
}

/// Copies of the strings `v[from..to]`.
fn copy_range(v: &[String], from: usize, to: usize) -> (r: Vec<String>)
    requires
        from <= to <= v@.len(),
    ensures
        strings_view(r@) == strings_view(v@).subrange(from as int, to as int),
{
    let mut r: Vec<String> = Vec::new();
    let mut i = from;
    while i < to
        invariant
            from <= i <= to,
            to <= v@.len(),
            strings_view(r@) == strings_view(v@).subrange(from as int, i as int),
        decreases to - i,
    {
        let ghost before = r@;
        r.push(v[i].clone());
        proof {
            assert(strings_view(r@) =~= strings_view(before).push(v@[i as int]@));
            assert(strings_view(v@).subrange(from as int, i + 1) =~= strings_view(v@).subrange(
                from as int,
                i as int,
            ).push(v@[i as int]@));
        }
        i += 1;
    }
    r
}

/// The matches for the lines whose hit flag is set, each with up to
/// `context_lines` lines of context on either side.
pub fn matches_in_lines(path: &str, lines: &[String], hits: &[bool], context_lines: usize) -> (r: Vec<GrepMatch>)
    requires
        hits@.len() == lines@.len(),
    ensures
        matches_view(r@) == hit_matches(
            path@,
            strings_view(lines@),
            hits@,
            context_lines as int,
            lines@.len() as int,
        ),
{
    let n = lines.len();
    let ghost ls = strings_view(lines@);
    let mut out: Vec<GrepMatch> = Vec::new();
    let mut i: usize = 0;
    while i < n
        invariant
            n == lines@.len(),
            hits@.len() == n,
            ls == strings_view(lines@),
            i <= n,
            matches_view(out@) == hit_matches(path@, ls, hits@, context_lines as int, i as int),
        decreases n - i,
    {
        if hits[i] {
            let start = if i >= context_lines { i - context_lines } else { 0 };
            let end = if context_lines > n - (i + 1) { n } else { i + 1 + context_lines };
            let m = GrepMatch {
                path: path.to_owned(),
                line_number: i + 1,
                line_content: lines[i].clone(),
                context_before: copy_range(lines, start, i),
                context_after: copy_range(lines, i + 1, end),
            };
            let ghost before = out@;
            out.push(m);
            proof {
                assert(matches_view(out@) =~= matches_view(before).push(match_view(m)));
                assert(match_view(m) == line_match(path@, ls, i as int, context_lines as int));
            }
        }
        i += 1;
    }
    out
}

/// The hit flags of `pattern` on each line.
pub open spec fn line_hits(lines: Seq<Seq<char>>, pattern: Seq<char>, case_insensitive: bool) -> Seq<bool> {
    Seq::new(lines.len(), |k: int| regex_is_match(pattern, case_insensitive, lines[k]))
}

/// The matches in one file's content: none for a binary or non-UTF-8 file,
/// else one for each line the pattern matches.
pub open spec fn file_matches(
    path: Seq<char>,
    content: Seq<u8>,
    pattern: Seq<char>,
    case_insensitive: bool,
    c: int,
) -> Seq<(Seq<char>, int, Seq<char>, Seq<Seq<char>>, Seq<Seq<char>>)> {
    match content_lines(content) {
        None => Seq::empty(),
        Some(ls) => hit_matches(path, ls, line_hits(ls, pattern, case_insensitive), c, ls.len() as int),
    }
}

/// Searches one file's content, line by line.
pub fn search_file(path: &str, content: &[u8], pattern: &SearchPattern, context_lines: usize) -> (r: Vec<GrepMatch>)
    ensures
        matches_view(r@) == file_matches(
            path@,
            content@,
            pattern.source(),
            pattern.ignores_case(),
            context_lines as int,
        ),
{
    match lines_of_content(content) {
        None => Vec::new(),
        Some(lines) => {
            let ghost ls = strings_view(lines@);
            let mut hits: Vec<bool> = Vec::new();
            let mut i: usize = 0;
            while i < lines.len()
                invariant
                    i <= lines@.len(),
                    ls == strings_view(lines@),
                    hits@ == line_hits(ls, pattern.source(), pattern.ignores_case()).take(i as int),
                decreases lines@.len() - i,
            {
                let hit = pattern.is_match(lines[i].as_str());
                proof {
                    assert(line_hits(ls, pattern.source(), pattern.ignores_case()).take(i + 1)
                        =~= line_hits(ls, pattern.source(), pattern.ignores_case()).take(i as int).push(hit));
                }
                hits.push(hit);
                i += 1;
            }
            proof {
                assert(line_hits(ls, pattern.source(), pattern.ignores_case()).take(i as int)
                    =~= line_hits(ls, pattern.source(), pattern.ignores_case()));
            }
            matches_in_lines(path, lines.as_slice(), hits.as_slice(), context_lines)
        },
    }
}

// ── Searching a tree ───────────────────────────────────────────────────

/// Whether file `f` is searched: always for a single-file root, else when
/// there is no name filter or the filter matches its name.
pub open spec fn selected(f: SourceFile, root_is_file: bool, glob: Option<Seq<char>>) -> bool {
    root_is_file || match glob {
        None => true,
        Some(g) => glob_is_match(g, f.name@),
    }
}

/// The matches in the searched files of `files`, file after file.
pub open spec fn all_file_matches(
    files: Seq<SourceFile>,
    root_is_file: bool,
    glob: Option<Seq<char>>,
    pattern: Seq<char>,
    case_insensitive: bool,
    c: int,
) -> Seq<(Seq<char>, int, Seq<char>, Seq<Seq<char>>, Seq<Seq<char>>)>
    decreases files.len(),
{
    if files.len() == 0 {
        Seq::empty()
    } else {
        let f = files.last();
        let earlier = all_file_matches(files.drop_last(), root_is_file, glob, pattern, case_insensitive, c);
        if selected(f, root_is_file, glob) {
            earlier + file_matches(f.path@, f.content@, pattern, case_insensitive, c)
        } else {
            earlier
        }
    }
}

/// At most `max` elements: the first ones of `s`.
pub open spec fn capped<A>(s: Seq<A>, max: int) -> Seq<A> {
    if s.len() <= max {
        s
    } else {
        s.take(max)
    }
}

/// The number of matches a search may return: `max_results`, or no limit
/// (`usize::MAX`) for `0`.
pub open spec fn result_cap(max_results: usize) -> int {
    if max_results == 0 {
        usize::MAX as int
    } else {
        max_results as int
    }
}

/// What the search root (`opts.path`) turned out to be.
#[derive(Debug, Clone, Copy, PartialEq, Eq, Structural)]
pub enum SearchRoot {
    /// A single file.
    File,
    /// A directory, walked for its files.
    Directory,
    /// Nothing: the path does not exist or cannot be read.
    Missing,
}

/// Searches `files`, the files under the root in walk order (or, for a
/// file root, the root file itself), for lines matching the options'
/// pattern. The name filter applies only under a directory root. At most
/// `max_results` matches are returned (no limit for `0`), the first ones
/// in file order.
///
/// Fails with `Error::Other` when the pattern (`invalid regex: ...`) or the
/// name filter (`invalid file glob: ...`) does not compile, the pattern
/// being checked first, and then when the root does not exist or cannot be
/// read (`path not found: ` and the path).
pub fn search(opts: &GrepOptions, root: SearchRoot, files: &[SourceFile]) -> (r: Result<Vec<GrepMatch>, Error>)
    ensures
        match regex_build_error(opts.pattern@, opts.case_insensitive) {
            Some(e) => r matches Err(Error::Other(m)) && m@ == "invalid regex: "@ + e,
            None => match opts.file_glob {
                Some(g) if glob_build_error(g@) is Some => r matches Err(Error::Other(m)) && m@
                    == "invalid file glob: "@ + glob_build_error(g@)->0,
                _ => if root == SearchRoot::Missing {
                    r matches Err(Error::Other(m)) && m@ == "path not found: "@ + opts.path@
                } else {
                    r matches Ok(v) && matches_view(v@) == capped(
                    all_file_matches(
                        files@,
                        root == SearchRoot::File,
                        crate::text::opt_string_view(opts.file_glob),
                        opts.pattern@,
                        opts.case_insensitive,
                        opts.context_lines as int,
                    ),
                    result_cap(opts.max_results),
                )
                },
            },
        },
{
    let pattern = match SearchPattern::new(opts.pattern.as_str(), opts.case_insensitive) {
        Ok(p) => p,
        Err(m) => {
            return Err(Error::Other(m));
        },
    };
    let filter = match &opts.file_glob {
        None => None,
        Some(g) => match NameFilter::new(g.as_str()) {
            Ok(f) => Some(f),
            Err(m) => {
                return Err(Error::Other(m));
            },
        },
    };
    let root_is_file = match root {
        SearchRoot::Missing => {
            return Err(Error::Other(crate::text::concat_str("path not found: ", opts.path.as_str())));
        },
        SearchRoot::File => true,
        SearchRoot::Directory => false,
    };
    let ghost glob = crate::text::opt_string_view(opts.file_glob);
    let ghost src = opts.pattern@;
    let ghost ci = opts.case_insensitive;
    let ghost c = opts.context_lines as int;
    let max = if opts.max_results == 0 { usize::MAX } else { opts.max_results };
    let mut out: Vec<GrepMatch> = Vec::new();
    let mut i: usize = 0;
    while i < files.len()
        invariant
            i <= files@.len(),
            max == result_cap(opts.max_results),
            pattern.source() == src,
            pattern.ignores_case() == ci,
            c == opts.context_lines as int,
            match filter {
                None => glob is None,
                Some(f) => glob == Some(f.source()),
            },
            matches_view(out@) == capped(
                all_file_matches(files@.take(i as int), root_is_file, glob, src, ci, c),
                max as int,
            ),
        decreases files@.len() - i,
    {
        let f = &files[i];
        let wanted = root_is_file || match &filter {
            None => true,
            Some(g) => g.is_match(f.name.as_str()),
        };
        let ghost earlier = all_file_matches(files@.take(i as int), root_is_file, glob, src, ci, c);
        proof {
            assert(files@.take(i + 1).drop_last() =~= files@.take(i as int));
            assert(files@.take(i + 1).last() == files@[i as int]);
            assert(wanted == selected(files@[i as int], root_is_file, glob));
            let fm = file_matches(f.path@, f.content@, src, ci, c);
            assert(all_file_matches(files@.take(i + 1), root_is_file, glob, src, ci, c) == if wanted {
                earlier + fm
            } else {
                earlier
            });
        }
        if wanted && out.len() < max {
            let mut found = search_file(f.path.as_str(), f.content.as_slice(), &pattern, opts.context_lines);
            let room = max - out.len();
            let ghost fm = matches_view(found@);
            found.truncate(room);
            let ghost before = out@;
            let ghost kept = found@;
            out.append(&mut found);
            proof {
                assert(matches_view(out@) =~= matches_view(before) + matches_view(kept));
                assert(earlier.len() < max);
                assert(matches_view(before) == earlier);
                if fm.len() <= room {
                    assert(matches_view(kept) =~= fm);
                    assert(capped(earlier + fm, max as int) =~= earlier + fm);
                } else {
                    assert(matches_view(kept) =~= fm.take(room as int));
                    assert(capped(earlier + fm, max as int) =~= earlier + fm.take(room as int));
                }
            }
        } else {
            proof {
                if wanted {
                    let fm = file_matches(f.path@, f.content@, src, ci, c);
                    assert(capped(earlier + fm, max as int) =~= capped(earlier, max as int));
                }
            }
        }
        i += 1;
    }
    proof {
        assert(files@.take(i as int) =~= files@);
    }
    Ok(out)
}

/// Law: the files are searched one after the other, each file's matches
/// following those of the files before it. A file is searched always under
/// a single-file root; under a directory root, exactly when there is no name
/// filter or the filter matches its file name, whatever directories its
/// path runs through.
pub proof fn law_name_filter_selects_by_file_name(
    files: Seq<SourceFile>,
    f: SourceFile,
    root_is_file: bool,
    glob: Option<Seq<char>>,
    pattern: Seq<char>,
    case_insensitive: bool,
    c: int,
)
    ensures
        all_file_matches(files.push(f), root_is_file, glob, pattern, case_insensitive, c) == all_file_matches(
            files,
            root_is_file,
            glob,
            pattern,
            case_insensitive,
            c,
        ) + if root_is_file || glob is None || glob_is_match(glob->0, f.name@) {
            file_matches(f.path@, f.content@, pattern, case_insensitive, c)
        } else {
            Seq::empty()
        },
        (!root_is_file && glob is Some && !glob_is_match(glob->0, f.name@)) ==> all_file_matches(
            files.push(f),
            root_is_file,
            glob,
            pattern,
            case_insensitive,
            c,
        ) == all_file_matches(files, root_is_file, glob, pattern, case_insensitive, c),
{
    assert(files.push(f).drop_last() =~= files);
    assert(files.push(f).last() == f);
    let earlier = all_file_matches(files, root_is_file, glob, pattern, case_insensitive, c);
    assert(earlier + Seq::<(Seq<char>, int, Seq<char>, Seq<Seq<char>>, Seq<Seq<char>>)>::empty() =~= earlier);
}

/// What the matches `ms` reported for a file of lines `ls` must be: each
/// names the file, a line number from 1, that line (which the pattern
/// matches), up to `c` lines just above it and up to `c` lines just below
/// it; every line the pattern matches is reported; and line numbers
/// increase.
pub open spec fn reports_matching_lines(
    ms: Seq<(Seq<char>, int, Seq<char>, Seq<Seq<char>>, Seq<Seq<char>>)>,
    ls: Seq<Seq<char>>,
    path: Seq<char>,
    pattern: Seq<char>,
    case_insensitive: bool,
    c: int,
) -> bool {
    &&& forall|a: int| #![trigger ms[a]] 0 <= a < ms.len() ==> {
        let n = ms[a].1;
        &&& 1 <= n <= ls.len()
        &&& ms[a].0 == path
        &&& ms[a].2 == ls[n - 1]
        &&& regex_is_match(pattern, case_insensitive, ls[n - 1])
        &&& ms[a].3 == ls.subrange(if n - 1 - c < 0 { 0 } else { n - 1 - c }, n - 1)
        &&& ms[a].4 == ls.subrange(n, if n + c > ls.len() { ls.len() as int } else { n + c })
    }
    &&& forall|i: int| #![trigger ls[i]] 0 <= i < ls.len() && regex_is_match(pattern, case_insensitive, ls[i])
        ==> exists|a: int| 0 <= a < ms.len() && #[trigger] ms[a].1 == i + 1
    &&& forall|a: int, b: int| 0 <= a < b < ms.len() ==> #[trigger] ms[a].1 < #[trigger] ms[b].1
}

/// The matches among the first `n` flagged lines: each is the match of a
/// flagged line below `n`, every flagged line below `n` has one, and line
/// numbers increase.
proof fn lemma_hit_matches(path: Seq<char>, lines: Seq<Seq<char>>, hits: Seq<bool>, c: int, n: int)
    requires
        0 <= n <= lines.len(),
        hits.len() == lines.len(),
    ensures
        forall|a: int| #![trigger hit_matches(path, lines, hits, c, n)[a]]
            0 <= a < hit_matches(path, lines, hits, c, n).len() ==> {
                let m = hit_matches(path, lines, hits, c, n)[a];
                &&& 1 <= m.1 <= n
                &&& hits[m.1 - 1]
                &&& m == line_match(path, lines, m.1 - 1, c)
            },
        forall|i: int| #![trigger hits[i]] 0 <= i < n && hits[i] ==> exists|a: int|
            0 <= a < hit_matches(path, lines, hits, c, n).len() && #[trigger] hit_matches(path, lines, hits, c, n)[a].1
                == i + 1,
        forall|a: int, b: int|
            0 <= a < b < hit_matches(path, lines, hits, c, n).len() ==> #[trigger] hit_matches(path, lines, hits, c, n)[a].1
                < #[trigger] hit_matches(path, lines, hits, c, n)[b].1,
    decreases n,
{
    if n > 0 {
        lemma_hit_matches(path, lines, hits, c, n - 1);
        let p = hit_matches(path, lines, hits, c, n - 1);
        let r = hit_matches(path, lines, hits, c, n);
        if hits[n - 1] {
            let m = line_match(path, lines, n - 1, c);
            assert(r == p.push(m));
            assert forall|a: int| #![trigger r[a]] 0 <= a < r.len() implies {
                let x = r[a];
                &&& 1 <= x.1 <= n
                &&& hits[x.1 - 1]
                &&& x == line_match(path, lines, x.1 - 1, c)
            } by {
                if a < p.len() {
                    assert(r[a] == p[a]);
                }
            }
            assert forall|i: int| #![trigger hits[i]] 0 <= i < n && hits[i] implies exists|a: int|
                0 <= a < r.len() && #[trigger] r[a].1 == i + 1 by {
                if i < n - 1 {
                    let a = choose|a: int| 0 <= a < p.len() && #[trigger] p[a].1 == i + 1;
                    assert(r[a] == p[a]);
                } else {
                    assert(r[p.len() as int].1 == i + 1);
                }
            }
            assert forall|a: int, b: int| 0 <= a < b < r.len() implies #[trigger] r[a].1 < #[trigger] r[b].1 by {
                assert(r[a] == p[a]);
                if b < p.len() {
                    assert(r[b] == p[b]);
                }
            }
        } else {
            assert(r == p);
        }
    }
}

/// Law: searching one file reports nothing for a binary or non-UTF-8 file;
/// otherwise it reports each line the pattern matches, in line order, with
/// its 1-based line number, the file's path and up to `c` lines of context
/// on each side, and nothing else.
pub proof fn law_file_matches_report_matching_lines(
    path: Seq<char>,
    content: Seq<u8>,
    pattern: Seq<char>,
    case_insensitive: bool,
    c: int,
)
    requires
        c >= 0,
    ensures
        content_lines(content) is None ==> file_matches(path, content, pattern, case_insensitive, c).len() == 0,
        content_lines(content) is Some ==> reports_matching_lines(
            file_matches(path, content, pattern, case_insensitive, c),
            content_lines(content)->0,
            path,
            pattern,
            case_insensitive,
            c,
        ),
{
    if let Some(ls) = content_lines(content) {
        let hits = line_hits(ls, pattern, case_insensitive);
        lemma_hit_matches(path, ls, hits, c, ls.len() as int);
        let ms = file_matches(path, content, pattern, case_insensitive, c);
        assert(ms == hit_matches(path, ls, hits, c, ls.len() as int));
        assert forall|i: int| #![trigger ls[i]] 0 <= i < ls.len() && regex_is_match(pattern, case_insensitive, ls[i])
            implies exists|a: int| 0 <= a < ms.len() && #[trigger] ms[a].1 == i + 1 by {
            assert(hits[i]);
        }
    }
}

/// Law: the result cap keeps the first matches in order: all of them when
/// `max_results` is `0` or at least their number, else exactly the first
/// `max_results`.
pub proof fn law_result_cap_keeps_first<A>(s: Seq<A>, max_results: usize)
    requires
        s.len() <= usize::MAX,
    ensures
        max_results == 0 ==> capped(s, result_cap(max_results)) == s,
        max_results > 0 ==> capped(s, result_cap(max_results)).len() == if s.len() <= max_results {
            s.len() as int
        } else {
            max_results as int
        },
        capped(s, result_cap(max_results)).is_prefix_of(s),
{
    let r = capped(s, result_cap(max_results));
    assert(r =~= s.take(r.len() as int));
}

} // verus!
