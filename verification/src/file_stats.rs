//! File statistics by language: which language a file extension names,
//! and line counts per language.
use vstd::prelude::*;
use crate::grep::{std_line_strings, std_lines};
use crate::text::{
    ascii_lowered, chars_of, is_ascii_text, lowercase, str_eq, strings_view, to_lowercase, trim, trim_chars,
};

verus! {

/// Recognized languages for statistics.
#[derive(Debug, Clone, Copy, PartialEq, Eq, Hash, PartialOrd, Ord, Structural)]
pub enum Language {
    Rust,
    JavaScript,
    TypeScript,
    Python,
    Go,
    Java,
    Cpp,
    C,
    Ruby,
    Swift,
    Shell,
    Toml,
    Yaml,
    Json,
    Markdown,
    Html,
    Css,
    Sql,
    Other,
}

/// The display name of a language.
pub open spec fn language_name(l: Language) -> Seq<char> {
    match l {
        Language::Rust => "Rust"@,
        Language::JavaScript => "JavaScript"@,
        Language::TypeScript => "TypeScript"@,
        Language::Python => "Python"@,
        Language::Go => "Go"@,
        Language::Java => "Java"@,
        Language::Cpp => "C++"@,
        Language::C => "C"@,
        Language::Ruby => "Ruby"@,
        Language::Swift => "Swift"@,
        Language::Shell => "Shell"@,
        Language::Toml => "TOML"@,
        Language::Yaml => "YAML"@,
        Language::Json => "JSON"@,
        Language::Markdown => "Markdown"@,
        Language::Html => "HTML"@,
        Language::Css => "CSS"@,
        Language::Sql => "SQL"@,
        Language::Other => "Other"@,
    }
}

impl Language {
    /// The display name (`Rust`, `C++`, `TOML`, ...).
    pub fn to_string(&self) -> (r: String)
        ensures
            r@ == language_name(*self),
    {
        match self {
            Language::Rust => "Rust".to_owned(),
            Language::JavaScript => "JavaScript".to_owned(),
            Language::TypeScript => "TypeScript".to_owned(),
            Language::Python => "Python".to_owned(),
            Language::Go => "Go".to_owned(),
            Language::Java => "Java".to_owned(),
            Language::Cpp => "C++".to_owned(),
            Language::C => "C".to_owned(),
            Language::Ruby => "Ruby".to_owned(),
            Language::Swift => "Swift".to_owned(),
            Language::Shell => "Shell".to_owned(),
            Language::Toml => "TOML".to_owned(),
            Language::Yaml => "YAML".to_owned(),
            Language::Json => "JSON".to_owned(),
            Language::Markdown => "Markdown".to_owned(),
            Language::Html => "HTML".to_owned(),
            Language::Css => "CSS".to_owned(),
            Language::Sql => "SQL".to_owned(),
            Language::Other => "Other".to_owned(),
        }
    }
}

/// The language named by a lowercase file extension.
pub open spec fn language_of(ext: Seq<char>) -> Language {
    if ext == "rs"@ {
        Language::Rust
    } else if ext == "js"@ || ext == "mjs"@ || ext == "cjs"@ || ext == "jsx"@ {
        Language::JavaScript
    } else if ext == "ts"@ || ext == "mts"@ || ext == "cts"@ || ext == "tsx"@ {
        Language::TypeScript
    } else if ext == "py"@ || ext == "pyw"@ || ext == "pyi"@ {
        Language::Python
    } else if ext == "go"@ {
        Language::Go
    } else if ext == "java"@ {
        Language::Java
    } else if ext == "cpp"@ || ext == "cxx"@ || ext == "cc"@ || ext == "hpp"@ || ext == "hxx"@ || ext == "hh"@ {
        Language::Cpp
    } else if ext == "c"@ || ext == "h"@ {
        Language::C
    } else if ext == "rb"@ || ext == "rake"@ {
        Language::Ruby
    } else if ext == "swift"@ {
        Language::Swift
    } else if ext == "sh"@ || ext == "bash"@ || ext == "zsh"@ || ext == "fish"@ {
        Language::Shell
    } else if ext == "toml"@ {
        Language::Toml
    } else if ext == "yml"@ || ext == "yaml"@ {
        Language::Yaml
    } else if ext == "json"@ || ext == "jsonc"@ {
        Language::Json
    } else if ext == "md"@ || ext == "mdx"@ {
        Language::Markdown
    } else if ext == "html"@ || ext == "htm"@ {
        Language::Html
    } else if ext == "css"@ || ext == "scss"@ || ext == "sass"@ || ext == "less"@ {
        Language::Css
    } else if ext == "sql"@ {
        Language::Sql
    } else {
        Language::Other
    }
}

/// The language named by an extension already in lowercase.
pub fn language_from_lowercase(ext: &str) -> (r: Language)
    ensures
        r == language_of(ext@),
{
    if str_eq(ext, "rs") {
        Language::Rust
    } else if str_eq(ext, "js") || str_eq(ext, "mjs") || str_eq(ext, "cjs") || str_eq(ext, "jsx") {
        Language::JavaScript
    } else if str_eq(ext, "ts") || str_eq(ext, "mts") || str_eq(ext, "cts") || str_eq(ext, "tsx") {
        Language::TypeScript
    } else if str_eq(ext, "py") || str_eq(ext, "pyw") || str_eq(ext, "pyi") {
        Language::Python
    } else if str_eq(ext, "go") {
        Language::Go
    } else if str_eq(ext, "java") {
        Language::Java
    } else if str_eq(ext, "cpp") || str_eq(ext, "cxx") || str_eq(ext, "cc") || str_eq(ext, "hpp") || str_eq(ext, "hxx") || str_eq(ext, "hh") {
        Language::Cpp
    } else if str_eq(ext, "c") || str_eq(ext, "h") {
        Language::C
    } else if str_eq(ext, "rb") || str_eq(ext, "rake") {
        Language::Ruby
    } else if str_eq(ext, "swift") {
        Language::Swift
    } else if str_eq(ext, "sh") || str_eq(ext, "bash") || str_eq(ext, "zsh") || str_eq(ext, "fish") {
        Language::Shell
    } else if str_eq(ext, "toml") {
        Language::Toml
    } else if str_eq(ext, "yml") || str_eq(ext, "yaml") {
        Language::Yaml
    } else if str_eq(ext, "json") || str_eq(ext, "jsonc") {
        Language::Json
    } else if str_eq(ext, "md") || str_eq(ext, "mdx") {
        Language::Markdown
    } else if str_eq(ext, "html") || str_eq(ext, "htm") {
        Language::Html
    } else if str_eq(ext, "css") || str_eq(ext, "scss") || str_eq(ext, "sass") || str_eq(ext, "less") {
        Language::Css
    } else if str_eq(ext, "sql") {
        Language::Sql
    } else {
        Language::Other
    }
}

/// Map a file extension to its language, whatever its case.
pub fn language_from_extension(ext: &str) -> (r: Language)
    ensures
        r == language_of(lowercase(ext@)),
        is_ascii_text(ext@) ==> r == language_of(ascii_lowered(ext@)),
{
    let lower = to_lowercase(ext);
    language_from_lowercase(lower.as_str())
}

/// Per-language statistics.
#[derive(Debug, Clone, Copy, PartialEq, Eq, Structural)]
pub struct LanguageStats {
    /// Number of files.
    pub files: usize,
    /// Total lines (including blanks and comments).
    pub lines: u64,
    /// Blank lines.
    pub blank_lines: u64,
}

impl Default for LanguageStats {
    fn default() -> (r: Self)
        ensures
            r.files == 0 && r.lines == 0 && r.blank_lines == 0,
    {
        LanguageStats { files: 0, lines: 0, blank_lines: 0 }
    }
}

// ── Line counts ────────────────────────────────────────────────────────

/// How many of the first `n` lines are blank (white space only).
pub open spec fn blank_count(ls: Seq<Seq<char>>, n: int) -> int
    decreases n,
{
    if n <= 0 {
        0
    } else {
        blank_count(ls, n - 1) + if trim(ls[n - 1]).len() == 0 {
            1int
        } else {
            0int
        }
    }
}

proof fn lemma_blank_count_bounded(ls: Seq<Seq<char>>, n: int)
    requires
        0 <= n <= ls.len(),
    ensures
        0 <= blank_count(ls, n) <= n,
    decreases n,
{
    if n > 0 {
        lemma_blank_count_bounded(ls, n - 1);
    }
}

/// The number of lines of `content` (as `str::lines` counts them) and how
/// many of them are blank.
pub fn line_counts(content: &str) -> (r: (u64, u64))
    ensures
        r.0 == std_lines(content@).len(),
        r.1 == blank_count(std_lines(content@), std_lines(content@).len() as int),
{
    let lines = std_line_strings(content);
    let ghost ls = std_lines(content@);
    let mut blanks: u64 = 0;
    let mut i: usize = 0;
    while i < lines.len()
        invariant
            i <= lines@.len(),
            strings_view(lines@) == ls,
            blanks == blank_count(ls, i as int),
            blank_count(ls, i as int) <= i,
        decreases lines@.len() - i,
    {
        let cs = chars_of(lines[i].as_str());
        let t = trim_chars(cs.as_slice());
        proof {
            assert(ls[i as int] == lines@[i as int]@);
        }
        if t.len() == 0 {
            blanks = blanks + 1;
        }
        i += 1;
    }
    (lines.len() as u64, blanks)
}

// ── Statistics ─────────────────────────────────────────────────────────

/// The position of a language in declaration order, the order in which
/// statistics list languages.
pub open spec fn lang_rank(l: Language) -> int {
    match l {
        Language::Rust => 0,
        Language::JavaScript => 1,
        Language::TypeScript => 2,
        Language::Python => 3,
        Language::Go => 4,
        Language::Java => 5,
        Language::Cpp => 6,
        Language::C => 7,
        Language::Ruby => 8,
        Language::Swift => 9,
        Language::Shell => 10,
        Language::Toml => 11,
        Language::Yaml => 12,
        Language::Json => 13,
        Language::Markdown => 14,
        Language::Html => 15,
        Language::Css => 16,
        Language::Sql => 17,
        Language::Other => 18,
    }
}

/// The position of a language in declaration order.
fn rank_of(l: Language) -> (r: u8)
    ensures
        r == lang_rank(l),
{
    match l {
        Language::Rust => 0,
        Language::JavaScript => 1,
        Language::TypeScript => 2,
        Language::Python => 3,
        Language::Go => 4,
        Language::Java => 5,
        Language::Cpp => 6,
        Language::C => 7,
        Language::Ruby => 8,
        Language::Swift => 9,
        Language::Shell => 10,
        Language::Toml => 11,
        Language::Yaml => 12,
        Language::Json => 13,
        Language::Markdown => 14,
        Language::Html => 15,
        Language::Css => 16,
        Language::Sql => 17,
        Language::Other => 18,
    }
}

/// The sum over `s` of the files, lines or blank lines (`what` 0, 1, 2).
pub open spec fn total_of(s: Seq<(Language, LanguageStats)>, what: int) -> int
    decreases s.len(),
{
    if s.len() == 0 {
        0
    } else {
        total_of(s.drop_last(), what) + if what == 0 {
            s.last().1.files as int
        } else if what == 1 {
            s.last().1.lines as int
        } else {
            s.last().1.blank_lines as int
        }
    }
}

/// One field of a language's statistics (`what` 0, 1, 2: files, lines,
/// blank lines).
pub open spec fn field(st: LanguageStats, what: int) -> int {
    if what == 0 {
        st.files as int
    } else if what == 1 {
        st.lines as int
    } else {
        st.blank_lines as int
    }
}

proof fn lemma_total_update(s: Seq<(Language, LanguageStats)>, k: int, x: (Language, LanguageStats), what: int)
    requires
        0 <= k < s.len(),
    ensures
        total_of(s.update(k, x), what) == total_of(s, what) - field(s[k].1, what) + field(x.1, what),
    decreases s.len(),
{
    if k < s.len() - 1 {
        assert(s.update(k, x).drop_last() =~= s.drop_last().update(k, x));
        lemma_total_update(s.drop_last(), k, x, what);
    } else {
        assert(s.update(k, x).drop_last() =~= s.drop_last());
    }
}

proof fn lemma_total_insert(s: Seq<(Language, LanguageStats)>, k: int, x: (Language, LanguageStats), what: int)
    requires
        0 <= k <= s.len(),
    ensures
        total_of(s.insert(k, x), what) == total_of(s, what) + field(x.1, what),
    decreases s.len(),
{
    if k < s.len() {
        assert(s.insert(k, x).drop_last() =~= s.drop_last().insert(k, x));
        assert(s.insert(k, x).last() == s.last());
        lemma_total_insert(s.drop_last(), k, x, what);
    } else {
        assert(s.insert(k, x).drop_last() =~= s);
    }
}

proof fn lemma_total_bounds(s: Seq<(Language, LanguageStats)>, k: int, what: int)
    requires
        0 <= k < s.len(),
    ensures
        0 <= field(s[k].1, what) <= total_of(s, what),
    decreases s.len(),
{
    lemma_total_nonneg(s.drop_last(), what);
    if k < s.len() - 1 {
        lemma_total_bounds(s.drop_last(), k, what);
    }
}

proof fn lemma_total_nonneg(s: Seq<(Language, LanguageStats)>, what: int)
    ensures
        0 <= total_of(s, what),
    decreases s.len(),
{
    if s.len() > 0 {
        lemma_total_nonneg(s.drop_last(), what);
    }
}

/// Overall project file statistics.
#[derive(Debug, Clone)]
pub struct FileStats {
    /// Per-language breakdown, in language order, each language once.
    pub by_language: Vec<(Language, LanguageStats)>,
    /// Total number of files counted.
    pub total_files: usize,
    /// Total lines across all files.
    pub total_lines: u64,
    /// Total blank lines.
    pub total_blank_lines: u64,
}

/// The statistics of a language after one more file of `l` lines, `b` of
/// them blank.
pub open spec fn bumped(st: LanguageStats, l: int, b: int) -> LanguageStats {
    LanguageStats { files: (st.files + 1) as usize, lines: (st.lines + l) as u64, blank_lines: (st.blank_lines + b) as u64 }
}

/// The number of entries at the start of `s` whose language comes before
/// `lang`.
pub open spec fn lang_pos(s: Seq<(Language, LanguageStats)>, lang: Language, i: int) -> int
    decreases s.len() - i,
{
    if i < 0 || i >= s.len() || lang_rank(s[i].0) >= lang_rank(lang) {
        i
    } else {
        lang_pos(s, lang, i + 1)
    }
}

/// The breakdown after one more file of language `lang` with `l` lines,
/// `b` of them blank: the language's entry counts it, or a new entry is
/// put in its place in language order.
pub open spec fn added(s: Seq<(Language, LanguageStats)>, lang: Language, l: int, b: int) -> Seq<
    (Language, LanguageStats),
> {
    let k = lang_pos(s, lang, 0);
    if 0 <= k < s.len() && s[k].0 == lang {
        s.update(k, (lang, bumped(s[k].1, l, b)))
    } else {
        s.insert(k, (lang, LanguageStats { files: 1, lines: l as u64, blank_lines: b as u64 }))
    }
}

proof fn lemma_lang_pos(s: Seq<(Language, LanguageStats)>, lang: Language, i: int)
    requires
        0 <= i <= s.len(),
    ensures
        i <= lang_pos(s, lang, i) <= s.len(),
        forall|j: int| i <= j < lang_pos(s, lang, i) ==> lang_rank(#[trigger] s[j].0) < lang_rank(lang),
        lang_pos(s, lang, i) < s.len() ==> lang_rank(s[lang_pos(s, lang, i)].0) >= lang_rank(lang),
    decreases s.len() - i,
{
    if i < s.len() && lang_rank(s[i].0) < lang_rank(lang) {
        lemma_lang_pos(s, lang, i + 1);
    }
}

impl FileStats {
    /// The languages are in order, each once, and the totals are the sums
    /// over the languages.
    pub open spec fn wf(&self) -> bool {
        &&& forall|i: int, j: int|
            0 <= i < j < self.by_language@.len() ==> lang_rank(#[trigger] self.by_language@[i].0) < lang_rank(
                #[trigger] self.by_language@[j].0,
            )
        &&& total_of(self.by_language@, 0) == self.total_files
        &&& total_of(self.by_language@, 1) == self.total_lines
        &&& total_of(self.by_language@, 2) == self.total_blank_lines
    }

    /// No files counted.
    pub fn new() -> (r: Self)
        ensures
            r.wf(),
            r.by_language@.len() == 0,
            r.total_files == 0 && r.total_lines == 0 && r.total_blank_lines == 0,
    {
        FileStats { by_language: Vec::new(), total_files: 0, total_lines: 0, total_blank_lines: 0 }
    }

    /// Counts one more file with extension `ext` and text `content`; a file
    /// without extension is not counted. Its lines and blank lines go to the
    /// language of its extension and to the totals.
    pub fn add_file(&mut self, ext: &str, content: &str)
        requires
            old(self).wf(),
            ext@.len() > 0 ==> old(self).total_files < usize::MAX,
            ext@.len() > 0 ==> old(self).total_lines + std_lines(content@).len() <= u64::MAX,
            ext@.len() > 0 ==> old(self).total_blank_lines + std_lines(content@).len() <= u64::MAX,
        ensures
            final(self).wf(),
            ext@.len() == 0 ==> *final(self) == *old(self),
            ext@.len() > 0 ==> ({
                let ls = std_lines(content@);
                let l = ls.len() as int;
                let b = blank_count(ls, l);
                &&& final(self).by_language@ == added(
                    old(self).by_language@,
                    language_of(lowercase(ext@)),
                    l,
                    b,
                )
                &&& final(self).total_files == old(self).total_files + 1
                &&& final(self).total_lines == old(self).total_lines + l
                &&& final(self).total_blank_lines == old(self).total_blank_lines + b
            }),
    {
        if ext.is_empty() {
            return;
        }
        let lang = language_from_extension(ext);
        let (l, b) = line_counts(content);
        proof {
            lemma_blank_count_bounded(std_lines(content@), std_lines(content@).len() as int);
        }
        let r = rank_of(lang);
        let ghost s = self.by_language@;
        let mut k: usize = 0;
        while k < self.by_language.len() && rank_of(self.by_language[k].0) < r
            invariant
                k <= self.by_language@.len(),
                self.by_language@ == s,
                r == lang_rank(lang),
                lang_pos(s, lang, 0) == lang_pos(s, lang, k as int),
            decreases self.by_language@.len() - k,
        {
            k += 1;
        }
        proof {
            lemma_lang_pos(s, lang, 0);
            lemma_lang_pos(s, lang, k as int);
        }
        if k < self.by_language.len() && self.by_language[k].0 == lang {
            let old_st = self.by_language[k].1;
            proof {
                lemma_total_bounds(s, k as int, 0);
                lemma_total_bounds(s, k as int, 1);
                lemma_total_bounds(s, k as int, 2);
            }
            let st = LanguageStats {
                files: old_st.files + 1,
                lines: old_st.lines + l,
                blank_lines: old_st.blank_lines + b,
            };
            self.by_language.set(k, (lang, st));
            proof {
                lemma_total_update(s, k as int, (lang, st), 0);
                lemma_total_update(s, k as int, (lang, st), 1);
                lemma_total_update(s, k as int, (lang, st), 2);
            }
        } else {
            let st = LanguageStats { files: 1, lines: l, blank_lines: b };
            self.by_language.insert(k, (lang, st));
            proof {
                lemma_total_insert(s, k as int, (lang, st), 0);
                lemma_total_insert(s, k as int, (lang, st), 1);
                lemma_total_insert(s, k as int, (lang, st), 2);
                let n = self.by_language@;
                assert forall|i: int, j: int| 0 <= i < j < n.len() implies lang_rank(#[trigger] n[i].0) < lang_rank(
                    #[trigger] n[j].0,
                ) by {
                    if j < k {
                        assert(n[i] == s[i] && n[j] == s[j]);
                    } else if j == k {
                        assert(n[i] == s[i]);
                    } else if i < k {
                        assert(n[i] == s[i] && n[j] == s[j - 1]);
                        assert(lang_rank(s[k as int].0) >= lang_rank(lang));
                        assert(s[k as int].0 != lang);
                        if j - 1 > k {
                            assert(lang_rank(s[k as int].0) < lang_rank(s[j - 1].0));
                        }
                    } else if i == k {
                        assert(n[j] == s[j - 1]);
                        assert(s[k as int].0 != lang);
                        if j - 1 > k {
                            assert(lang_rank(s[k as int].0) < lang_rank(s[j - 1].0));
                        }
                    } else {
                        assert(n[i] == s[i - 1] && n[j] == s[j - 1]);
                    }
                }
            }
        }
        self.total_files = self.total_files + 1;
        self.total_lines = self.total_lines + l;
        self.total_blank_lines = self.total_blank_lines + b;
    }

    /// The statistics of files given as extension and text, in order (see
    /// [`FileStats::add_file`]); the counted files must hold at most
    /// `u64::MAX` lines in all.
    pub fn compute_files(files: &[(String, String)]) -> (r: Self)
        requires
            counted_lines(files@, files@.len() as int) <= u64::MAX,
        ensures
            r.wf(),
            (r.by_language@, r.total_files as int, r.total_lines as int, r.total_blank_lines as int)
                == stats_of(files@, files@.len() as int),
    {
        let mut st = FileStats::new();
        let mut i: usize = 0;
        proof {
            assert(st.by_language@ =~= Seq::<(Language, LanguageStats)>::empty());
        }
        while i < files.len()
            invariant
                i <= files@.len(),
                counted_lines(files@, files@.len() as int) <= u64::MAX,
                st.wf(),
                (st.by_language@, st.total_files as int, st.total_lines as int, st.total_blank_lines as int)
                    == stats_of(files@, i as int),
                st.total_files <= i,
                st.total_blank_lines <= st.total_lines,
            decreases files@.len() - i,
        {
            proof {
                lemma_counted_monotone(files@, i + 1, files@.len() as int);
                lemma_stats_lines(files@, i as int);
                lemma_blank_count_bounded(std_lines(files@[i as int].1@), std_lines(files@[i as int].1@).len() as int);
            }
            st.add_file(files[i].0.as_str(), files[i].1.as_str());
            i += 1;
        }
        st
    }
}

/// The first position in `t`, from `i` on, of an entry with fewer than `v`
/// lines (the length when there is none).
pub open spec fn lines_pos(t: Seq<(Language, LanguageStats)>, v: u64, i: int) -> int
    decreases t.len() - i,
{
    if i < 0 || i >= t.len() || t[i].1.lines < v {
        i
    } else {
        lines_pos(t, v, i + 1)
    }
}

/// The entries of `s` ordered by line count, most lines first, entries
/// with equal counts keeping their order: each entry in turn is put after
/// every entry placed so far with at least as many lines.
pub open spec fn by_lines(s: Seq<(Language, LanguageStats)>) -> Seq<(Language, LanguageStats)>
    decreases s.len(),
{
    if s.len() == 0 {
        Seq::empty()
    } else {
        let t = by_lines(s.drop_last());
        t.insert(lines_pos(t, s.last().1.lines, 0), s.last())
    }
}

proof fn lemma_lines_pos(t: Seq<(Language, LanguageStats)>, v: u64, i: int)
    requires
        0 <= i <= t.len(),
    ensures
        i <= lines_pos(t, v, i) <= t.len(),
        forall|j: int| i <= j < lines_pos(t, v, i) ==> (#[trigger] t[j]).1.lines >= v,
        lines_pos(t, v, i) < t.len() ==> t[lines_pos(t, v, i)].1.lines < v,
    decreases t.len() - i,
{
    if i < t.len() && t[i].1.lines >= v {
        lemma_lines_pos(t, v, i + 1);
    }
}

impl FileStats {
    /// The languages ordered by line count, most lines first; languages
    /// with equal counts stay in language order.
    pub fn sorted_by_lines(&self) -> (r: Vec<(Language, LanguageStats)>)
        ensures
            r@ == by_lines(self.by_language@),
    {
        let mut out: Vec<(Language, LanguageStats)> = Vec::new();
        let mut i: usize = 0;
        while i < self.by_language.len()
            invariant
                i <= self.by_language@.len(),
                out@ == by_lines(self.by_language@.take(i as int)),
            decreases self.by_language@.len() - i,
        {
            let x = self.by_language[i];
            let mut k: usize = 0;
            while k < out.len() && out[k].1.lines >= x.1.lines
                invariant
                    k <= out@.len(),
                    lines_pos(out@, x.1.lines, 0) == lines_pos(out@, x.1.lines, k as int),
                decreases out@.len() - k,
            {
                k += 1;
            }
            proof {
                lemma_lines_pos(out@, x.1.lines, k as int);
                let p = self.by_language@.take(i + 1);
                assert(p.drop_last() =~= self.by_language@.take(i as int));
                assert(p.last() == x);
            }
            out.insert(k, x);
            i += 1;
        }
        proof {
            assert(self.by_language@.take(i as int) =~= self.by_language@);
        }
        out
    }
}

/// Law: ordering by lines sorts the entries, most lines first, and keeps
/// each entry exactly once.
pub proof fn law_sorted_by_lines(s: Seq<(Language, LanguageStats)>)
    ensures
        by_lines(s).to_multiset() == s.to_multiset(),
        forall|i: int, j: int|
            0 <= i < j < by_lines(s).len() ==> (#[trigger] by_lines(s)[i]).1.lines >= (
            #[trigger] by_lines(s)[j]).1.lines,
    decreases s.len(),
{
    broadcast use vstd::seq_lib::group_to_multiset_ensures;

    if s.len() == 0 {
        assert(by_lines(s).to_multiset() =~= s.to_multiset());
    } else {
        law_sorted_by_lines(s.drop_last());
        let t = by_lines(s.drop_last());
        let x = s.last();
        let k = lines_pos(t, x.1.lines, 0);
        lemma_lines_pos(t, x.1.lines, 0);
        let r = t.insert(k, x);
        assert(r == by_lines(s));
        vstd::seq_lib::to_multiset_insert(t, k, x);
        assert(s =~= s.drop_last().push(x));
        assert(r.to_multiset() =~= s.to_multiset());
        assert forall|i: int, j: int| 0 <= i < j < r.len() implies (#[trigger] r[i]).1.lines >= (
        #[trigger] r[j]).1.lines by {
            if j < k {
                assert(r[i] == t[i] && r[j] == t[j]);
            } else if j == k {
                assert(r[i] == t[i]);
            } else if i < k {
                assert(r[i] == t[i] && r[j] == t[j - 1]);
                assert(t[k].1.lines < x.1.lines);
                if j - 1 > k {
                    assert(t[k].1.lines >= t[j - 1].1.lines);
                }
            } else if i == k {
                assert(r[j] == t[j - 1]);
                assert(t[k].1.lines < x.1.lines);
                if j - 1 > k {
                    assert(t[k].1.lines >= t[j - 1].1.lines);
                }
            } else {
                assert(r[i] == t[i - 1] && r[j] == t[j - 1]);
            }
        }
    }
}

/// The lines of the counted files (those with an extension) among the
/// first `n`.
pub open spec fn counted_lines(files: Seq<(String, String)>, n: int) -> int
    decreases n,
{
    if n <= 0 {
        0
    } else {
        counted_lines(files, n - 1) + if files[n - 1].0@.len() > 0 {
            std_lines(files[n - 1].1@).len() as int
        } else {
            0int
        }
    }
}

proof fn lemma_counted_monotone(files: Seq<(String, String)>, m: int, n: int)
    requires
        0 <= m <= n,
    ensures
        counted_lines(files, m) <= counted_lines(files, n),
    decreases n - m,
{
    if m < n {
        lemma_counted_monotone(files, m, n - 1);
    }
}

/// The breakdown and the totals of files, blank lines and lines after
/// counting the first `n` files, each given as extension and text.
pub open spec fn stats_of(files: Seq<(String, String)>, n: int) -> (Seq<(Language, LanguageStats)>, int, int, int)
    decreases n,
{
    if n <= 0 {
        (Seq::empty(), 0, 0, 0)
    } else {
        let (s, f, l, b) = stats_of(files, n - 1);
        let (ext, content) = files[n - 1];
        if ext@.len() == 0 {
            (s, f, l, b)
        } else {
            let ls = std_lines(content@);
            let lc = ls.len() as int;
            let bc = blank_count(ls, lc);
            (added(s, language_of(lowercase(ext@)), lc, bc), f + 1, l + lc, b + bc)
        }
    }
}

proof fn lemma_stats_lines(files: Seq<(String, String)>, n: int)
    requires
        0 <= n <= files.len(),
    ensures
        stats_of(files, n).2 == counted_lines(files, n),
    decreases n,
{
    if n > 0 {
        lemma_stats_lines(files, n - 1);
    }
}

/// The characters of the extensions in the table.
proof fn lemma_extension_literals()
    ensures
        "rs"@ == seq!['r', 's'],
        "js"@ == seq!['j', 's'],
        "mjs"@ == seq!['m', 'j', 's'],
        "cjs"@ == seq!['c', 'j', 's'],
        "jsx"@ == seq!['j', 's', 'x'],
        "ts"@ == seq!['t', 's'],
        "mts"@ == seq!['m', 't', 's'],
        "cts"@ == seq!['c', 't', 's'],
        "tsx"@ == seq!['t', 's', 'x'],
        "py"@ == seq!['p', 'y'],
        "pyw"@ == seq!['p', 'y', 'w'],
        "pyi"@ == seq!['p', 'y', 'i'],
        "go"@ == seq!['g', 'o'],
        "java"@ == seq!['j', 'a', 'v', 'a'],
        "cpp"@ == seq!['c', 'p', 'p'],
        "cxx"@ == seq!['c', 'x', 'x'],
        "cc"@ == seq!['c', 'c'],
        "hpp"@ == seq!['h', 'p', 'p'],
        "hxx"@ == seq!['h', 'x', 'x'],
        "hh"@ == seq!['h', 'h'],
        "c"@ == seq!['c'],
        "h"@ == seq!['h'],
        "rb"@ == seq!['r', 'b'],
        "rake"@ == seq!['r', 'a', 'k', 'e'],
        "swift"@ == seq!['s', 'w', 'i', 'f', 't'],
        "sh"@ == seq!['s', 'h'],
        "bash"@ == seq!['b', 'a', 's', 'h'],
        "zsh"@ == seq!['z', 's', 'h'],
        "fish"@ == seq!['f', 'i', 's', 'h'],
        "toml"@ == seq!['t', 'o', 'm', 'l'],
        "yml"@ == seq!['y', 'm', 'l'],
        "yaml"@ == seq!['y', 'a', 'm', 'l'],
        "json"@ == seq!['j', 's', 'o', 'n'],
        "jsonc"@ == seq!['j', 's', 'o', 'n', 'c'],
        "md"@ == seq!['m', 'd'],
        "mdx"@ == seq!['m', 'd', 'x'],
        "html"@ == seq!['h', 't', 'm', 'l'],
        "htm"@ == seq!['h', 't', 'm'],
        "css"@ == seq!['c', 's', 's'],
        "scss"@ == seq!['s', 'c', 's', 's'],
        "sass"@ == seq!['s', 'a', 's', 's'],
        "less"@ == seq!['l', 'e', 's', 's'],
        "sql"@ == seq!['s', 'q', 'l'],
{
    reveal_strlit("rs");
    assert("rs"@ =~= seq!['r', 's']);
    reveal_strlit("js");
    assert("js"@ =~= seq!['j', 's']);
    reveal_strlit("mjs");
    assert("mjs"@ =~= seq!['m', 'j', 's']);
    reveal_strlit("cjs");
    assert("cjs"@ =~= seq!['c', 'j', 's']);
    reveal_strlit("jsx");
    assert("jsx"@ =~= seq!['j', 's', 'x']);
    reveal_strlit("ts");
    assert("ts"@ =~= seq!['t', 's']);
    reveal_strlit("mts");
    assert("mts"@ =~= seq!['m', 't', 's']);
    reveal_strlit("cts");
    assert("cts"@ =~= seq!['c', 't', 's']);
    reveal_strlit("tsx");
    assert("tsx"@ =~= seq!['t', 's', 'x']);
    reveal_strlit("py");
    assert("py"@ =~= seq!['p', 'y']);
    reveal_strlit("pyw");
    assert("pyw"@ =~= seq!['p', 'y', 'w']);
    reveal_strlit("pyi");
    assert("pyi"@ =~= seq!['p', 'y', 'i']);
    reveal_strlit("go");
    assert("go"@ =~= seq!['g', 'o']);
    reveal_strlit("java");
    assert("java"@ =~= seq!['j', 'a', 'v', 'a']);
    reveal_strlit("cpp");
    assert("cpp"@ =~= seq!['c', 'p', 'p']);
    reveal_strlit("cxx");
    assert("cxx"@ =~= seq!['c', 'x', 'x']);
    reveal_strlit("cc");
    assert("cc"@ =~= seq!['c', 'c']);
    reveal_strlit("hpp");
    assert("hpp"@ =~= seq!['h', 'p', 'p']);
    reveal_strlit("hxx");
    assert("hxx"@ =~= seq!['h', 'x', 'x']);
    reveal_strlit("hh");
    assert("hh"@ =~= seq!['h', 'h']);
    reveal_strlit("c");
    assert("c"@ =~= seq!['c']);
    reveal_strlit("h");
    assert("h"@ =~= seq!['h']);
    reveal_strlit("rb");
    assert("rb"@ =~= seq!['r', 'b']);
    reveal_strlit("rake");
    assert("rake"@ =~= seq!['r', 'a', 'k', 'e']);
    reveal_strlit("swift");
    assert("swift"@ =~= seq!['s', 'w', 'i', 'f', 't']);
    reveal_strlit("sh");
    assert("sh"@ =~= seq!['s', 'h']);
    reveal_strlit("bash");
    assert("bash"@ =~= seq!['b', 'a', 's', 'h']);
    reveal_strlit("zsh");
    assert("zsh"@ =~= seq!['z', 's', 'h']);
    reveal_strlit("fish");
    assert("fish"@ =~= seq!['f', 'i', 's', 'h']);
    reveal_strlit("toml");
    assert("toml"@ =~= seq!['t', 'o', 'm', 'l']);
    reveal_strlit("yml");
    assert("yml"@ =~= seq!['y', 'm', 'l']);
    reveal_strlit("yaml");
    assert("yaml"@ =~= seq!['y', 'a', 'm', 'l']);
    reveal_strlit("json");
    assert("json"@ =~= seq!['j', 's', 'o', 'n']);
    reveal_strlit("jsonc");
    assert("jsonc"@ =~= seq!['j', 's', 'o', 'n', 'c']);
    reveal_strlit("md");
    assert("md"@ =~= seq!['m', 'd']);
    reveal_strlit("mdx");
    assert("mdx"@ =~= seq!['m', 'd', 'x']);
    reveal_strlit("html");
    assert("html"@ =~= seq!['h', 't', 'm', 'l']);
    reveal_strlit("htm");
    assert("htm"@ =~= seq!['h', 't', 'm']);
    reveal_strlit("css");
    assert("css"@ =~= seq!['c', 's', 's']);
    reveal_strlit("scss");
    assert("scss"@ =~= seq!['s', 'c', 's', 's']);
    reveal_strlit("sass");
    assert("sass"@ =~= seq!['s', 'a', 's', 's']);
    reveal_strlit("less");
    assert("less"@ =~= seq!['l', 'e', 's', 's']);
    reveal_strlit("sql");
    assert("sql"@ =~= seq!['s', 'q', 'l']);
}

/// The extensions naming Rust.
proof fn lemma_extensions_rust(e: Seq<char>)
    ensures
        (language_of(e) == Language::Rust) <==> (e == "rs"@),
{
    lemma_extension_literals();
    if e == "rs"@ {
        assert(e.len() == 2 && e[0] == 'r' && e[1] == 's');
    }
}

/// The extensions naming JavaScript.
proof fn lemma_extensions_javascript(e: Seq<char>)
    ensures
        (language_of(e) == Language::JavaScript) <==> (e == "js"@ || e == "mjs"@ || e == "cjs"@ || e == "jsx"@),
{
    lemma_extension_literals();
    if e == "js"@ {
        assert(e.len() == 2 && e[0] == 'j' && e[1] == 's');
    }
    if e == "mjs"@ {
        assert(e.len() == 3 && e[0] == 'm' && e[1] == 'j' && e[2] == 's');
    }
    if e == "cjs"@ {
        assert(e.len() == 3 && e[0] == 'c' && e[1] == 'j' && e[2] == 's');
    }
    if e == "jsx"@ {
        assert(e.len() == 3 && e[0] == 'j' && e[1] == 's' && e[2] == 'x');
    }
}

/// The extensions naming TypeScript.
proof fn lemma_extensions_typescript(e: Seq<char>)
    ensures
        (language_of(e) == Language::TypeScript) <==> (e == "ts"@ || e == "mts"@ || e == "cts"@ || e == "tsx"@),
{
    lemma_extension_literals();
    if e == "ts"@ {
        assert(e.len() == 2 && e[0] == 't' && e[1] == 's');
    }
    if e == "mts"@ {
        assert(e.len() == 3 && e[0] == 'm' && e[1] == 't' && e[2] == 's');
    }
    if e == "cts"@ {
        assert(e.len() == 3 && e[0] == 'c' && e[1] == 't' && e[2] == 's');
    }
    if e == "tsx"@ {
        assert(e.len() == 3 && e[0] == 't' && e[1] == 's' && e[2] == 'x');
    }
}

/// The extensions naming Python.
proof fn lemma_extensions_python(e: Seq<char>)
    ensures
        (language_of(e) == Language::Python) <==> (e == "py"@ || e == "pyw"@ || e == "pyi"@),
{
    lemma_extension_literals();
    if e == "py"@ {
        assert(e.len() == 2 && e[0] == 'p' && e[1] == 'y');
    }
    if e == "pyw"@ {
        assert(e.len() == 3 && e[0] == 'p' && e[1] == 'y' && e[2] == 'w');
    }
    if e == "pyi"@ {
        assert(e.len() == 3 && e[0] == 'p' && e[1] == 'y' && e[2] == 'i');
    }
}

/// The extensions naming Go.
proof fn lemma_extensions_go(e: Seq<char>)
    ensures
        (language_of(e) == Language::Go) <==> (e == "go"@),
{
    lemma_extension_literals();
    if e == "go"@ {
        assert(e.len() == 2 && e[0] == 'g' && e[1] == 'o');
    }
}

/// The extensions naming Java.
proof fn lemma_extensions_java(e: Seq<char>)
    ensures
        (language_of(e) == Language::Java) <==> (e == "java"@),
{
    lemma_extension_literals();
    if e == "java"@ {
        assert(e.len() == 4 && e[0] == 'j' && e[1] == 'a' && e[2] == 'v' && e[3] == 'a');
    }
}

/// The extensions naming Cpp.
proof fn lemma_extensions_cpp(e: Seq<char>)
    ensures
        (language_of(e) == Language::Cpp) <==> (e == "cpp"@ || e == "cxx"@ || e == "cc"@ || e == "hpp"@ || e == "hxx"@ || e == "hh"@),
{
    lemma_extension_literals();
    if e == "cpp"@ {
        assert(e.len() == 3 && e[0] == 'c' && e[1] == 'p' && e[2] == 'p');
    }
    if e == "cxx"@ {
        assert(e.len() == 3 && e[0] == 'c' && e[1] == 'x' && e[2] == 'x');
    }
    if e == "cc"@ {
        assert(e.len() == 2 && e[0] == 'c' && e[1] == 'c');
    }
    if e == "hpp"@ {
        assert(e.len() == 3 && e[0] == 'h' && e[1] == 'p' && e[2] == 'p');
    }
    if e == "hxx"@ {
        assert(e.len() == 3 && e[0] == 'h' && e[1] == 'x' && e[2] == 'x');
    }
    if e == "hh"@ {
        assert(e.len() == 2 && e[0] == 'h' && e[1] == 'h');
    }
}

/// The extensions naming C.
proof fn lemma_extensions_c(e: Seq<char>)
    ensures
        (language_of(e) == Language::C) <==> (e == "c"@ || e == "h"@),
{
    lemma_extension_literals();
    if e == "c"@ {
        assert(e.len() == 1 && e[0] == 'c');
    }
    if e == "h"@ {
        assert(e.len() == 1 && e[0] == 'h');
    }
}

/// The extensions naming Ruby.
proof fn lemma_extensions_ruby(e: Seq<char>)
    ensures
        (language_of(e) == Language::Ruby) <==> (e == "rb"@ || e == "rake"@),
{
    lemma_extension_literals();
    if e == "rb"@ {
        assert(e.len() == 2 && e[0] == 'r' && e[1] == 'b');
    }
    if e == "rake"@ {
        assert(e.len() == 4 && e[0] == 'r' && e[1] == 'a' && e[2] == 'k' && e[3] == 'e');
    }
}

/// The extensions naming Swift.
proof fn lemma_extensions_swift(e: Seq<char>)
    ensures
        (language_of(e) == Language::Swift) <==> (e == "swift"@),
{
    lemma_extension_literals();
    if e == "swift"@ {
        assert(e.len() == 5 && e[0] == 's' && e[1] == 'w' && e[2] == 'i' && e[3] == 'f' && e[4] == 't');
    }
}

/// The extensions naming Shell.
proof fn lemma_extensions_shell(e: Seq<char>)
    ensures
        (language_of(e) == Language::Shell) <==> (e == "sh"@ || e == "bash"@ || e == "zsh"@ || e == "fish"@),
{
    lemma_extension_literals();
    if e == "sh"@ {
        assert(e.len() == 2 && e[0] == 's' && e[1] == 'h');
    }
    if e == "bash"@ {
        assert(e.len() == 4 && e[0] == 'b' && e[1] == 'a' && e[2] == 's' && e[3] == 'h');
    }
    if e == "zsh"@ {
        assert(e.len() == 3 && e[0] == 'z' && e[1] == 's' && e[2] == 'h');
    }
    if e == "fish"@ {
        assert(e.len() == 4 && e[0] == 'f' && e[1] == 'i' && e[2] == 's' && e[3] == 'h');
    }
}

/// The extensions naming Toml.
proof fn lemma_extensions_toml(e: Seq<char>)
    ensures
        (language_of(e) == Language::Toml) <==> (e == "toml"@),
{
    lemma_extension_literals();
    if e == "toml"@ {
        assert(e.len() == 4 && e[0] == 't' && e[1] == 'o' && e[2] == 'm' && e[3] == 'l');
    }
}

/// The extensions naming Yaml.
proof fn lemma_extensions_yaml(e: Seq<char>)
    ensures
        (language_of(e) == Language::Yaml) <==> (e == "yml"@ || e == "yaml"@),
{
    lemma_extension_literals();
    if e == "yml"@ {
        assert(e.len() == 3 && e[0] == 'y' && e[1] == 'm' && e[2] == 'l');
    }
    if e == "yaml"@ {
        assert(e.len() == 4 && e[0] == 'y' && e[1] == 'a' && e[2] == 'm' && e[3] == 'l');
    }
}

/// The extensions naming Json.
proof fn lemma_extensions_json(e: Seq<char>)
    ensures
        (language_of(e) == Language::Json) <==> (e == "json"@ || e == "jsonc"@),
{
    lemma_extension_literals();
    if e == "json"@ {
        assert(e.len() == 4 && e[0] == 'j' && e[1] == 's' && e[2] == 'o' && e[3] == 'n');
    }
    if e == "jsonc"@ {
        assert(e.len() == 5 && e[0] == 'j' && e[1] == 's' && e[2] == 'o' && e[3] == 'n' && e[4] == 'c');
    }
}

/// The extensions naming Markdown.
proof fn lemma_extensions_markdown(e: Seq<char>)
    ensures
        (language_of(e) == Language::Markdown) <==> (e == "md"@ || e == "mdx"@),
{
    lemma_extension_literals();
    if e == "md"@ {
        assert(e.len() == 2 && e[0] == 'm' && e[1] == 'd');
    }
    if e == "mdx"@ {
        assert(e.len() == 3 && e[0] == 'm' && e[1] == 'd' && e[2] == 'x');
    }
}

/// The extensions naming Html.
proof fn lemma_extensions_html(e: Seq<char>)
    ensures
        (language_of(e) == Language::Html) <==> (e == "html"@ || e == "htm"@),
{
    lemma_extension_literals();
    if e == "html"@ {
        assert(e.len() == 4 && e[0] == 'h' && e[1] == 't' && e[2] == 'm' && e[3] == 'l');
    }
    if e == "htm"@ {
        assert(e.len() == 3 && e[0] == 'h' && e[1] == 't' && e[2] == 'm');
    }
}

/// The extensions naming Css.
proof fn lemma_extensions_css(e: Seq<char>)
    ensures
        (language_of(e) == Language::Css) <==> (e == "css"@ || e == "scss"@ || e == "sass"@ || e == "less"@),
{
    lemma_extension_literals();
    if e == "css"@ {
        assert(e.len() == 3 && e[0] == 'c' && e[1] == 's' && e[2] == 's');
    }
    if e == "scss"@ {
        assert(e.len() == 4 && e[0] == 's' && e[1] == 'c' && e[2] == 's' && e[3] == 's');
    }
    if e == "sass"@ {
        assert(e.len() == 4 && e[0] == 's' && e[1] == 'a' && e[2] == 's' && e[3] == 's');
    }
    if e == "less"@ {
        assert(e.len() == 4 && e[0] == 'l' && e[1] == 'e' && e[2] == 's' && e[3] == 's');
    }
}

/// The extensions naming Sql.
proof fn lemma_extensions_sql(e: Seq<char>)
    ensures
        (language_of(e) == Language::Sql) <==> (e == "sql"@),
{
    lemma_extension_literals();
    if e == "sql"@ {
        assert(e.len() == 3 && e[0] == 's' && e[1] == 'q' && e[2] == 'l');
    }
}

/// Law: the extension table. A lowercase extension names Rust when it is
/// `rs`; JavaScript for `js`, `mjs`, `cjs`, `jsx`; TypeScript for `ts`, `mts`,
/// `cts`, `tsx`; Python for `py`, `pyw`, `pyi`; Go for `go`; Java for
/// `java`; C++ for `cpp`, `cxx`, `cc`, `hpp`, `hxx`, `hh`; C for `c`, `h`;
/// Ruby for `rb`, `rake`; Swift for `swift`; Shell for `sh`, `bash`, `zsh`,
/// `fish`; TOML for `toml`; YAML for `yml`, `yaml`; JSON for `json`,
/// `jsonc`; Markdown for `md`, `mdx`; HTML for `html`, `htm`; CSS for `css`,
/// `scss`, `sass`, `less`; SQL for `sql`; and any other extension names
/// no language. Extensions are compared after lowering their case.
pub proof fn law_extension_table(e: Seq<char>)
    ensures
        (language_of(e) == Language::Rust) <==> (e == "rs"@),
        (language_of(e) == Language::JavaScript) <==> (e == "js"@ || e == "mjs"@ || e == "cjs"@ || e == "jsx"@),
        (language_of(e) == Language::TypeScript) <==> (e == "ts"@ || e == "mts"@ || e == "cts"@ || e == "tsx"@),
        (language_of(e) == Language::Python) <==> (e == "py"@ || e == "pyw"@ || e == "pyi"@),
        (language_of(e) == Language::Go) <==> (e == "go"@),
        (language_of(e) == Language::Java) <==> (e == "java"@),
        (language_of(e) == Language::Cpp) <==> (e == "cpp"@ || e == "cxx"@ || e == "cc"@ || e == "hpp"@ || e == "hxx"@ || e == "hh"@),
        (language_of(e) == Language::C) <==> (e == "c"@ || e == "h"@),
        (language_of(e) == Language::Ruby) <==> (e == "rb"@ || e == "rake"@),
        (language_of(e) == Language::Swift) <==> (e == "swift"@),
        (language_of(e) == Language::Shell) <==> (e == "sh"@ || e == "bash"@ || e == "zsh"@ || e == "fish"@),
        (language_of(e) == Language::Toml) <==> (e == "toml"@),
        (language_of(e) == Language::Yaml) <==> (e == "yml"@ || e == "yaml"@),
        (language_of(e) == Language::Json) <==> (e == "json"@ || e == "jsonc"@),
        (language_of(e) == Language::Markdown) <==> (e == "md"@ || e == "mdx"@),
        (language_of(e) == Language::Html) <==> (e == "html"@ || e == "htm"@),
        (language_of(e) == Language::Css) <==> (e == "css"@ || e == "scss"@ || e == "sass"@ || e == "less"@),
        (language_of(e) == Language::Sql) <==> (e == "sql"@),
        (language_of(e) == Language::Other) <==> !(e == "rs"@ || e == "js"@ || e == "mjs"@ || e == "cjs"@ || e == "jsx"@ || e == "ts"@ || e == "mts"@ || e == "cts"@ || e == "tsx"@ || e == "py"@ || e == "pyw"@ || e == "pyi"@ || e == "go"@ || e == "java"@ || e == "cpp"@ || e == "cxx"@ || e == "cc"@ || e == "hpp"@ || e == "hxx"@ || e == "hh"@ || e == "c"@ || e == "h"@ || e == "rb"@ || e == "rake"@ || e == "swift"@ || e == "sh"@ || e == "bash"@ || e == "zsh"@ || e == "fish"@ || e == "toml"@ || e == "yml"@ || e == "yaml"@ || e == "json"@ || e == "jsonc"@ || e == "md"@ || e == "mdx"@ || e == "html"@ || e == "htm"@ || e == "css"@ || e == "scss"@ || e == "sass"@ || e == "less"@ || e == "sql"@),
{
    lemma_extensions_rust(e);
    lemma_extensions_javascript(e);
    lemma_extensions_typescript(e);
    lemma_extensions_python(e);
    lemma_extensions_go(e);
    lemma_extensions_java(e);
    lemma_extensions_cpp(e);
    lemma_extensions_c(e);
    lemma_extensions_ruby(e);
    lemma_extensions_swift(e);
    lemma_extensions_shell(e);
    lemma_extensions_toml(e);
    lemma_extensions_yaml(e);
    lemma_extensions_json(e);
    lemma_extensions_markdown(e);
    lemma_extensions_html(e);
    lemma_extensions_css(e);
    lemma_extensions_sql(e);
}

} // verus!
