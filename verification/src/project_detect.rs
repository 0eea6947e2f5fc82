//! Project type detection, `.gitignore` generation, and dependency
//! manifests.
//!
//! The decisions are made on plain values: the names found in a directory,
//! the text of a manifest. Reading them from disk is left to the caller.
use vstd::prelude::*;
use crate::rule_parser::{find_sub, find_sub_exec, lemma_find_sub_bounds};
use crate::text::{
    chars_end_with, chars_eq, chars_of, chars_start_with, concat_str, ends_with, ordered_names,
    sort_strings, split_lines, split_words, starts_with, str_eq, string_of, strings_contain,
    strings_view, sub_chars, text_lines, trim, trim_chars, words, words_from,
};

verus! {

/// Recognized project types.
#[derive(Debug, Clone, Copy, PartialEq, Eq, Hash, PartialOrd, Ord, Structural)]
pub enum ProjectType {
    Rust,
    Node,
    Python,
    Go,
    Java,
    Cpp,
    Ruby,
    Swift,
}

/// The display name of a project type.
pub open spec fn project_type_name(t: ProjectType) -> Seq<char> {
    match t {
        ProjectType::Rust => "Rust"@,
        ProjectType::Node => "Node.js"@,
        ProjectType::Python => "Python"@,
        ProjectType::Go => "Go"@,
        ProjectType::Java => "Java"@,
        ProjectType::Cpp => "C/C++"@,
        ProjectType::Ruby => "Ruby"@,
        ProjectType::Swift => "Swift"@,
    }
}

/// The `.gitignore` content for a project type.
pub open spec fn gitignore_text(t: ProjectType) -> Seq<char> {
    match t {
        ProjectType::Rust => "/target/\n**/*.rs.bk\nCargo.lock\n*.pdb\n"@,
        ProjectType::Node => "node_modules/\ndist/\n.env\n.env.local\n*.log\nnpm-debug.log*\nyarn-debug.log*\nyarn-error.log*\n.next/\n.nuxt/\n"@,
        ProjectType::Python => "__pycache__/\n*.py[cod]\n*$py.class\n*.egg-info/\ndist/\nbuild/\n.venv/\nvenv/\n.env\n*.egg\n.pytest_cache/\n.mypy_cache/\n"@,
        ProjectType::Go => "/vendor/\n*.exe\n*.exe~\n*.dll\n*.so\n*.dylib\n*.test\n*.out\ngo.work\n"@,
        ProjectType::Java => "*.class\n*.jar\n*.war\n*.ear\ntarget/\nbuild/\n.gradle/\n.idea/\n*.iml\nout/\n"@,
        ProjectType::Cpp => "build/\n*.o\n*.obj\n*.so\n*.dylib\n*.dll\n*.exe\n*.a\n*.lib\nCMakeCache.txt\nCMakeFiles/\ncmake-build-*/\n"@,
        ProjectType::Ruby => "*.gem\n*.rbc\n/.config\n/coverage/\n/InstalledFiles\n/pkg/\n/spec/reports/\n/test/tmp/\n/test/version_tmp/\n/tmp/\n.bundle/\nvendor/bundle\n"@,
        ProjectType::Swift => ".build/\nPackages/\n*.xcodeproj/xcuserdata/\n*.xcworkspace/xcuserdata/\n*.playground/timeline.xctimeline\n*.playground/playground.xcworkspace\nDerivedData/\n.swiftpm/\n"@,
    }
}

impl ProjectType {
    /// The display name (`Rust`, `Node.js`, `Python`, `Go`, `Java`, `C/C++`,
    /// `Ruby`, `Swift`).
    pub fn to_string(&self) -> (r: String)
        ensures
            r@ == project_type_name(*self),
    {
        match self {
            ProjectType::Rust => "Rust".to_owned(),
            ProjectType::Node => "Node.js".to_owned(),
            ProjectType::Python => "Python".to_owned(),
            ProjectType::Go => "Go".to_owned(),
            ProjectType::Java => "Java".to_owned(),
            ProjectType::Cpp => "C/C++".to_owned(),
            ProjectType::Ruby => "Ruby".to_owned(),
            ProjectType::Swift => "Swift".to_owned(),
        }
    }
}

/// Generate `.gitignore` content for a project type.
pub fn generate_gitignore(project_type: ProjectType) -> (r: &'static str)
    ensures
        r@ == gitignore_text(project_type),
{
    match project_type {
        ProjectType::Rust => "/target/\n**/*.rs.bk\nCargo.lock\n*.pdb\n",
        ProjectType::Node => "node_modules/\ndist/\n.env\n.env.local\n*.log\nnpm-debug.log*\nyarn-debug.log*\nyarn-error.log*\n.next/\n.nuxt/\n",
        ProjectType::Python => "__pycache__/\n*.py[cod]\n*$py.class\n*.egg-info/\ndist/\nbuild/\n.venv/\nvenv/\n.env\n*.egg\n.pytest_cache/\n.mypy_cache/\n",
        ProjectType::Go => "/vendor/\n*.exe\n*.exe~\n*.dll\n*.so\n*.dylib\n*.test\n*.out\ngo.work\n",
        ProjectType::Java => "*.class\n*.jar\n*.war\n*.ear\ntarget/\nbuild/\n.gradle/\n.idea/\n*.iml\nout/\n",
        ProjectType::Cpp => "build/\n*.o\n*.obj\n*.so\n*.dylib\n*.dll\n*.exe\n*.a\n*.lib\nCMakeCache.txt\nCMakeFiles/\ncmake-build-*/\n",
        ProjectType::Ruby => "*.gem\n*.rbc\n/.config\n/coverage/\n/InstalledFiles\n/pkg/\n/spec/reports/\n/test/tmp/\n/test/version_tmp/\n/tmp/\n.bundle/\nvendor/bundle\n",
        ProjectType::Swift => ".build/\nPackages/\n*.xcodeproj/xcuserdata/\n*.xcworkspace/xcuserdata/\n*.playground/timeline.xctimeline\n*.playground/playground.xcworkspace\nDerivedData/\n.swiftpm/\n",
    }
}

/// The section for one project type: a `# === Name ===` header line, then
/// the type's content.
pub open spec fn gitignore_section(t: ProjectType) -> Seq<char> {
    "# === "@ + project_type_name(t) + " ===\n"@ + gitignore_text(t)
}

/// The sections of the given types, separated by blank lines.
pub open spec fn gitignore_multi_text(types: Seq<ProjectType>) -> Seq<char>
    decreases types.len(),
{
    if types.len() == 0 {
        Seq::empty()
    } else if types.len() == 1 {
        gitignore_section(types[0])
    } else {
        gitignore_multi_text(types.drop_last()) + "\n\n"@ + gitignore_section(types.last())
    }
}

/// Generate the combined `.gitignore` for several project types: one
/// section per type, in the order given, separated by blank lines.
pub fn generate_gitignore_multi(types: &[ProjectType]) -> (r: String)
    ensures
        r@ == gitignore_multi_text(types@),
{
    let mut out = String::new();
    let mut i: usize = 0;
    while i < types.len()
        invariant
            i <= types.len(),
            out@ == gitignore_multi_text(types@.take(i as int)),
        decreases types.len() - i,
    {
        let t = types[i];
        let head = concat_str("# === ", t.to_string().as_str());
        let head = concat_str(head.as_str(), " ===\n");
        let section = concat_str(head.as_str(), generate_gitignore(t));
        proof {
            assert(types@.take(i + 1).drop_last() =~= types@.take(i as int));
            assert(types@.take(i + 1).last() == t);
        }
        if i == 0 {
            out = section;
        } else {
            let sep = concat_str(out.as_str(), "\n\n");
            out = concat_str(sep.as_str(), section.as_str());
        }
        i += 1;
    }
    proof {
        assert(types@.take(i as int) =~= types@);
    }
    out
}


// ── Dependency manifests ───────────────────────────────────────────────

/// A dependency named in a manifest.
#[derive(Debug, Clone, PartialEq, Eq)]
pub struct Dependency {
    /// Dependency name.
    pub name: String,
    /// Version specifier (if available).
    pub version: Option<String>,
}

/// A dependency as plain values: its name and version.
pub open spec fn dep_view(d: Dependency) -> (Seq<char>, Option<Seq<char>>) {
    (d.name@, match d.version {
        Some(v) => Some(v@),
        None => None,
    })
}

/// The dependencies of a list, as plain values.
pub open spec fn deps_view(s: Seq<Dependency>) -> Seq<(Seq<char>, Option<Seq<char>>)> {
    s.map_values(|d: Dependency| dep_view(d))
}

/// The dependency named on one line of a `requirements.txt`: blank lines,
/// comments (`#`) and options (`-`) name none; `name==v` gives version `v`,
/// `name>=v` and `name~=v` keep their operator, a bare name has no version.
pub open spec fn requirement_of(line: Seq<char>) -> Option<(Seq<char>, Option<Seq<char>>)> {
    let t = trim(line);
    if t.len() == 0 || t[0] == '#' || t[0] == '-' {
        None
    } else {
        match find_sub(t, "=="@, 0) {
            Some(p) => Some((trim(t.take(p)), Some(t.skip(p + 2)))),
            None => match find_sub(t, ">="@, 0) {
                Some(p) => Some((trim(t.take(p)), Some(">="@ + t.skip(p + 2)))),
                None => match find_sub(t, "~="@, 0) {
                    Some(p) => Some((trim(t.take(p)), Some("~="@ + t.skip(p + 2)))),
                    None => Some((t, None)),
                },
            },
        }
    }
}

/// The dependencies named on the given lines, in order.
pub open spec fn requirements_of(lines: Seq<Seq<char>>) -> Seq<(Seq<char>, Option<Seq<char>>)>
    decreases lines.len(),
{
    if lines.len() == 0 {
        Seq::empty()
    } else {
        let prev = requirements_of(lines.drop_last());
        match requirement_of(lines.last()) {
            Some(d) => prev.push(d),
            None => prev,
        }
    }
}

/// The line's dependency, when it names one.
fn parse_requirement_line(line: &[char]) -> (r: Option<Dependency>)
    ensures
        match r {
            Some(d) => requirement_of(line@) == Some(dep_view(d)),
            None => requirement_of(line@) is None,
        },
{
    let t = trim_chars(line);
    if t.len() == 0 || t[0] == '#' || t[0] == '-' {
        return None;
    }
    let eq = chars_of("==");
    let ge = chars_of(">=");
    let compat = chars_of("~=");
    proof {
        reveal_strlit("==");
        reveal_strlit(">=");
        reveal_strlit("~=");
    }
    let found_eq = find_sub_exec(t.as_slice(), eq.as_slice());
    proof {
        lemma_find_sub_bounds(t@, eq@, 0);
    }
    if let Some(p) = found_eq {
        let name = trim_chars(sub_chars(t.as_slice(), 0, p).as_slice());
        let version = sub_chars(t.as_slice(), p + 2, t.len());
        proof {
            assert(t@.subrange(0, p as int) =~= t@.take(p as int));
            assert(t@.subrange(p + 2, t.len() as int) =~= t@.skip(p + 2));
        }
        return Some(Dependency { name: string_of(name.as_slice()), version: Some(string_of(version.as_slice())) });
    }
    let found_ge = find_sub_exec(t.as_slice(), ge.as_slice());
    proof {
        lemma_find_sub_bounds(t@, ge@, 0);
    }
    if let Some(p) = found_ge {
        let name = trim_chars(sub_chars(t.as_slice(), 0, p).as_slice());
        let rest = string_of(sub_chars(t.as_slice(), p + 2, t.len()).as_slice());
        proof {
            assert(t@.subrange(0, p as int) =~= t@.take(p as int));
            assert(t@.subrange(p + 2, t.len() as int) =~= t@.skip(p + 2));
        }
        return Some(Dependency { name: string_of(name.as_slice()), version: Some(concat_str(">=", rest.as_str())) });
    }
    let found_compat = find_sub_exec(t.as_slice(), compat.as_slice());
    proof {
        lemma_find_sub_bounds(t@, compat@, 0);
    }
    if let Some(p) = found_compat {
        let name = trim_chars(sub_chars(t.as_slice(), 0, p).as_slice());
        let rest = string_of(sub_chars(t.as_slice(), p + 2, t.len()).as_slice());
        proof {
            assert(t@.subrange(0, p as int) =~= t@.take(p as int));
            assert(t@.subrange(p + 2, t.len() as int) =~= t@.skip(p + 2));
        }
        return Some(Dependency { name: string_of(name.as_slice()), version: Some(concat_str("~=", rest.as_str())) });
    }
    Some(Dependency { name: string_of(t.as_slice()), version: None })
}

/// The dependencies of a `requirements.txt`, in the order of its lines.
pub fn parse_requirements(content: &str) -> (r: Vec<Dependency>)
    ensures
        deps_view(r@) == requirements_of(split_lines(content@)),
{
    let lines = text_lines(content);
    let ghost ls = lines@.map_values(|l: Vec<char>| l@);
    let mut out: Vec<Dependency> = Vec::new();
    let mut i: usize = 0;
    while i < lines.len()
        invariant
            i <= lines.len(),
            ls == lines@.map_values(|l: Vec<char>| l@),
            ls == split_lines(content@),
            deps_view(out@) == requirements_of(ls.take(i as int)),
        decreases lines.len() - i,
    {
        proof {
            assert(ls.take(i + 1).drop_last() =~= ls.take(i as int));
            assert(ls.take(i + 1).last() == lines@[i as int]@);
        }
        match parse_requirement_line(lines[i].as_slice()) {
            Some(d) => {
                let ghost before = out@;
                out.push(d);
                proof {
                    assert(deps_view(out@) =~= deps_view(before).push(dep_view(d)));
                }
            },
            None => {},
        }
        i += 1;
    }
    proof {
        assert(ls.take(i as int) =~= ls);
    }
    out
}

/// The dependencies of the `require ( ... )` blocks of a `go.mod` read
/// so far, and whether the last line read is inside such a block. A line
/// inside a block names a dependency when it has at least two words (the
/// module and its version) and is not a `//` comment.
pub open spec fn go_mod_state(lines: Seq<Seq<char>>) -> (Seq<(Seq<char>, Option<Seq<char>>)>, bool)
    decreases lines.len(),
{
    if lines.len() == 0 {
        (Seq::empty(), false)
    } else {
        let (deps, inside) = go_mod_state(lines.drop_last());
        let t = trim(lines.last());
        if t == "require ("@ {
            (deps, true)
        } else if t == ")"@ {
            (deps, false)
        } else if inside && t.len() > 0 && !starts_with(t, "//"@) && words(t).len() >= 2 {
            (deps.push((words(t)[0], Some(words(t)[1]))), inside)
        } else {
            (deps, inside)
        }
    }
}

/// The dependencies required by a `go.mod`, in order.
pub fn parse_go_mod(content: &str) -> (r: Vec<Dependency>)
    ensures
        deps_view(r@) == go_mod_state(split_lines(content@)).0,
{
    let lines = text_lines(content);
    let ghost ls = lines@.map_values(|l: Vec<char>| l@);
    let open_block = chars_of("require (");
    let close_block = chars_of(")");
    let comment = chars_of("//");
    let mut out: Vec<Dependency> = Vec::new();
    let mut inside = false;
    let mut i: usize = 0;
    while i < lines.len()
        invariant
            i <= lines.len(),
            ls == lines@.map_values(|l: Vec<char>| l@),
            ls == split_lines(content@),
            open_block@ == "require ("@,
            close_block@ == ")"@,
            comment@ == "//"@,
            (deps_view(out@), inside) == go_mod_state(ls.take(i as int)),
        decreases lines.len() - i,
    {
        proof {
            assert(ls.take(i + 1).drop_last() =~= ls.take(i as int));
            assert(ls.take(i + 1).last() == lines@[i as int]@);
        }
        let t = trim_chars(lines[i].as_slice());
        if chars_eq(t.as_slice(), open_block.as_slice()) {
            inside = true;
        } else if chars_eq(t.as_slice(), close_block.as_slice()) {
            inside = false;
        } else if inside && t.len() > 0 && !chars_start_with(t.as_slice(), comment.as_slice()) {
            let parts = split_words(t.as_slice());
            if parts.len() >= 2 {
                proof {
                    assert(parts@[0]@ == words(t@)[0]);
                    assert(parts@[1]@ == words(t@)[1]);
                }
                let d = Dependency {
                    name: string_of(parts[0].as_slice()),
                    version: Some(string_of(parts[1].as_slice())),
                };
                let ghost before = out@;
                out.push(d);
                proof {
                    assert(deps_view(out@) =~= deps_view(before).push(dep_view(d)));
                }
            }
        }
        i += 1;
    }
    proof {
        assert(ls.take(i as int) =~= ls);
    }
    out
}


// ── Detection ───────────────────────────────────────────────────────────

/// The marker files that identify a project type; a marker starting with
/// `*` matches any name ending with the rest of it.
pub open spec fn markers_of(t: ProjectType) -> Seq<Seq<char>> {
    match t {
        ProjectType::Rust => seq!["Cargo.toml"@],
        ProjectType::Node => seq!["package.json"@],
        ProjectType::Python => seq!["requirements.txt"@, "pyproject.toml"@, "setup.py"@, "Pipfile"@],
        ProjectType::Go => seq!["go.mod"@],
        ProjectType::Java => seq!["pom.xml"@, "build.gradle"@, "build.gradle.kts"@],
        ProjectType::Cpp => seq!["CMakeLists.txt"@, "Makefile"@, "meson.build"@],
        ProjectType::Ruby => seq!["Gemfile"@],
        ProjectType::Swift => seq!["Package.swift"@, "*.xcodeproj"@],
    }
}

/// Whether a directory holding the entries `names` has the marker `m`.
pub open spec fn marker_present(names: Seq<Seq<char>>, m: Seq<char>) -> bool {
    if m.len() > 0 && m[0] == '*' {
        exists|k: int| 0 <= k < names.len() && ends_with(#[trigger] names[k], m.skip(1))
    } else {
        names.contains(m)
    }
}

/// Whether a directory holding the entries `names` is a project of type `t`.
pub open spec fn has_type(names: Seq<Seq<char>>, t: ProjectType) -> bool {
    exists|k: int| 0 <= k < markers_of(t).len() && marker_present(names, #[trigger] markers_of(t)[k])
}

/// All project types, in order.
pub open spec fn all_types() -> Seq<ProjectType> {
    seq![ProjectType::Rust, ProjectType::Node, ProjectType::Python, ProjectType::Go, ProjectType::Java, ProjectType::Cpp, ProjectType::Ruby, ProjectType::Swift]
}

/// The project types of a directory holding the entries `names`, in order.
pub open spec fn types_of(names: Seq<Seq<char>>) -> Seq<ProjectType> {
    all_types().filter(|t: ProjectType| has_type(names, t))
}

/// Directory names never taken for sub-projects: hidden ones and common
/// dependency or build output directories.
pub open spec fn skipped_dir(name: Seq<char>) -> bool {
    ||| (name.len() > 0 && name[0] == '.')
    ||| name == "node_modules"@
    ||| name == "target"@
    ||| name == "vendor"@
    ||| name == "dist"@
    ||| name == "build"@
}

/// A sub-directory `name` holding `entries` that is a sub-project.
pub open spec fn is_sub_project(name: Seq<char>, entries: Seq<Seq<char>>) -> bool {
    !skipped_dir(name) && exists|t: ProjectType| has_type(entries, t)
}

/// Result of project detection.
#[derive(Debug)]
pub struct ProjectInfo {
    /// Detected project types (a project can be multi-language).
    pub types: Vec<ProjectType>,
    /// Whether this appears to be a monorepo (multiple sub-projects).
    pub is_monorepo: bool,
    /// Detected sub-project directories (for monorepos).
    pub sub_projects: Vec<String>,
}

/// The test for a sub-directory, given with the names of its entries, that
/// is a sub-project.
pub open spec fn sub_project_test() -> spec_fn((String, Vec<String>)) -> bool {
    |d: (String, Vec<String>)| is_sub_project(d.0@, strings_view(d.1@))
}

/// The names of the sub-directories that are sub-projects, in the order
/// given.
pub open spec fn sub_project_names(s: Seq<(String, Vec<String>)>) -> Seq<String> {
    s.filter(sub_project_test()).map_values(|d: (String, Vec<String>)| d.0)
}

/// The marker files of a project type.
fn markers_for(t: ProjectType) -> (r: Vec<&'static str>)
    ensures
        r@.map_values(|m: &str| m@) == markers_of(t),
{
    let mut r: Vec<&'static str> = Vec::new();
    match t {
        ProjectType::Rust => {
            r.push("Cargo.toml");
        },
        ProjectType::Node => {
            r.push("package.json");
        },
        ProjectType::Python => {
            r.push("requirements.txt");
            r.push("pyproject.toml");
            r.push("setup.py");
            r.push("Pipfile");
        },
        ProjectType::Go => {
            r.push("go.mod");
        },
        ProjectType::Java => {
            r.push("pom.xml");
            r.push("build.gradle");
            r.push("build.gradle.kts");
        },
        ProjectType::Cpp => {
            r.push("CMakeLists.txt");
            r.push("Makefile");
            r.push("meson.build");
        },
        ProjectType::Ruby => {
            r.push("Gemfile");
        },
        ProjectType::Swift => {
            r.push("Package.swift");
            r.push("*.xcodeproj");
        },
    }
    proof {
        assert(r@.map_values(|m: &str| m@) =~= markers_of(t));
    }
    r
}

/// Whether the entries `names` hold the marker `m`.
fn has_marker(names: &[String], m: &str) -> (r: bool)
    ensures
        r == marker_present(strings_view(names@), m@),
{
    let mc = chars_of(m);
    if mc.len() > 0 && mc[0] == '*' {
        let suffix = sub_chars(mc.as_slice(), 1, mc.len());
        proof {
            assert(suffix@ =~= m@.skip(1));
        }
        let mut k: usize = 0;
        while k < names.len()
            invariant
                k <= names.len(),
                mc@ == m@,
                m@.len() > 0 && m@[0] == '*',
                suffix@ == m@.skip(1),
                forall|j: int| 0 <= j < k ==> !ends_with(#[trigger] strings_view(names@)[j], m@.skip(1)),
            decreases names.len() - k,
        {
            let nc = chars_of(names[k].as_str());
            assert(nc@ == strings_view(names@)[k as int]);
            if chars_end_with(nc.as_slice(), suffix.as_slice()) {
                proof {
                    assert(mc@ == m@);
                    assert(ends_with(strings_view(names@)[k as int], m@.skip(1)));
                }
                return true;
            }
            k += 1;
        }
        false
    } else {
        strings_contain(names, m)
    }
}

/// Whether the entries `names` make a project of type `t`.
fn detect_type(names: &[String], t: ProjectType) -> (r: bool)
    ensures
        r == has_type(strings_view(names@), t),
{
    let ms = markers_for(t);
    let ghost mv = ms@.map_values(|m: &str| m@);
    let mut k: usize = 0;
    while k < ms.len()
        invariant
            k <= ms.len(),
            mv == ms@.map_values(|m: &str| m@),
            mv == markers_of(t),
            forall|j: int| 0 <= j < k ==> !marker_present(strings_view(names@), #[trigger] mv[j]),
        decreases ms.len() - k,
    {
        assert(mv[k as int] == ms@[k as int]@);
        if has_marker(names, ms[k]) {
            return true;
        }
        k += 1;
    }
    false
}

/// Whether the entries `names` make a project of any type.
fn detect_any(names: &[String]) -> (r: bool)
    ensures
        r == exists|t: ProjectType| has_type(strings_view(names@), t),
{
    let all = [ProjectType::Rust, ProjectType::Node, ProjectType::Python, ProjectType::Go, ProjectType::Java, ProjectType::Cpp, ProjectType::Ruby, ProjectType::Swift];
    let mut k: usize = 0;
    while k < 8
        invariant
            k <= 8,
            all@ == all_types(),
            forall|j: int| 0 <= j < k ==> !has_type(strings_view(names@), #[trigger] all_types()[j]),
        decreases 8 - k,
    {
        if detect_type(names, all[k]) {
            return true;
        }
        k += 1;
    }
    proof {
        assert forall|t: ProjectType| !has_type(strings_view(names@), t) by {
            match t {
                ProjectType::Rust => { assert(all_types()[0] == t); },
                ProjectType::Node => { assert(all_types()[1] == t); },
                ProjectType::Python => { assert(all_types()[2] == t); },
                ProjectType::Go => { assert(all_types()[3] == t); },
                ProjectType::Java => { assert(all_types()[4] == t); },
                ProjectType::Cpp => { assert(all_types()[5] == t); },
                ProjectType::Ruby => { assert(all_types()[6] == t); },
                ProjectType::Swift => { assert(all_types()[7] == t); },
            }
        }
    }
    false
}

/// Whether a sub-directory name is never taken for a sub-project.
fn is_skipped_dir(name: &str) -> (r: bool)
    ensures
        r == skipped_dir(name@),
{
    let c = chars_of(name);
    (c.len() > 0 && c[0] == '.') || str_eq(name, "node_modules") || str_eq(name, "target") || str_eq(
        name,
        "vendor",
    ) || str_eq(name, "dist") || str_eq(name, "build")
}

/// Detect project types and structure from a directory listing: the names
/// of the entries at the root, and for each sub-directory its name and the
/// names of its entries.
///
/// The root's types come in the order of [`ProjectType`]; sub-projects are
/// the sub-directories that hold markers themselves (hidden and build
/// directories aside), sorted by name; two or more make a monorepo.
pub fn detect_from_listing(root_entries: &[String], subdirs: &[(String, Vec<String>)]) -> (r: ProjectInfo)
    ensures
        r.types@ == types_of(strings_view(root_entries@)),
        ordered_names(strings_view(r.sub_projects@)),
        r.sub_projects@.to_multiset() == sub_project_names(subdirs@).to_multiset(),
        r.is_monorepo == (r.sub_projects@.len() >= 2),
{
    let ghost names = strings_view(root_entries@);
    let all = [ProjectType::Rust, ProjectType::Node, ProjectType::Python, ProjectType::Go, ProjectType::Java, ProjectType::Cpp, ProjectType::Ruby, ProjectType::Swift];
    let mut types: Vec<ProjectType> = Vec::new();
    let mut k: usize = 0;
    while k < 8
        invariant
            k <= 8,
            all@ == all_types(),
            names == strings_view(root_entries@),
            types@ == all_types().take(k as int).filter(|t: ProjectType| has_type(names, t)),
        decreases 8 - k,
    {
        proof {
            assert(all_types().take(k + 1) =~= all_types().take(k as int).push(all_types()[k as int]));
            all_types().take(k as int).lemma_filter_push(all_types()[k as int], |t: ProjectType| has_type(names, t));
        }
        if detect_type(root_entries, all[k]) {
            types.push(all[k]);
        }
        k += 1;
    }
    proof {
        assert(all_types().take(8) =~= all_types());
    }
    let ghost keep = sub_project_test();
    let mut subs: Vec<String> = Vec::new();
    let mut j: usize = 0;
    while j < subdirs.len()
        invariant
            j <= subdirs.len(),
            keep == sub_project_test(),
            subs@ == subdirs@.take(j as int).filter(keep).map_values(|d: (String, Vec<String>)| d.0),
        decreases subdirs.len() - j,
    {
        proof {
            assert(subdirs@.take(j + 1) =~= subdirs@.take(j as int).push(subdirs@[j as int]));
            subdirs@.take(j as int).lemma_filter_push(subdirs@[j as int], keep);
        }
        let name = &subdirs[j].0;
        let entries = &subdirs[j].1;
        assert(keep(subdirs@[j as int]) == is_sub_project(name@, strings_view(entries@)));
        let skip = is_skipped_dir(name.as_str());
        let any = detect_any(entries.as_slice());
        assert(skip == skipped_dir(name@));
        assert(any == exists|t: ProjectType| has_type(strings_view(entries@), t));
        if !skip && any {
            let ghost before = subs@;
            subs.push(name.clone());
            proof {
                assert(!skipped_dir(name@));
                assert(exists|t: ProjectType| has_type(strings_view(entries@), t));
                assert(is_sub_project(name@, strings_view(entries@)));
                assert(keep(subdirs@[j as int]));
                assert(subdirs@.take(j + 1).filter(keep) == subdirs@.take(j as int).filter(keep).push(subdirs@[j as int]));
                assert(subdirs@.take(j as int).filter(keep).push(subdirs@[j as int]).map_values(
                    |d: (String, Vec<String>)| d.0,
                ) =~= subdirs@.take(j as int).filter(keep).map_values(|d: (String, Vec<String>)| d.0).push(
                    subdirs@[j as int].0,
                ));
            }
        }
        else {
            proof {
                assert(!keep(subdirs@[j as int]));
                assert(subdirs@.take(j + 1).filter(keep) == subdirs@.take(j as int).filter(keep));
            }
        }
        j += 1;
    }
    proof {
        assert(subdirs@.take(j as int) =~= subdirs@);
    }
    let sorted = sort_strings(subs);
    let is_monorepo = sorted.len() >= 2;
    ProjectInfo { types, is_monorepo, sub_projects: sorted }
}

/// Law: inside a `require ( ... )` block, a line that is neither the
/// block's opening nor its closing nor a `//` comment, and has at least two
/// words, adds one dependency: the module named by its first word, at the
/// version given by its second word, whatever follows it (such as a
/// `// indirect` comment); the block stays open. Outside a block such a line
/// adds nothing.
pub proof fn law_go_mod_version_is_second_word(lines: Seq<Seq<char>>, l: Seq<char>)
    requires
        trim(l) != "require ("@,
        trim(l) != ")"@,
        !starts_with(trim(l), "//"@),
        words(trim(l)).len() >= 2,
    ensures
        go_mod_state(lines).1 ==> go_mod_state(lines.push(l)) == (
            go_mod_state(lines).0.push((words(trim(l))[0], Some(words(trim(l))[1]))),
            true,
        ),
        !go_mod_state(lines).1 ==> go_mod_state(lines.push(l)) == go_mod_state(lines),
{
    assert(lines.push(l).drop_last() =~= lines);
    assert(lines.push(l).last() == l);
    let t = trim(l);
    if t.len() == 0 {
        assert(words_from(t, 0) =~= Seq::<Seq<char>>::empty());
    }
}

/// Law: how a `go.mod` is read, line by line. Nothing is read before the
/// first line. A line reading `require (` (around white space) opens a
/// block and a line reading `)` closes it, adding nothing; a `//` comment,
/// or a line of fewer than two words, adds nothing and leaves the block as
/// it was.
pub proof fn law_go_mod_blocks(lines: Seq<Seq<char>>, l: Seq<char>)
    ensures
        go_mod_state(Seq::empty()) == (Seq::<(Seq<char>, Option<Seq<char>>)>::empty(), false),
        trim(l) == "require ("@ ==> go_mod_state(lines.push(l)) == (go_mod_state(lines).0, true),
        trim(l) == ")"@ ==> go_mod_state(lines.push(l)) == (go_mod_state(lines).0, false),
        (trim(l) != "require ("@ && trim(l) != ")"@ && (starts_with(trim(l), "//"@) || words(trim(l)).len() < 2))
            ==> go_mod_state(lines.push(l)) == go_mod_state(lines),
{
    reveal_strlit("require (");
    reveal_strlit(")");
    assert(")"@.len() != "require ("@.len());
    assert(lines.push(l).drop_last() =~= lines);
    assert(lines.push(l).last() == l);
}

/// The marker files of Rust projects.
proof fn lemma_markers_rust(names: Seq<Seq<char>>)
    ensures
        has_type(names, ProjectType::Rust) <==> (names.contains("Cargo.toml"@)),
{
    reveal_strlit("Cargo.toml");
    assert(markers_of(ProjectType::Rust).len() == 1 && markers_of(ProjectType::Rust)[0] == "Cargo.toml"@);
    if has_type(names, ProjectType::Rust) {
        let k = choose|k: int| 0 <= k < markers_of(ProjectType::Rust).len() && marker_present(names, #[trigger] markers_of(ProjectType::Rust)[k]);
        assert(k == 0);
    }
    if names.contains("Cargo.toml"@) {
        assert(marker_present(names, markers_of(ProjectType::Rust)[0]));
    }
}

/// The marker files of Node projects.
proof fn lemma_markers_node(names: Seq<Seq<char>>)
    ensures
        has_type(names, ProjectType::Node) <==> (names.contains("package.json"@)),
{
    reveal_strlit("package.json");
    assert(markers_of(ProjectType::Node).len() == 1 && markers_of(ProjectType::Node)[0] == "package.json"@);
    if has_type(names, ProjectType::Node) {
        let k = choose|k: int| 0 <= k < markers_of(ProjectType::Node).len() && marker_present(names, #[trigger] markers_of(ProjectType::Node)[k]);
        assert(k == 0);
    }
    if names.contains("package.json"@) {
        assert(marker_present(names, markers_of(ProjectType::Node)[0]));
    }
}

/// The marker files of Python projects.
proof fn lemma_markers_python(names: Seq<Seq<char>>)
    ensures
        has_type(names, ProjectType::Python) <==> (names.contains("requirements.txt"@) || names.contains("pyproject.toml"@) || names.contains("setup.py"@) || names.contains("Pipfile"@)),
{
    reveal_strlit("requirements.txt");
    reveal_strlit("pyproject.toml");
    reveal_strlit("setup.py");
    reveal_strlit("Pipfile");
    assert(markers_of(ProjectType::Python).len() == 4 && markers_of(ProjectType::Python)[0] == "requirements.txt"@ && markers_of(ProjectType::Python)[1] == "pyproject.toml"@ && markers_of(ProjectType::Python)[2] == "setup.py"@ && markers_of(ProjectType::Python)[3] == "Pipfile"@);
    if has_type(names, ProjectType::Python) {
        let k = choose|k: int| 0 <= k < markers_of(ProjectType::Python).len() && marker_present(names, #[trigger] markers_of(ProjectType::Python)[k]);
        assert(k == 0 || k == 1 || k == 2 || k == 3);
    }
    if names.contains("requirements.txt"@) {
        assert(marker_present(names, markers_of(ProjectType::Python)[0]));
    }
    if names.contains("pyproject.toml"@) {
        assert(marker_present(names, markers_of(ProjectType::Python)[1]));
    }
    if names.contains("setup.py"@) {
        assert(marker_present(names, markers_of(ProjectType::Python)[2]));
    }
    if names.contains("Pipfile"@) {
        assert(marker_present(names, markers_of(ProjectType::Python)[3]));
    }
}

/// The marker files of Go projects.
proof fn lemma_markers_go(names: Seq<Seq<char>>)
    ensures
        has_type(names, ProjectType::Go) <==> (names.contains("go.mod"@)),
{
    reveal_strlit("go.mod");
    assert(markers_of(ProjectType::Go).len() == 1 && markers_of(ProjectType::Go)[0] == "go.mod"@);
    if has_type(names, ProjectType::Go) {
        let k = choose|k: int| 0 <= k < markers_of(ProjectType::Go).len() && marker_present(names, #[trigger] markers_of(ProjectType::Go)[k]);
        assert(k == 0);
    }
    if names.contains("go.mod"@) {
        assert(marker_present(names, markers_of(ProjectType::Go)[0]));
    }
}

/// The marker files of Java projects.
proof fn lemma_markers_java(names: Seq<Seq<char>>)
    ensures
        has_type(names, ProjectType::Java) <==> (names.contains("pom.xml"@) || names.contains("build.gradle"@) || names.contains("build.gradle.kts"@)),
{
    reveal_strlit("pom.xml");
    reveal_strlit("build.gradle");
    reveal_strlit("build.gradle.kts");
    assert(markers_of(ProjectType::Java).len() == 3 && markers_of(ProjectType::Java)[0] == "pom.xml"@ && markers_of(ProjectType::Java)[1] == "build.gradle"@ && markers_of(ProjectType::Java)[2] == "build.gradle.kts"@);
    if has_type(names, ProjectType::Java) {
        let k = choose|k: int| 0 <= k < markers_of(ProjectType::Java).len() && marker_present(names, #[trigger] markers_of(ProjectType::Java)[k]);
        assert(k == 0 || k == 1 || k == 2);
    }
    if names.contains("pom.xml"@) {
        assert(marker_present(names, markers_of(ProjectType::Java)[0]));
    }
    if names.contains("build.gradle"@) {
        assert(marker_present(names, markers_of(ProjectType::Java)[1]));
    }
    if names.contains("build.gradle.kts"@) {
        assert(marker_present(names, markers_of(ProjectType::Java)[2]));
    }
}

/// The marker files of Cpp projects.
proof fn lemma_markers_cpp(names: Seq<Seq<char>>)
    ensures
        has_type(names, ProjectType::Cpp) <==> (names.contains("CMakeLists.txt"@) || names.contains("Makefile"@) || names.contains("meson.build"@)),
{
    reveal_strlit("CMakeLists.txt");
    reveal_strlit("Makefile");
    reveal_strlit("meson.build");
    assert(markers_of(ProjectType::Cpp).len() == 3 && markers_of(ProjectType::Cpp)[0] == "CMakeLists.txt"@ && markers_of(ProjectType::Cpp)[1] == "Makefile"@ && markers_of(ProjectType::Cpp)[2] == "meson.build"@);
    if has_type(names, ProjectType::Cpp) {
        let k = choose|k: int| 0 <= k < markers_of(ProjectType::Cpp).len() && marker_present(names, #[trigger] markers_of(ProjectType::Cpp)[k]);
        assert(k == 0 || k == 1 || k == 2);
    }
    if names.contains("CMakeLists.txt"@) {
        assert(marker_present(names, markers_of(ProjectType::Cpp)[0]));
    }
    if names.contains("Makefile"@) {
        assert(marker_present(names, markers_of(ProjectType::Cpp)[1]));
    }
    if names.contains("meson.build"@) {
        assert(marker_present(names, markers_of(ProjectType::Cpp)[2]));
    }
}

/// The marker files of Ruby projects.
proof fn lemma_markers_ruby(names: Seq<Seq<char>>)
    ensures
        has_type(names, ProjectType::Ruby) <==> (names.contains("Gemfile"@)),
{
    reveal_strlit("Gemfile");
    assert(markers_of(ProjectType::Ruby).len() == 1 && markers_of(ProjectType::Ruby)[0] == "Gemfile"@);
    if has_type(names, ProjectType::Ruby) {
        let k = choose|k: int| 0 <= k < markers_of(ProjectType::Ruby).len() && marker_present(names, #[trigger] markers_of(ProjectType::Ruby)[k]);
        assert(k == 0);
    }
    if names.contains("Gemfile"@) {
        assert(marker_present(names, markers_of(ProjectType::Ruby)[0]));
    }
}

/// The marker files of Swift projects.
proof fn lemma_markers_swift(names: Seq<Seq<char>>)
    ensures
        has_type(names, ProjectType::Swift) <==> (names.contains("Package.swift"@) || exists|k: int| 0 <= k < names.len() && ends_with(#[trigger] names[k], ".xcodeproj"@)),
{
    reveal_strlit("Package.swift");
    reveal_strlit("*.xcodeproj");
    reveal_strlit(".xcodeproj");
    assert("*.xcodeproj"@.skip(1) =~= ".xcodeproj"@);
    assert(markers_of(ProjectType::Swift).len() == 2 && markers_of(ProjectType::Swift)[0] == "Package.swift"@ && markers_of(ProjectType::Swift)[1] == "*.xcodeproj"@);
    if has_type(names, ProjectType::Swift) {
        let k = choose|k: int| 0 <= k < markers_of(ProjectType::Swift).len() && marker_present(names, #[trigger] markers_of(ProjectType::Swift)[k]);
        assert(k == 0 || k == 1);
    }
    if names.contains("Package.swift"@) {
        assert(marker_present(names, markers_of(ProjectType::Swift)[0]));
    }
    if exists|k: int| 0 <= k < names.len() && ends_with(#[trigger] names[k], ".xcodeproj"@) {
        assert(marker_present(names, markers_of(ProjectType::Swift)[1]));
    }
}

/// Law: the marker files. A directory is a Rust project exactly when it
/// holds `Cargo.toml`; Node.js, `package.json`; Python, one of
/// `requirements.txt`, `pyproject.toml`, `setup.py`, `Pipfile`; Go,
/// `go.mod`; Java, one of `pom.xml`, `build.gradle`, `build.gradle.kts`;
/// C/C++, one of `CMakeLists.txt`, `Makefile`, `meson.build`; Ruby,
/// `Gemfile`; Swift, `Package.swift` or an entry ending in `.xcodeproj`.
pub proof fn law_marker_files(names: Seq<Seq<char>>)
    ensures
        has_type(names, ProjectType::Rust) <==> (names.contains("Cargo.toml"@)),
        has_type(names, ProjectType::Node) <==> (names.contains("package.json"@)),
        has_type(names, ProjectType::Python) <==> (names.contains("requirements.txt"@) || names.contains("pyproject.toml"@) || names.contains("setup.py"@) || names.contains("Pipfile"@)),
        has_type(names, ProjectType::Go) <==> (names.contains("go.mod"@)),
        has_type(names, ProjectType::Java) <==> (names.contains("pom.xml"@) || names.contains("build.gradle"@) || names.contains("build.gradle.kts"@)),
        has_type(names, ProjectType::Cpp) <==> (names.contains("CMakeLists.txt"@) || names.contains("Makefile"@) || names.contains("meson.build"@)),
        has_type(names, ProjectType::Ruby) <==> (names.contains("Gemfile"@)),
        has_type(names, ProjectType::Swift) <==> (names.contains("Package.swift"@) || exists|k: int| 0 <= k < names.len() && ends_with(#[trigger] names[k], ".xcodeproj"@)),
{
    lemma_markers_rust(names);
    lemma_markers_node(names);
    lemma_markers_python(names);
    lemma_markers_go(names);
    lemma_markers_java(names);
    lemma_markers_cpp(names);
    lemma_markers_ruby(names);
    lemma_markers_swift(names);
}

/// The position of each project type in `all_types`.
pub open spec fn type_position(t: ProjectType) -> int {
    match t {
        ProjectType::Rust => 0,
        ProjectType::Node => 1,
        ProjectType::Python => 2,
        ProjectType::Go => 3,
        ProjectType::Java => 4,
        ProjectType::Cpp => 5,
        ProjectType::Ruby => 6,
        ProjectType::Swift => 7,
    }
}

/// Law: detection reports exactly the project types whose marker files
/// the directory holds; so a directory holding `pyproject.toml` is reported
/// as a Python project.
pub proof fn law_detected_types(names: Seq<Seq<char>>)
    ensures
        forall|t: ProjectType| #[trigger] types_of(names).contains(t) <==> has_type(names, t),
        names.contains("pyproject.toml"@) ==> types_of(names).contains(ProjectType::Python),
{
    let a = all_types();
    let p = |t: ProjectType| has_type(names, t);
    assert forall|t: ProjectType| #[trigger] types_of(names).contains(t) <==> has_type(names, t) by {
        assert(a[type_position(t)] == t);
        if has_type(names, t) {
            a.lemma_filter_contains(p, type_position(t));
        }
        if types_of(names).contains(t) {
            let j = choose|j: int| 0 <= j < a.filter(p).len() && a.filter(p)[j] == t;
            a.lemma_filter_pred(p, j);
        }
    }
    lemma_markers_python(names);
}

} // verus!
