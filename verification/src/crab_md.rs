//! Project instruction files (`CRAB.md`): which are taken, and in what
//! order.
//!
//! The texts are handed in as read; finding and reading the files is left
//! to the caller.
use vstd::prelude::*;
use crate::text::{chars_eq, chars_of, string_of, trim, trim_chars};

verus! {

/// Where an instruction file was loaded from.
#[derive(Debug, Clone, Copy, PartialEq, Eq, Structural)]
pub enum CrabMdSource {
    Global,
    User,
    Project,
}

/// The content of an instruction file, and where it came from.
#[derive(Debug, Clone)]
pub struct CrabMd {
    pub content: String,
    pub source: CrabMdSource,
}

/// A file's instructions: its trimmed text, or nothing when the file is
/// missing or holds only white space.
pub open spec fn md_of(text: Option<Seq<char>>, source: CrabMdSource) -> Option<(Seq<char>, CrabMdSource)> {
    match text {
        Some(t) => if trim(t).len() == 0 {
            None
        } else {
            Some((trim(t), source))
        },
        None => None,
    }
}

/// The instructions of one file, from its text as read (`None` when the
/// file is missing or unreadable).
pub fn crab_md_from(text: Option<&str>, source: CrabMdSource) -> (r: Option<CrabMd>)
    ensures
        md_of(
            match text {
                Some(t) => Some(t@),
                None => None,
            },
            source,
        ) == match r {
            Some(m) => Some((m.content@, m.source)),
            None => None,
        },
{
    match text {
        Some(t) => {
            let c = chars_of(t);
            let trimmed = trim_chars(c.as_slice());
            if trimmed.len() == 0 {
                None
            } else {
                Some(CrabMd { content: string_of(trimmed.as_slice()), source })
            }
        },
        None => None,
    }
}

/// The views of a list of instructions.
pub open spec fn mds_view(s: Seq<CrabMd>) -> Seq<(Seq<char>, CrabMdSource)> {
    s.map_values(|m: CrabMd| (m.content@, m.source))
}

/// An optional value as a sequence of at most one.
pub open spec fn opt_seq<A>(o: Option<A>) -> Seq<A> {
    match o {
        Some(a) => seq![a],
        None => Seq::empty(),
    }
}

/// The instructions collected in order, global first, then the project's
/// root file, then its nested `.crab/CRAB.md` unless it repeats the root
/// file.
pub open spec fn collected(global: Option<Seq<char>>, project: Option<Seq<char>>, nested: Option<Seq<char>>) -> Seq<(Seq<char>, CrabMdSource)> {
    let root = md_of(project, CrabMdSource::Project);
    let a = opt_seq(md_of(global, CrabMdSource::Global)) + opt_seq(root);
    match md_of(nested, CrabMdSource::Project) {
        Some(m) => if root matches Some(r) && r.0 == m.0 {
            a
        } else {
            a.push(m)
        },
        None => a,
    }
}

/// The view of an optional string slice.
pub open spec fn opt_str_view(o: Option<&str>) -> Option<Seq<char>> {
    match o {
        Some(t) => Some(t@),
        None => None,
    }
}

/// Collect instruction files by priority from their texts: the global
/// file, the project's `CRAB.md`, and the project's `.crab/CRAB.md`.
/// Project instructions come last, so they weigh most.
pub fn collect_crab_md_from(global: Option<&str>, project: Option<&str>, nested: Option<&str>) -> (r: Vec<CrabMd>)
    ensures
        mds_view(r@) == collected(opt_str_view(global), opt_str_view(project), opt_str_view(nested)),
{
    let mut results: Vec<CrabMd> = Vec::new();
    if let Some(m) = crab_md_from(global, CrabMdSource::Global) {
        results.push(m);
    }
    let root = crab_md_from(project, CrabMdSource::Project);
    let root_chars: Option<Vec<char>> = match &root {
        Some(m) => Some(chars_of(m.content.as_str())),
        None => None,
    };
    if let Some(m) = root {
        results.push(m);
    }
    let ghost a = mds_view(results@);
    proof {
        assert(a =~= opt_seq(md_of(opt_str_view(global), CrabMdSource::Global)) + opt_seq(
            md_of(opt_str_view(project), CrabMdSource::Project),
        ));
    }
    if let Some(m) = crab_md_from(nested, CrabMdSource::Project) {
        let repeats_root = match &root_chars {
            Some(r) => {
                let cur = chars_of(m.content.as_str());
                chars_eq(r.as_slice(), cur.as_slice())
            },
            None => false,
        };
        if !repeats_root {
            let ghost before = results@;
            results.push(m);
            proof {
                assert(mds_view(results@) =~= mds_view(before).push((m.content@, m.source)));
            }
        }
    }
    results
}

} // verus!
