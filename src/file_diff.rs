//! Comparison of two documents file by file.
//!
//! Sections are matched by exact path. Each section of the first document gives one
//! entry, in order, paired with the first section of the second document that has the
//! same path, if there is one. Then each section of the second document whose path
//! no section of the first has gives one entry, in order, with no counters on the
//! first side.
use vstd::prelude::*;

use crate::lcov_file::{files_view, FileModel, Lcov, LcovFile};
use crate::summary::LcovSummary;

verus! {

/// The counters of one section, as a summary.
pub open spec fn counts(f: FileModel) -> LcovSummary {
    LcovSummary {
        total_lines: f.lines_found,
        total_lines_hit: f.lines_hit,
        total_functions: f.functions_found,
        total_functions_hit: f.functions_hit,
    }
}

/// The index of the first section of `fs` at or after `i` with path `p`; `fs.len()`
/// where none has it.
pub open spec fn path_index(fs: Seq<FileModel>, p: Seq<char>, i: int) -> int
    decreases fs.len() - i,
{
    if i < 0 || i >= fs.len() {
        fs.len() as int
    } else if fs[i].name == p {
        i
    } else {
        path_index(fs, p, i + 1)
    }
}

/// One entry of a per-file comparison, as a value.
pub struct FileDiffModel {
    pub path: Seq<char>,
    pub base: Option<LcovSummary>,
    pub other: Option<LcovSummary>,
}

/// The counters of the first section of `b` with path `p`, if any.
pub open spec fn counts_at(b: Seq<FileModel>, p: Seq<char>) -> Option<LcovSummary> {
    let j = path_index(b, p, 0);
    if j < b.len() {
        Some(counts(b[j]))
    } else {
        None
    }
}

/// The entry of section `f` of the first document.
pub open spec fn matched_entry(f: FileModel, b: Seq<FileModel>) -> FileDiffModel {
    FileDiffModel { path: f.name, base: Some(counts(f)), other: counts_at(b, f.name) }
}

/// The entries of the sections of `b` whose path no section of `a` has.
pub open spec fn only_in_other(a: Seq<FileModel>, b: Seq<FileModel>) -> Seq<FileDiffModel>
    decreases b.len(),
{
    if b.len() == 0 {
        seq![]
    } else {
        let r = only_in_other(a, b.drop_last());
        if path_index(a, b.last().name, 0) < a.len() {
            r
        } else {
            r.push(FileDiffModel { path: b.last().name, base: None, other: Some(counts(b.last())) })
        }
    }
}

/// The per-file comparison of `a` with `b`.
pub open spec fn file_diffs(a: Seq<FileModel>, b: Seq<FileModel>) -> Seq<FileDiffModel> {
    a.map_values(|f: FileModel| matched_entry(f, b)) + only_in_other(a, b)
}

/// One entry of a per-file comparison: the counters of the file in each document, where
/// it has a section there.
#[derive(Debug)]
pub struct FileDiff {
    pub path: String,
    pub base: Option<LcovSummary>,
    pub other: Option<LcovSummary>,
}

impl View for FileDiff {
    type V = FileDiffModel;

    open spec fn view(&self) -> FileDiffModel {
        FileDiffModel { path: self.path@, base: self.base, other: self.other }
    }
}

pub open spec fn diffs_view(d: Seq<FileDiff>) -> Seq<FileDiffModel> {
    d.map_values(|x: FileDiff| x@)
}

/// The index of the first section of `fs` with path `p`, or `fs.len()`.
fn find_section(fs: &Vec<LcovFile>, p: &String) -> (r: usize)
    ensures
        r as int == path_index(files_view(fs@), p@, 0),
        r <= fs@.len(),
{
    let ghost v = files_view(fs@);
    let mut i: usize = 0;
    while i < fs.len()
        invariant
            v == files_view(fs@),
            i <= fs@.len(),
            path_index(v, p@, 0) == path_index(v, p@, i as int),
        decreases fs@.len() - i,
    {
        if fs[i].name == *p {
            return i;
        }
        i = i + 1;
    }
    i
}

impl Lcov {
    /// The comparison of this document with `other`, file by file, as the module
    /// describes it.
    pub fn diffstd(&self, other: &Lcov) -> (r: Vec<FileDiff>)
        ensures
            diffs_view(r@) == file_diffs(self.model(), other.model()),
    {
        let ghost a = self.model();
        let ghost b = other.model();
        let mut r: Vec<FileDiff> = Vec::new();
        let mut i: usize = 0;
        while i < self.files.len()
            invariant
                a == self.model(),
                b == other.model(),
                i <= a.len(),
                a.len() == self.files@.len(),
                diffs_view(r@) == a.subrange(0, i as int).map_values(
                    |f: FileModel| matched_entry(f, b),
                ),
            decreases a.len() - i,
        {
            let f = &self.files[i];
            let j = find_section(&other.files, &f.name);
            let o = if j < other.files.len() {
                Some(other.files[j].summary())
            } else {
                None
            };
            let d = FileDiff { path: f.name.clone(), base: Some(f.summary()), other: o };
            let ghost before = diffs_view(r@);
            r.push(d);
            assert(diffs_view(r@) =~= before.push(d@));
            assert(a.subrange(0, i + 1).map_values(|f: FileModel| matched_entry(f, b)) =~= a.subrange(
                0,
                i as int,
            ).map_values(|f: FileModel| matched_entry(f, b)).push(matched_entry(a[i as int], b)));
            i = i + 1;
        }
        assert(a.subrange(0, i as int) =~= a);
        let ghost head = diffs_view(r@);
        let mut j: usize = 0;
        assert(b.subrange(0, 0) =~= seq![]);
        assert(head + only_in_other(a, b.subrange(0, 0)) =~= head);
        while j < other.files.len()
            invariant
                a == self.model(),
                b == other.model(),
                j <= b.len(),
                b.len() == other.files@.len(),
                head == a.map_values(|f: FileModel| matched_entry(f, b)),
                diffs_view(r@) == head + only_in_other(a, b.subrange(0, j as int)),
            decreases b.len() - j,
        {
            let g = &other.files[j];
            let k = find_section(&self.files, &g.name);
            let ghost before = diffs_view(r@);
            assert(b.subrange(0, j + 1).drop_last() =~= b.subrange(0, j as int));
            if k >= self.files.len() {
                let d = FileDiff { path: g.name.clone(), base: None, other: Some(g.summary()) };
                r.push(d);
                assert(diffs_view(r@) =~= before.push(d@));
                assert(diffs_view(r@) =~= head + only_in_other(a, b.subrange(0, j + 1)));
            }
            j = j + 1;
        }
        assert(b.subrange(0, j as int) =~= b);
        r
    }
}

} // verus!
