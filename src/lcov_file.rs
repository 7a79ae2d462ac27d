//! A parsed LCOV document: its file sections, and how records build them.
use vstd::prelude::*;

use crate::record::{
    line_model, parse_line, string_from_chars, text_chars, Counter, LineModel, Record,
    RecordModel, Tag,
};

verus! {

/// One file section, as a value.
pub struct FileModel {
    pub name: Seq<char>,
    pub function_hits: Seq<(Seq<char>, usize)>,
    pub functions_found: usize,
    pub functions_hit: usize,
    pub lines_found: usize,
    pub lines_hit: usize,
    pub branches_found: usize,
    pub branches_hit: usize,
}

/// A fresh section for the file at `path`.
pub open spec fn empty_file(path: Seq<char>) -> FileModel {
    FileModel {
        name: path,
        function_hits: seq![],
        functions_found: 0,
        functions_hit: 0,
        lines_found: 0,
        lines_hit: 0,
        branches_found: 0,
        branches_hit: 0,
    }
}

/// The index of the first entry of `h` at or after `i` whose name is `k`; `h.len()` if
/// none is.
pub open spec fn key_index(h: Seq<(Seq<char>, usize)>, k: Seq<char>, i: int) -> int
    decreases h.len() - i,
{
    if i < 0 || i >= h.len() {
        h.len() as int
    } else if h[i].0 == k {
        i
    } else {
        key_index(h, k, i + 1)
    }
}

/// No two entries of `h` share a name.
pub open spec fn keys_unique(h: Seq<(Seq<char>, usize)>) -> bool {
    forall|i: int, j: int| 0 <= i < j < h.len() ==> h[i].0 != h[j].0
}

/// The hit counts after declaring function `k`: its count is zero, in place if it was
/// declared before, else at the end.
pub open spec fn declare(h: Seq<(Seq<char>, usize)>, k: Seq<char>) -> Seq<(Seq<char>, usize)> {
    let i = key_index(h, k, 0);
    if i < h.len() {
        h.update(i, (k, 0usize))
    } else {
        h.push((k, 0usize))
    }
}

/// The hit counts after function `k` was hit `n` times; `None` where `k` was never
/// declared.
pub open spec fn record_hit(h: Seq<(Seq<char>, usize)>, k: Seq<char>, n: usize) -> Option<
    Seq<(Seq<char>, usize)>,
> {
    let i = key_index(h, k, 0);
    if i < h.len() {
        Some(h.update(i, (k, n)))
    } else {
        None
    }
}

/// Section `f` with counter `c` set to `n`.
pub open spec fn set_counter(f: FileModel, c: Counter, n: usize) -> FileModel {
    match c {
        Counter::FunctionsFound => FileModel { functions_found: n, ..f },
        Counter::FunctionsHit => FileModel { functions_hit: n, ..f },
        Counter::LinesFound => FileModel { lines_found: n, ..f },
        Counter::LinesHit => FileModel { lines_hit: n, ..f },
        Counter::BranchesFound => FileModel { branches_found: n, ..f },
        Counter::BranchesHit => FileModel { branches_hit: n, ..f },
    }
}

/// Why a document could not be built, as a value.
pub enum ErrorModel {
    /// A line whose tag matched and whose fields did not parse.
    Malformed(Tag, Seq<char>),
    /// A hit record, in the section of the first path, for an undeclared function.
    Orphan(Seq<char>, Seq<char>),
}

/// The sections after one record. The current section is the last one; where there is
/// none yet, a record other than `SF:` is dropped.
pub open spec fn apply(files: Seq<FileModel>, rec: RecordModel) -> Result<
    Seq<FileModel>,
    ErrorModel,
> {
    if let RecordModel::SourceFile(p) = rec {
        Ok(files.push(empty_file(p)))
    } else if files.len() == 0 {
        Ok(files)
    } else {
        let last = files.len() - 1;
        let f = files[last];
        match rec {
            RecordModel::FunctionDecl(_, k) => Ok(
                files.update(last, FileModel { function_hits: declare(f.function_hits, k), ..f }),
            ),
            RecordModel::FunctionHit(n, k) => match record_hit(f.function_hits, k, n) {
                Some(h) => Ok(files.update(last, FileModel { function_hits: h, ..f })),
                None => Err(ErrorModel::Orphan(f.name, k)),
            },
            RecordModel::Count(c, n) => Ok(files.update(last, set_counter(f, c, n))),
            RecordModel::SourceFile(_) => Ok(files),
        }
    }
}

/// The sections after one line.
pub open spec fn step(files: Seq<FileModel>, line: Seq<char>) -> Result<
    Seq<FileModel>,
    ErrorModel,
> {
    match line_model(line) {
        LineModel::Skip => Ok(files),
        LineModel::Malformed(t) => Err(ErrorModel::Malformed(t, line)),
        LineModel::Record(rec) => apply(files, rec),
    }
}

/// The sections that `lines` build, in order, or the first error.
pub open spec fn build(lines: Seq<Seq<char>>) -> Result<Seq<FileModel>, ErrorModel>
    decreases lines.len(),
{
    if lines.len() == 0 {
        Ok(seq![])
    } else {
        match build(lines.drop_last()) {
            Ok(files) => step(files, lines.last()),
            Err(e) => Err(e),
        }
    }
}

/// Line `l` without the carriage return that ends it, if one does.
pub open spec fn strip_cr(l: Seq<char>) -> Seq<char> {
    if l.len() > 0 && l.last() == '\r' {
        l.drop_last()
    } else {
        l
    }
}

/// The lines of `t` that a newline has ended, and the text after the last newline.
pub open spec fn scan(t: Seq<char>) -> (Seq<Seq<char>>, Seq<char>)
    decreases t.len(),
{
    if t.len() == 0 {
        (seq![], seq![])
    } else {
        let (ls, cur) = scan(t.drop_last());
        if t.last() == '\n' {
            (ls.push(strip_cr(cur)), seq![])
        } else {
            (ls, cur.push(t.last()))
        }
    }
}

/// The lines of `t`: split at each `\n`, a `\r` before it dropped; a last line without
/// a newline counts where it is not empty.
pub open spec fn lines_of(t: Seq<char>) -> Seq<Seq<char>> {
    let (ls, cur) = scan(t);
    if cur.len() == 0 {
        ls
    } else {
        ls.push(cur)
    }
}

/// The document that text `t` describes.
pub open spec fn parse_model(t: Seq<char>) -> Result<Seq<FileModel>, ErrorModel> {
    build(lines_of(t))
}

proof fn lemma_key_index(h: Seq<(Seq<char>, usize)>, k: Seq<char>, i: int)
    requires
        0 <= i <= h.len(),
    ensures
        i <= key_index(h, k, i) <= h.len(),
        forall|j: int| i <= j < key_index(h, k, i) ==> h[j].0 != k,
        key_index(h, k, i) < h.len() ==> h[key_index(h, k, i)].0 == k,
    decreases h.len() - i,
{
    if i < h.len() && h[i].0 != k {
        lemma_key_index(h, k, i + 1);
    }
}

/// A hit record for a function that the current section has not declared is refused
/// with a lookup error that names the section and the function; no entry is made for
/// it.
pub proof fn lemma_orphan_hit(files: Seq<FileModel>, n: usize, k: Seq<char>)
    requires
        files.len() > 0,
        forall|j: int|
            0 <= j < files.last().function_hits.len() ==> (#[trigger] files.last().function_hits[j]).0
                != k,
    ensures
        apply(files, RecordModel::FunctionHit(n, k)) == Err::<Seq<FileModel>, ErrorModel>(
            ErrorModel::Orphan(files.last().name, k),
        ),
{
    let h = files.last().function_hits;
    lemma_key_index(h, k, 0);
    if key_index(h, k, 0) < h.len() {
        assert(h[key_index(h, k, 0)].0 == k);
    }
}

/// Every section of `fs` names each function at most once.
pub open spec fn sections_well_formed(fs: Seq<FileModel>) -> bool {
    forall|i: int| 0 <= i < fs.len() ==> keys_unique(#[trigger] fs[i].function_hits)
}

proof fn lemma_apply_well_formed(files: Seq<FileModel>, rec: RecordModel)
    requires
        sections_well_formed(files),
        apply(files, rec) is Ok,
    ensures
        sections_well_formed(apply(files, rec)->Ok_0),
{
    let r = apply(files, rec)->Ok_0;
    if let RecordModel::SourceFile(p) = rec {
        assert(r =~= files.push(empty_file(p)));
        assert forall|i: int| 0 <= i < r.len() implies keys_unique(#[trigger] r[i].function_hits) by {
            if i < files.len() {
                assert(r[i] == files[i]);
            }
        }
    } else if files.len() > 0 {
        let last = files.len() - 1;
        let h = files[last].function_hits;
        assert(keys_unique(h));
        lemma_key_index(h, rec->FunctionDecl_1, 0);
        lemma_key_index(h, rec->FunctionHit_1, 0);
        assert forall|i: int| 0 <= i < r.len() implies keys_unique(#[trigger] r[i].function_hits) by {
            if i < last {
                assert(r[i] == files[i]);
            } else {
                let h2 = r[i].function_hits;
                assert forall|a: int, b: int| 0 <= a < b < h2.len() implies h2[a].0 != h2[b].0 by {
                    if a < h.len() && b < h.len() {
                        assert(h2[a].0 == h[a].0);
                        assert(h2[b].0 == h[b].0);
                    }
                }
            }
        }
    }
}

proof fn lemma_build_well_formed(lines: Seq<Seq<char>>)
    ensures
        build(lines) is Ok ==> sections_well_formed(build(lines)->Ok_0),
    decreases lines.len(),
{
    if lines.len() > 0 {
        lemma_build_well_formed(lines.drop_last());
        if let Ok(files) = build(lines.drop_last()) {
            if let LineModel::Record(rec) = line_model(lines.last()) {
                if apply(files, rec) is Ok {
                    lemma_apply_well_formed(files, rec);
                }
            }
        }
    }
}

/// In every document that text parses to, each section names each function at most
/// once.
pub proof fn lemma_parse_well_formed(t: Seq<char>)
    ensures
        parse_model(t) is Ok ==> sections_well_formed(parse_model(t)->Ok_0),
{
    lemma_build_well_formed(lines_of(t));
}

/// Parsing is a function of the text: equal texts give equal documents, or equal
/// errors.
pub proof fn lemma_parse_deterministic(a: Seq<char>, b: Seq<char>)
    requires
        a == b,
    ensures
        parse_model(a) == parse_model(b),
{
}

/// Coverage of one source file.
#[derive(Debug)]
pub struct LcovFile {
    pub name: String,
    /// Hit count of each declared function, in order of declaration; names are unique.
    pub function_hits: Vec<(String, usize)>,
    pub functions_found: usize,
    pub functions_hit: usize,
    pub lines_found: usize,
    pub lines_hit: usize,
    pub branches_found: usize,
    pub branches_hit: usize,
}

pub open spec fn hits_view(h: Seq<(String, usize)>) -> Seq<(Seq<char>, usize)> {
    h.map_values(|p: (String, usize)| (p.0@, p.1))
}

impl View for LcovFile {
    type V = FileModel;

    open spec fn view(&self) -> FileModel {
        FileModel {
            name: self.name@,
            function_hits: hits_view(self.function_hits@),
            functions_found: self.functions_found,
            functions_hit: self.functions_hit,
            lines_found: self.lines_found,
            lines_hit: self.lines_hit,
            branches_found: self.branches_found,
            branches_hit: self.branches_hit,
        }
    }
}

impl LcovFile {
    /// An empty section for the file at `source`.
    pub fn new(source: &str) -> (r: LcovFile)
        ensures
            r@ == empty_file(source@),
    {
        let name = source.to_owned();
        let r = LcovFile {
            name,
            function_hits: Vec::new(),
            functions_found: 0,
            functions_hit: 0,
            lines_found: 0,
            lines_hit: 0,
            branches_found: 0,
            branches_hit: 0,
        };
        assert(hits_view(r.function_hits@) =~= seq![]);
        r
    }

    /// The index of the entry for function `k`, or the number of entries.
    fn position(&self, k: &String) -> (r: usize)
        ensures
            r as int == key_index(self@.function_hits, k@, 0),
            r <= self.function_hits@.len(),
    {
        let ghost h = self@.function_hits;
        let mut i: usize = 0;
        while i < self.function_hits.len()
            invariant
                h == hits_view(self.function_hits@),
                i <= self.function_hits@.len(),
                key_index(h, k@, 0) == key_index(h, k@, i as int),
            decreases self.function_hits@.len() - i,
        {
            if self.function_hits[i].0 == *k {
                return i;
            }
            i = i + 1;
        }
        i
    }

    /// Declares function `k`: its hit count becomes zero, also where it was declared
    /// before.
    pub fn declare_function(&mut self, k: String)
        ensures
            final(self)@ == (FileModel { function_hits: declare(old(self)@.function_hits, k@), ..old(self)@ }),
    {
        let i = self.position(&k);
        let ghost kv = k@;
        if i < self.function_hits.len() {
            self.function_hits[i] = (k, 0);
        } else {
            self.function_hits.push((k, 0));
        }
        assert(hits_view(self.function_hits@) =~= declare(hits_view(old(self).function_hits@), kv));
    }

    /// Records `n` hits of function `k`; returns `k` back as the error where no record
    /// declared it, and then changes nothing.
    pub fn record_hits(&mut self, k: String, n: usize) -> (r: Result<(), String>)
        ensures
            match record_hit(old(self)@.function_hits, k@, n) {
                Some(h) => r is Ok && final(self)@ == (FileModel { function_hits: h, ..old(self)@ }),
                None => r == Err::<(), String>(k) && final(self)@ == old(self)@,
            },
    {
        let i = self.position(&k);
        if i < self.function_hits.len() {
            let ghost kv = k@;
            self.function_hits[i] = (k, n);
            assert(hits_view(self.function_hits@) =~= hits_view(old(self).function_hits@).update(
                i as int,
                (kv, n),
            ));
            Ok(())
        } else {
            Err(k)
        }
    }

    /// Sets counter `c` to `n`.
    pub fn set_count(&mut self, c: Counter, n: usize)
        ensures
            final(self)@ == set_counter(old(self)@, c, n),
    {
        match c {
            Counter::FunctionsFound => self.functions_found = n,
            Counter::FunctionsHit => self.functions_hit = n,
            Counter::LinesFound => self.lines_found = n,
            Counter::LinesHit => self.lines_hit = n,
            Counter::BranchesFound => self.branches_found = n,
            Counter::BranchesHit => self.branches_hit = n,
        }
    }
}


pub open spec fn files_view(f: Seq<LcovFile>) -> Seq<FileModel> {
    f.map_values(|x: LcovFile| x@)
}

/// Why a document could not be built.
#[derive(Debug)]
pub enum LcovError {
    /// A line in the input at `path` whose tag matched and whose fields did not parse.
    Parse { path: String, tag: Tag, line: String },
    /// A hit record in the input at `path`, in section `section`, for a function that
    /// the section has not declared. The input is then refused as a whole.
    Lookup { path: String, section: String, function: String },
}

impl LcovError {
    pub open spec fn model(&self) -> ErrorModel {
        match self {
            LcovError::Parse { tag, line, .. } => ErrorModel::Malformed(*tag, line@),
            LcovError::Lookup { section, function, .. } => ErrorModel::Orphan(
                section@,
                function@,
            ),
        }
    }

    pub open spec fn path_view(&self) -> Seq<char> {
        match self {
            LcovError::Parse { path, .. } => path@,
            LcovError::Lookup { path, .. } => path@,
        }
    }
}

/// A parsed LCOV document.
#[derive(Debug)]
pub struct Lcov {
    /// Where the text came from, such as the path of the file.
    pub name: String,
    /// The file sections, in the order of their `SF:` records.
    pub files: Vec<LcovFile>,
}

impl Lcov {
    pub open spec fn model(&self) -> Seq<FileModel> {
        files_view(self.files@)
    }
}

/// `a` is the start of `b`.
pub open spec fn is_prefix<T>(a: Seq<T>, b: Seq<T>) -> bool {
    a.len() <= b.len() && b.subrange(0, a.len() as int) == a
}

proof fn lemma_build_error_stays(a: Seq<Seq<char>>, b: Seq<Seq<char>>)
    requires
        is_prefix(a, b),
        build(a) is Err,
    ensures
        build(b) == build(a),
    decreases b.len(),
{
    if b.len() == a.len() {
        assert(b =~= a);
    } else {
        assert(b.drop_last().subrange(0, a.len() as int) =~= b.subrange(0, a.len() as int));
        lemma_build_error_stays(a, b.drop_last());
    }
}

proof fn lemma_scan_grows(t: Seq<char>, j: int)
    requires
        0 <= j <= t.len(),
    ensures
        is_prefix(scan(t.subrange(0, j)).0, scan(t).0),
    decreases t.len(),
{
    if j == t.len() {
        assert(t.subrange(0, j) =~= t);
        assert(scan(t).0.subrange(0, scan(t).0.len() as int) =~= scan(t).0);
    } else {
        let d = t.drop_last();
        lemma_scan_grows(d, j);
        assert(d.subrange(0, j) =~= t.subrange(0, j));
        let a = scan(t.subrange(0, j)).0;
        let m = scan(d).0;
        let b = scan(t).0;
        let (ls, cur) = scan(d);
        assert(ls == m);
        assert(b == m || b == m.push(strip_cr(cur)));
        assert(m.len() <= b.len());
        assert(b.subrange(0, m.len() as int) =~= m);
        assert(b.subrange(0, a.len() as int) =~= m.subrange(0, a.len() as int));
        assert(b.subrange(0, a.len() as int) == a);
    }
}

/// Applies one record to the sections; on a hit record for an undeclared function,
/// returns the section's path and the function's name and changes nothing.
fn apply_record(files: &mut Vec<LcovFile>, rec: Record) -> (r: Result<(), (String, String)>)
    ensures
        match apply(files_view(old(files)@), rec@) {
            Ok(fs) => r is Ok && files_view(final(files)@) == fs,
            Err(ErrorModel::Orphan(p, k)) => match r {
                Err((rp, rk)) => rp@ == p && rk@ == k,
                Ok(_) => false,
            },
            Err(_) => false,
        },
{
    let ghost old_view = files_view(files@);
    if let Record::SourceFile(p) = rec {
        let f = LcovFile {
            name: p,
            function_hits: Vec::new(),
            functions_found: 0,
            functions_hit: 0,
            lines_found: 0,
            lines_hit: 0,
            branches_found: 0,
            branches_hit: 0,
        };
        assert(hits_view(f.function_hits@) =~= seq![]);
        files.push(f);
        assert(files_view(files@) =~= old_view.push(f@));
        return Ok(());
    }
    if files.len() == 0 {
        return Ok(());
    }
    let mut f = files.pop().unwrap();
    let ghost before = files_view(files@);
    assert(old_view =~= before.push(f@));
    let mut res: Result<(), (String, String)> = Ok(());
    match rec {
        Record::FunctionDecl(_, k) => {
            f.declare_function(k);
        },
        Record::FunctionHit(n, k) => {
            match f.record_hits(k, n) {
                Ok(()) => {},
                Err(k) => {
                    res = Err((f.name.clone(), k));
                },
            }
        },
        Record::Count(c, n) => {
            f.set_count(c, n);
        },
        Record::SourceFile(_) => {},
    }
    let ghost fv = f@;
    files.push(f);
    assert(files_view(files@) =~= before.push(fv));
    assert(before.push(fv) =~= old_view.update(old_view.len() - 1, fv));
    proof {
        if res is Err {
            assert(files_view(files@) =~= old_view);
        }
    }
    res
}

/// Applies one line to the sections of the input at `path`.
fn apply_line(files: &mut Vec<LcovFile>, line: &[char], path: &String) -> (r: Result<(), LcovError>)
    ensures
        match step(files_view(old(files)@), line@) {
            Ok(fs) => r is Ok && files_view(final(files)@) == fs,
            Err(m) => match r {
                Err(e) => e.model() == m && e.path_view() == path@,
                Ok(_) => false,
            },
        },
{
    match parse_line(line) {
        Ok(None) => Ok(()),
        Err(t) => Err(LcovError::Parse { path: path.clone(), tag: t, line: string_from_chars(line) }),
        Ok(Some(rec)) => match apply_record(files, rec) {
            Ok(()) => Ok(()),
            Err((section, function)) => Err(LcovError::Lookup { path: path.clone(), section, function }),
        },
    }
}

impl Lcov {
    /// Parses the LCOV text `text` read from `name`.
    pub fn parse(name: String, text: &str) -> (r: Result<Lcov, LcovError>)
        ensures
            match parse_model(text@) {
                Ok(fs) => match r {
                    Ok(l) => l.name@ == name@ && l.model() == fs && sections_well_formed(fs),
                    Err(_) => false,
                },
                Err(m) => match r {
                    Err(e) => e.model() == m && e.path_view() == name@,
                    Ok(_) => false,
                },
            },
    {
        proof {
            lemma_parse_well_formed(text@);
        }
        let chars = text_chars(text);
        let ghost t = chars@;
        let mut files: Vec<LcovFile> = Vec::new();
        let mut start: usize = 0;
        let mut i: usize = 0;
        assert(t.subrange(0, 0) =~= seq![]);
        assert(files_view(files@) =~= seq![]);
        while i < chars.len()
            invariant
                t == chars@,
                t == text@,
                start <= i <= t.len(),
                scan(t.subrange(0, i as int)).1 == t.subrange(start as int, i as int),
                build(scan(t.subrange(0, i as int)).0) == Ok::<Seq<FileModel>, ErrorModel>(
                    files_view(files@),
                ),
            decreases t.len() - i,
        {
            assert(t.subrange(0, i + 1).drop_last() =~= t.subrange(0, i as int));
            if chars[i] == '\n' {
                let mut end: usize = i;
                if end > start && chars[end - 1] == '\r' {
                    end = end - 1;
                }
                let ghost cur = t.subrange(start as int, i as int);
                let ghost ls = scan(t.subrange(0, i as int)).0;
                assert(strip_cr(cur) =~= t.subrange(start as int, end as int));
                assert(ls.push(strip_cr(cur)).drop_last() =~= ls);
                match apply_line(&mut files, &chars[start..end], &name) {
                    Ok(()) => {},
                    Err(e) => {
                        proof {
                            lemma_scan_grows(t, i + 1);
                            assert(t.subrange(0, t.len() as int) =~= t);
                            let full = lines_of(t);
                            assert(is_prefix(scan(t).0, full)) by {
                                assert(full.subrange(0, scan(t).0.len() as int) =~= scan(t).0);
                            }
                            let a = scan(t.subrange(0, i + 1)).0;
                            assert(full.subrange(0, a.len() as int) =~= scan(t).0.subrange(
                                0,
                                a.len() as int,
                            ));
                            lemma_build_error_stays(a, full);
                        }
                        return Err(e);
                    },
                }
                start = i + 1;
                assert(t.subrange(start as int, i + 1) =~= seq![]);
            } else {
                assert(t.subrange(start as int, i + 1) =~= t.subrange(start as int, i as int).push(
                    t[i as int],
                ));
            }
            i = i + 1;
        }
        assert(t.subrange(0, i as int) =~= t);
        if start < chars.len() {
            let ghost ls = scan(t).0;
            assert(ls.push(t.subrange(start as int, i as int)).drop_last() =~= ls);
            match apply_line(&mut files, &chars[start..chars.len()], &name) {
                Ok(()) => {},
                Err(e) => {
                    return Err(e);
                },
            }
        }
        Ok(Lcov { name, files })
    }

    /// The file sections, in order.
    pub fn files(&self) -> (r: &[LcovFile])
        ensures
            r@ == self.files@,
    {
        self.files.as_slice()
    }

    /// The file sections, to change in place.
    pub fn files_mut(&mut self) -> (r: &mut [LcovFile])
        ensures
            r@ == old(self).files@,
            final(self).files@ == final(r)@,
            final(self).name == old(self).name,
    {
        self.files.as_mut_slice()
    }
}

} // verus!
