//! One line of an LCOV file: its tag, and the typed record it carries.
use vstd::prelude::*;

verus! {

/// Is `c` one of the ASCII digits `0` to `9`?
pub open spec fn is_digit(c: char) -> bool {
    '0' <= c && c <= '9'
}

/// The value of a run of decimal digits, most significant first.
pub open spec fn digits_value(s: Seq<char>) -> nat
    decreases s.len(),
{
    if s.len() == 0 {
        0
    } else {
        digits_value(s.drop_last()) * 10 + ((s.last() as u32) - ('0' as u32)) as nat
    }
}

/// The digits of a number field: the field without one leading `+`, if it has one.
pub open spec fn unsigned_digits(s: Seq<char>) -> Seq<char> {
    if s.len() > 0 && s[0] == '+' {
        s.drop_first()
    } else {
        s
    }
}

/// The number that a field holds: one or more decimal digits, after an optional `+`,
/// whose value fits in `usize`.
pub open spec fn decimal(s: Seq<char>) -> Option<usize> {
    let d = unsigned_digits(s);
    if d.len() > 0 && (forall|i: int| 0 <= i < d.len() ==> is_digit(#[trigger] d[i]))
        && digits_value(d) <= usize::MAX {
        Some(digits_value(d) as usize)
    } else {
        None
    }
}

proof fn lemma_digits_value_grows(d: Seq<char>, k: int)
    requires
        0 <= k <= d.len(),
        forall|i: int| 0 <= i < d.len() ==> is_digit(#[trigger] d[i]),
    ensures
        digits_value(d.subrange(0, k)) <= digits_value(d),
    decreases d.len() - k,
{
    if k < d.len() {
        lemma_digits_value_grows(d, k + 1);
        assert(d.subrange(0, k + 1).drop_last() =~= d.subrange(0, k));
    } else {
        assert(d.subrange(0, k) =~= d);
    }
}

/// The number held by `s[lo..hi]`.
pub fn parse_decimal(s: &[char], lo: usize, hi: usize) -> (r: Option<usize>)
    requires
        lo <= hi <= s@.len(),
    ensures
        r == decimal(s@.subrange(lo as int, hi as int)),
{
    let ghost field = s@.subrange(lo as int, hi as int);
    let mut start: usize = lo;
    if lo < hi && s[lo] == '+' {
        start = lo + 1;
    }
    let ghost d = s@.subrange(start as int, hi as int);
    assert(unsigned_digits(field) =~= d);
    if start == hi {
        return None;
    }
    let mut i: usize = start;
    let mut acc: usize = 0;
    while i < hi
        invariant
            lo <= start < hi <= s@.len(),
            start <= i <= hi,
            d == s@.subrange(start as int, hi as int),
            unsigned_digits(field) == d,
            field == s@.subrange(lo as int, hi as int),
            forall|j: int| start <= j < i ==> is_digit(#[trigger] s@[j]),
            acc as nat == digits_value(s@.subrange(start as int, i as int)),
        decreases hi - i,
    {
        let c = s[i];
        if !('0' <= c && c <= '9') {
            assert(!is_digit(d[i - start]));
            return None;
        }
        let v: usize = ((c as u32) - ('0' as u32)) as usize;
        assert(s@.subrange(start as int, i + 1).drop_last() =~= s@.subrange(start as int, i as int));
        if acc > (usize::MAX - v) / 10 {
            // the digits seen so far already exceed `usize`; the rest only add to them
            let ghost k = (i + 1 - start) as int;
            assert(digits_value(s@.subrange(start as int, i + 1)) > usize::MAX) by (nonlinear_arith)
                requires
                    acc > (usize::MAX - v) / 10,
                    digits_value(s@.subrange(start as int, i + 1)) == acc * 10 + v,
                    v <= 9,
            ;
            let mut j: usize = i + 1;
            while j < hi
                invariant
                    lo <= start <= i < j <= hi <= s@.len(),
                    d == s@.subrange(start as int, hi as int),
                    unsigned_digits(field) == d,
                    field == s@.subrange(lo as int, hi as int),
                    forall|m: int| start <= m < j ==> is_digit(#[trigger] s@[m]),
                decreases hi - j,
            {
                let c2 = s[j];
                if !('0' <= c2 && c2 <= '9') {
                    assert(!is_digit(d[j - start]));
                    return None;
                }
                j = j + 1;
            }
            assert(d.subrange(0, k) =~= s@.subrange(start as int, i + 1));
            assert forall|m: int| 0 <= m < d.len() implies is_digit(#[trigger] d[m]) by {
                assert(d[m] == s@[start + m]);
            }
            proof {
                lemma_digits_value_grows(d, k);
            }
            return None;
        }
        acc = acc * 10 + v;
        i = i + 1;
    }
    assert(s@.subrange(start as int, i as int) =~= d);
    assert forall|m: int| 0 <= m < d.len() implies is_digit(#[trigger] d[m]) by {
        assert(d[m] == s@[start + m]);
    }
    Some(acc)
}


/// The six counters that a section can set.
#[derive(Clone, Copy, Debug, PartialEq, Eq, Structural)]
pub enum Counter {
    FunctionsFound,
    FunctionsHit,
    LinesFound,
    LinesHit,
    BranchesFound,
    BranchesHit,
}

/// The tags that this parser recognizes.
#[derive(Clone, Copy, Debug, PartialEq, Eq, Structural)]
pub enum Tag {
    SourceFile,
    FunctionDecl,
    FunctionHit,
    Count(Counter),
}

/// The text of a tag, colon included.
pub open spec fn tag_text(t: Tag) -> Seq<char> {
    match t {
        Tag::SourceFile => seq!['S', 'F', ':'],
        Tag::FunctionDecl => seq!['F', 'N', ':'],
        Tag::FunctionHit => seq!['F', 'N', 'D', 'A', ':'],
        Tag::Count(Counter::FunctionsFound) => seq!['F', 'N', 'F', ':'],
        Tag::Count(Counter::FunctionsHit) => seq!['F', 'N', 'H', ':'],
        Tag::Count(Counter::LinesFound) => seq!['L', 'F', ':'],
        Tag::Count(Counter::LinesHit) => seq!['L', 'H', ':'],
        Tag::Count(Counter::BranchesFound) => seq!['B', 'R', 'F', ':'],
        Tag::Count(Counter::BranchesHit) => seq!['B', 'R', 'H', ':'],
    }
}

pub open spec fn has_prefix(s: Seq<char>, p: Seq<char>) -> bool {
    p.len() <= s.len() && s.subrange(0, p.len() as int) == p
}

/// The tag that opens line `s`, if any. No tag is a prefix of another, so at most one
/// matches.
pub open spec fn tag_of(s: Seq<char>) -> Option<Tag> {
    if has_prefix(s, tag_text(Tag::SourceFile)) {
        Some(Tag::SourceFile)
    } else if has_prefix(s, tag_text(Tag::FunctionDecl)) {
        Some(Tag::FunctionDecl)
    } else if has_prefix(s, tag_text(Tag::FunctionHit)) {
        Some(Tag::FunctionHit)
    } else if has_prefix(s, tag_text(Tag::Count(Counter::FunctionsFound))) {
        Some(Tag::Count(Counter::FunctionsFound))
    } else if has_prefix(s, tag_text(Tag::Count(Counter::FunctionsHit))) {
        Some(Tag::Count(Counter::FunctionsHit))
    } else if has_prefix(s, tag_text(Tag::Count(Counter::LinesFound))) {
        Some(Tag::Count(Counter::LinesFound))
    } else if has_prefix(s, tag_text(Tag::Count(Counter::LinesHit))) {
        Some(Tag::Count(Counter::LinesHit))
    } else if has_prefix(s, tag_text(Tag::Count(Counter::BranchesFound))) {
        Some(Tag::Count(Counter::BranchesFound))
    } else if has_prefix(s, tag_text(Tag::Count(Counter::BranchesHit))) {
        Some(Tag::Count(Counter::BranchesHit))
    } else {
        None
    }
}

/// What follows tag `t` on line `s`.
pub open spec fn payload(s: Seq<char>, t: Tag) -> Seq<char> {
    s.subrange(tag_text(t).len() as int, s.len() as int)
}

/// The index of the first `c` in `s` at or after `i`; `s.len()` where there is none.
pub open spec fn index_from(s: Seq<char>, c: char, i: int) -> int
    decreases s.len() - i,
{
    if i < 0 || i >= s.len() {
        s.len() as int
    } else if s[i] == c {
        i
    } else {
        index_from(s, c, i + 1)
    }
}

/// A payload `number,name`, split at its first comma; the name may hold more commas.
pub open spec fn numbered_name(p: Seq<char>) -> Option<(usize, Seq<char>)> {
    let k = index_from(p, ',', 0);
    if k < p.len() {
        match decimal(p.subrange(0, k)) {
            Some(n) => Some((n, p.subrange(k + 1, p.len() as int))),
            None => None,
        }
    } else {
        None
    }
}

/// A record, as a value.
pub enum RecordModel {
    SourceFile(Seq<char>),
    FunctionDecl(usize, Seq<char>),
    FunctionHit(usize, Seq<char>),
    Count(Counter, usize),
}

/// One parsed record line.
#[derive(Debug)]
pub enum Record {
    /// `SF:path`: a new file section begins.
    SourceFile(String),
    /// `FN:line,name`: a function is declared at a line.
    FunctionDecl(usize, String),
    /// `FNDA:count,name`: a declared function was called `count` times.
    FunctionHit(usize, String),
    /// `FNF:`, `FNH:`, `LF:`, `LH:`, `BRF:`, `BRH:`: a counter of the current section.
    Count(Counter, usize),
}

impl View for Record {
    type V = RecordModel;

    open spec fn view(&self) -> RecordModel {
        match self {
            Record::SourceFile(p) => RecordModel::SourceFile(p@),
            Record::FunctionDecl(n, f) => RecordModel::FunctionDecl(*n, f@),
            Record::FunctionHit(n, f) => RecordModel::FunctionHit(*n, f@),
            Record::Count(c, n) => RecordModel::Count(*c, *n),
        }
    }
}

/// What a line is: a record, a line that this parser does not model, or a line whose
/// tag matched but whose fields did not parse.
pub enum LineModel {
    Record(RecordModel),
    Skip,
    Malformed(Tag),
}

pub open spec fn line_model(s: Seq<char>) -> LineModel {
    match tag_of(s) {
        None => LineModel::Skip,
        Some(t) => {
            let p = payload(s, t);
            match t {
                Tag::SourceFile => LineModel::Record(RecordModel::SourceFile(p)),
                Tag::FunctionDecl => match numbered_name(p) {
                    Some((n, f)) => LineModel::Record(RecordModel::FunctionDecl(n, f)),
                    None => LineModel::Malformed(t),
                },
                Tag::FunctionHit => match numbered_name(p) {
                    Some((n, f)) => LineModel::Record(RecordModel::FunctionHit(n, f)),
                    None => LineModel::Malformed(t),
                },
                Tag::Count(c) => match decimal(p) {
                    Some(n) => LineModel::Record(RecordModel::Count(c, n)),
                    None => LineModel::Malformed(t),
                },
            }
        },
    }
}

/// The value that line `m` gives counter `c`, if it is a well-formed line of that counter.
pub open spec fn counter_value(m: LineModel, c: Counter) -> Option<usize> {
    match m {
        LineModel::Record(RecordModel::Count(k, n)) => if k == c {
            Some(n)
        } else {
            None
        },
        _ => None,
    }
}

/// A number and a name, as values.
pub open spec fn numbered_view(r: Option<(usize, String)>) -> Option<(usize, Seq<char>)> {
    match r {
        Some((n, f)) => Some((n, f@)),
        None => None,
    }
}

/// The model of what `parse_line` returns.
pub open spec fn outcome_model(r: Result<Option<Record>, Tag>) -> LineModel {
    match r {
        Ok(Some(rec)) => LineModel::Record(rec@),
        Ok(None) => LineModel::Skip,
        Err(t) => LineModel::Malformed(t),
    }
}

impl Tag {
    /// The tag's text, colon included.
    pub fn label(&self) -> (r: &'static str)
        ensures
            r@ == tag_text(*self),
    {
        match self {
            Tag::SourceFile => {
                proof { reveal_strlit("SF:"); }
                "SF:"
            },
            Tag::FunctionDecl => {
                proof { reveal_strlit("FN:"); }
                "FN:"
            },
            Tag::FunctionHit => {
                proof { reveal_strlit("FNDA:"); }
                "FNDA:"
            },
            Tag::Count(Counter::FunctionsFound) => {
                proof { reveal_strlit("FNF:"); }
                "FNF:"
            },
            Tag::Count(Counter::FunctionsHit) => {
                proof { reveal_strlit("FNH:"); }
                "FNH:"
            },
            Tag::Count(Counter::LinesFound) => {
                proof { reveal_strlit("LF:"); }
                "LF:"
            },
            Tag::Count(Counter::LinesHit) => {
                proof { reveal_strlit("LH:"); }
                "LH:"
            },
            Tag::Count(Counter::BranchesFound) => {
                proof { reveal_strlit("BRF:"); }
                "BRF:"
            },
            Tag::Count(Counter::BranchesHit) => {
                proof { reveal_strlit("BRH:"); }
                "BRH:"
            },
        }
    }
}


fn tag_chars(t: Tag) -> (r: Vec<char>)
    ensures
        r@ == tag_text(t),
{
    match t {
        Tag::SourceFile => vec!['S', 'F', ':'],
        Tag::FunctionDecl => vec!['F', 'N', ':'],
        Tag::FunctionHit => vec!['F', 'N', 'D', 'A', ':'],
        Tag::Count(Counter::FunctionsFound) => vec!['F', 'N', 'F', ':'],
        Tag::Count(Counter::FunctionsHit) => vec!['F', 'N', 'H', ':'],
        Tag::Count(Counter::LinesFound) => vec!['L', 'F', ':'],
        Tag::Count(Counter::LinesHit) => vec!['L', 'H', ':'],
        Tag::Count(Counter::BranchesFound) => vec!['B', 'R', 'F', ':'],
        Tag::Count(Counter::BranchesHit) => vec!['B', 'R', 'H', ':'],
    }
}

/// Does `line` begin with `p`?
fn starts_with(line: &[char], p: &Vec<char>) -> (r: bool)
    ensures
        r == has_prefix(line@, p@),
{
    if p.len() > line.len() {
        return false;
    }
    let mut i: usize = 0;
    while i < p.len()
        invariant
            p.len() <= line@.len(),
            i <= p.len(),
            forall|j: int| 0 <= j < i ==> line@[j] == p@[j],
        decreases p.len() - i,
    {
        if line[i] != p[i] {
            assert(line@.subrange(0, p.len() as int)[i as int] != p@[i as int]);
            return false;
        }
        i = i + 1;
    }
    assert(line@.subrange(0, p.len() as int) =~= p@);
    true
}

/// Does `line` begin with the text of tag `t`?
fn starts_with_tag(line: &[char], t: Tag) -> (r: bool)
    ensures
        r == has_prefix(line@, tag_text(t)),
{
    starts_with(line, &tag_chars(t))
}

/// The tag that opens `line`, if any.
pub fn line_tag(line: &[char]) -> (r: Option<Tag>)
    ensures
        r == tag_of(line@),
{
    if starts_with_tag(line, Tag::SourceFile) {
        Some(Tag::SourceFile)
    } else if starts_with_tag(line, Tag::FunctionDecl) {
        Some(Tag::FunctionDecl)
    } else if starts_with_tag(line, Tag::FunctionHit) {
        Some(Tag::FunctionHit)
    } else if starts_with_tag(line, Tag::Count(Counter::FunctionsFound)) {
        Some(Tag::Count(Counter::FunctionsFound))
    } else if starts_with_tag(line, Tag::Count(Counter::FunctionsHit)) {
        Some(Tag::Count(Counter::FunctionsHit))
    } else if starts_with_tag(line, Tag::Count(Counter::LinesFound)) {
        Some(Tag::Count(Counter::LinesFound))
    } else if starts_with_tag(line, Tag::Count(Counter::LinesHit)) {
        Some(Tag::Count(Counter::LinesHit))
    } else if starts_with_tag(line, Tag::Count(Counter::BranchesFound)) {
        Some(Tag::Count(Counter::BranchesFound))
    } else if starts_with_tag(line, Tag::Count(Counter::BranchesHit)) {
        Some(Tag::Count(Counter::BranchesHit))
    } else {
        None
    }
}

/// Relies on `FromIterator<char>` for `String`: the string holds the characters in order.
#[verifier::external_body]
pub(crate) fn string_from_chars(c: &[char]) -> (r: String)
    ensures
        r@ == c@,
{
    c.iter().collect()
}

/// The index of the first comma in `s` at or after `lo`, or `s.len()`.
fn find_comma(s: &[char], lo: usize) -> (r: usize)
    requires
        lo <= s@.len(),
    ensures
        lo <= r <= s@.len(),
        r as int == index_from(s@, ',', lo as int),
{
    let mut i: usize = lo;
    while i < s.len()
        invariant
            lo <= i <= s@.len(),
            index_from(s@, ',', lo as int) == index_from(s@, ',', i as int),
        decreases s@.len() - i,
    {
        if s[i] == ',' {
            return i;
        }
        i = i + 1;
    }
    i
}

proof fn lemma_index_from_shift(s: Seq<char>, c: char, lo: int, i: int)
    requires
        0 <= lo <= i <= s.len(),
    ensures
        index_from(s.subrange(lo, s.len() as int), c, i - lo) == index_from(s, c, i) - lo,
    decreases s.len() - i,
{
    if i < s.len() {
        lemma_index_from_shift(s, c, lo, i + 1);
    }
}

/// Splits the payload `line[lo..]` into a number and a name at its first comma.
fn split_numbered_name(line: &[char], lo: usize) -> (r: Option<(usize, String)>)
    requires
        lo <= line@.len(),
    ensures
        match r {
            Some((n, f)) => numbered_name(line@.subrange(lo as int, line@.len() as int)) == Some(
                (n, f@),
            ),
            None => numbered_name(line@.subrange(lo as int, line@.len() as int)) is None,
        },
{
    let ghost p = line@.subrange(lo as int, line@.len() as int);
    let k = find_comma(line, lo);
    proof {
        lemma_index_from_shift(line@, ',', lo as int, lo as int);
    }
    if k >= line.len() {
        return None;
    }
    assert(p.subrange(0, k - lo) =~= line@.subrange(lo as int, k as int));
    assert(p.subrange(k - lo + 1, p.len() as int) =~= line@.subrange(k + 1, line@.len() as int));
    match parse_decimal(line, lo, k) {
        Some(n) => {
            let name = string_from_chars(&line[k + 1..line.len()]);
            Some((n, name))
        },
        None => None,
    }
}

/// Classifies one line: `Ok(Some(_))` for a record, `Ok(None)` for a line without a
/// known tag, `Err(tag)` where the tag matched but its fields did not parse.
pub fn parse_line(line: &[char]) -> (r: Result<Option<Record>, Tag>)
    ensures
        outcome_model(r) == line_model(line@),
{
    let t = match line_tag(line) {
        Some(t) => t,
        None => {
            return Ok(None);
        },
    };
    let lo = tag_chars(t).len();
    assert(has_prefix(line@, tag_text(t)));
    match t {
        Tag::SourceFile => {
            let path = string_from_chars(&line[lo..line.len()]);
            Ok(Some(Record::SourceFile(path)))
        },
        Tag::FunctionDecl => match split_numbered_name(line, lo) {
            Some((n, f)) => Ok(Some(Record::FunctionDecl(n, f))),
            None => Err(t),
        },
        Tag::FunctionHit => match split_numbered_name(line, lo) {
            Some((n, f)) => Ok(Some(Record::FunctionHit(n, f))),
            None => Err(t),
        },
        Tag::Count(c) => match parse_decimal(line, lo, line.len()) {
            Some(n) => Ok(Some(Record::Count(c, n))),
            None => Err(t),
        },
    }
}


/// The characters of `s`, in order.
pub fn text_chars(s: &str) -> (r: Vec<char>)
    ensures
        r@ == s@,
{
    let mut v: Vec<char> = Vec::new();
    for c in it: s.chars()
        invariant
            v@ == it.seq().subrange(0, it.index() as int),
    {
        v.push(c);
    }
    assert(v@ =~= s@);
    v
}

/// The path of an `SF:` line.
pub fn source_file_path(input: &str) -> (r: Option<String>)
    ensures
        match line_model(input@) {
            LineModel::Record(RecordModel::SourceFile(p)) => r is Some && r->0@ == p,
            _ => r is None,
        },
{
    let line = text_chars(input);
    match parse_line(line.as_slice()) {
        Ok(Some(Record::SourceFile(p))) => Some(p),
        _ => None,
    }
}

/// The line number and name of an `FN:` line.
pub fn function_name(input: &str) -> (r: Option<(usize, String)>)
    ensures
        numbered_view(r) == match line_model(input@) {
            LineModel::Record(RecordModel::FunctionDecl(n, f)) => Some((n, f)),
            _ => None,
        },
{
    let line = text_chars(input);
    match parse_line(line.as_slice()) {
        Ok(Some(Record::FunctionDecl(n, f))) => Some((n, f)),
        _ => None,
    }
}

/// The hit count and name of an `FNDA:` line.
pub fn function_hit_count(input: &str) -> (r: Option<(usize, String)>)
    ensures
        numbered_view(r) == match line_model(input@) {
            LineModel::Record(RecordModel::FunctionHit(n, f)) => Some((n, f)),
            _ => None,
        },
{
    let line = text_chars(input);
    match parse_line(line.as_slice()) {
        Ok(Some(Record::FunctionHit(n, f))) => Some((n, f)),
        _ => None,
    }
}

/// The value of a counter line for counter `c`.
fn tag_number(input: &str, c: Counter) -> (r: Option<usize>)
    ensures
        r == counter_value(line_model(input@), c),
{
    let line = text_chars(input);
    match parse_line(line.as_slice()) {
        Ok(Some(Record::Count(k, n))) => {
            if k == c {
                Some(n)
            } else {
                None
            }
        },
        _ => None,
    }
}

/// The value of an `FNF:` line.
pub fn functions_found(input: &str) -> (r: Option<usize>)
    ensures
        r == counter_value(line_model(input@), Counter::FunctionsFound),
{
    tag_number(input, Counter::FunctionsFound)
}

/// The value of an `FNH:` line.
pub fn functions_hit(input: &str) -> (r: Option<usize>)
    ensures
        r == counter_value(line_model(input@), Counter::FunctionsHit),
{
    tag_number(input, Counter::FunctionsHit)
}

/// The value of an `LF:` line.
pub fn lines_found(input: &str) -> (r: Option<usize>)
    ensures
        r == counter_value(line_model(input@), Counter::LinesFound),
{
    tag_number(input, Counter::LinesFound)
}

/// The value of an `LH:` line.
pub fn lines_hit(input: &str) -> (r: Option<usize>)
    ensures
        r == counter_value(line_model(input@), Counter::LinesHit),
{
    tag_number(input, Counter::LinesHit)
}

/// The value of a `BRF:` line.
pub fn branches_found(input: &str) -> (r: Option<usize>)
    ensures
        r == counter_value(line_model(input@), Counter::BranchesFound),
{
    tag_number(input, Counter::BranchesFound)
}

/// The value of a `BRH:` line.
pub fn branches_hit(input: &str) -> (r: Option<usize>)
    ensures
        r == counter_value(line_model(input@), Counter::BranchesHit),
{
    tag_number(input, Counter::BranchesHit)
}


/// The tag of a per-line hit record. Documents do not keep these records.
pub open spec fn line_hit_tag() -> Seq<char> {
    seq!['D', 'A', ':']
}

/// The line number and hit count of a `DA:line,count` line.
pub open spec fn line_hits_model(s: Seq<char>) -> Option<(usize, usize)> {
    if has_prefix(s, line_hit_tag()) {
        let p = s.subrange(3, s.len() as int);
        let k = index_from(p, ',', 0);
        if k < p.len() {
            match (decimal(p.subrange(0, k)), decimal(p.subrange(k + 1, p.len() as int))) {
                (Some(l), Some(n)) => Some((l, n)),
                _ => None,
            }
        } else {
            None
        }
    } else {
        None
    }
}

/// The line number and hit count of a `DA:` line.
pub fn line_number_hit_count(input: &str) -> (r: Option<(usize, usize)>)
    ensures
        r == line_hits_model(input@),
{
    let line = text_chars(input);
    let t = vec!['D', 'A', ':'];
    if !starts_with(line.as_slice(), &t) {
        return None;
    }
    let ghost p = line@.subrange(3, line@.len() as int);
    let k = find_comma(line.as_slice(), 3);
    proof {
        lemma_index_from_shift(line@, ',', 3, 3);
    }
    if k >= line.len() {
        return None;
    }
    assert(p.subrange(0, k - 3) =~= line@.subrange(3, k as int));
    assert(p.subrange(k - 3 + 1, p.len() as int) =~= line@.subrange(k + 1, line@.len() as int));
    match (parse_decimal(line.as_slice(), 3, k), parse_decimal(line.as_slice(), k + 1, line.len())) {
        (Some(l), Some(n)) => Some((l, n)),
        _ => None,
    }
}

} // verus!
