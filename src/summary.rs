//! Totals of a document, coverage percentages, and the difference of two summaries.
use vstd::prelude::*;

use crate::lcov_file::{FileModel, Lcov, LcovFile};

verus! {

/// The counters that a summary adds up.
#[derive(Clone, Copy, Debug, PartialEq, Eq, Structural)]
pub enum Field {
    LinesFound,
    LinesHit,
    FunctionsFound,
    FunctionsHit,
}

pub open spec fn field_of(f: FileModel, c: Field) -> usize {
    match c {
        Field::LinesFound => f.lines_found,
        Field::LinesHit => f.lines_hit,
        Field::FunctionsFound => f.functions_found,
        Field::FunctionsHit => f.functions_hit,
    }
}

/// The sum of counter `c` over the sections `fs`.
pub open spec fn total(fs: Seq<FileModel>, c: Field) -> int
    decreases fs.len(),
{
    if fs.len() == 0 {
        0
    } else {
        total(fs.drop_last(), c) + field_of(fs.last(), c)
    }
}

/// Each total of `fs` fits in `usize`.
pub open spec fn totals_fit(fs: Seq<FileModel>) -> bool {
    &&& total(fs, Field::LinesFound) <= usize::MAX
    &&& total(fs, Field::LinesHit) <= usize::MAX
    &&& total(fs, Field::FunctionsFound) <= usize::MAX
    &&& total(fs, Field::FunctionsHit) <= usize::MAX
}

/// A share `hit / found`, as a percentage. With `found == 0` it is undefined.
#[derive(Clone, Copy, Debug, PartialEq, Eq, Structural)]
pub struct Percentage {
    pub hit: usize,
    pub found: usize,
}

impl Percentage {
    pub open spec fn defined(self) -> bool {
        self.found != 0
    }

    /// Whether the percentage has a value, that is whether `found` is not zero.
    pub fn is_defined(&self) -> (r: bool)
        ensures
            r == self.defined(),
    {
        self.found != 0
    }
}

/// Totals of a document: branch counters are left out.
#[derive(Clone, Copy, Debug, PartialEq, Eq, Structural)]
pub struct LcovSummary {
    pub total_lines: usize,
    pub total_lines_hit: usize,
    pub total_functions: usize,
    pub total_functions_hit: usize,
}

impl LcovSummary {
    /// The share of lines hit.
    pub fn lines_percentage(&self) -> (r: Percentage)
        ensures
            r == (Percentage { hit: self.total_lines_hit, found: self.total_lines }),
    {
        Percentage { hit: self.total_lines_hit, found: self.total_lines }
    }

    /// The share of functions hit.
    pub fn functions_percentage(&self) -> (r: Percentage)
        ensures
            r == (Percentage { hit: self.total_functions_hit, found: self.total_functions }),
    {
        Percentage { hit: self.total_functions_hit, found: self.total_functions }
    }
}

proof fn lemma_total_nonnegative(fs: Seq<FileModel>, c: Field)
    ensures
        0 <= total(fs, c),
    decreases fs.len(),
{
    if fs.len() > 0 {
        lemma_total_nonnegative(fs.drop_last(), c);
    }
}

proof fn lemma_total_prefix(fs: Seq<FileModel>, i: int, c: Field)
    requires
        0 <= i <= fs.len(),
    ensures
        total(fs.subrange(0, i), c) <= total(fs, c),
        0 <= total(fs.subrange(0, i), c),
    decreases fs.len() - i,
{
    lemma_total_nonnegative(fs.subrange(0, i), c);
    if i < fs.len() {
        lemma_total_prefix(fs, i + 1, c);
        assert(fs.subrange(0, i + 1).drop_last() =~= fs.subrange(0, i));
    } else {
        assert(fs.subrange(0, i) =~= fs);
    }
}

impl Lcov {
    /// The totals, or `None` where one of them does not fit in `usize`.
    pub fn checked_summary(&self) -> (r: Option<LcovSummary>)
        ensures
            match r {
                Some(s) => totals_fit(self.model()) && s.total_lines == total(
                    self.model(),
                    Field::LinesFound,
                ) && s.total_lines_hit == total(self.model(), Field::LinesHit)
                    && s.total_functions == total(self.model(), Field::FunctionsFound)
                    && s.total_functions_hit == total(self.model(), Field::FunctionsHit),
                None => !totals_fit(self.model()),
            },
    {
        let ghost fs = self.model();
        let mut lines: usize = 0;
        let mut lines_hit: usize = 0;
        let mut functions: usize = 0;
        let mut functions_hit: usize = 0;
        let mut i: usize = 0;
        assert(fs.subrange(0, 0) =~= seq![]);
        while i < self.files.len()
            invariant
                fs == self.model(),
                fs.len() == self.files@.len(),
                i <= fs.len(),
                lines == total(fs.subrange(0, i as int), Field::LinesFound),
                lines_hit == total(fs.subrange(0, i as int), Field::LinesHit),
                functions == total(fs.subrange(0, i as int), Field::FunctionsFound),
                functions_hit == total(fs.subrange(0, i as int), Field::FunctionsHit),
            decreases fs.len() - i,
        {
            let f = &self.files[i];
            let ghost next = fs.subrange(0, i + 1);
            assert(next.drop_last() =~= fs.subrange(0, i as int));
            assert(next.last() == f@);
            proof {
                lemma_total_prefix(fs, i + 1, Field::LinesFound);
                lemma_total_prefix(fs, i + 1, Field::LinesHit);
                lemma_total_prefix(fs, i + 1, Field::FunctionsFound);
                lemma_total_prefix(fs, i + 1, Field::FunctionsHit);
            }
            lines = match lines.checked_add(f.lines_found) {
                Some(v) => v,
                None => {
                    return None;
                },
            };
            lines_hit = match lines_hit.checked_add(f.lines_hit) {
                Some(v) => v,
                None => {
                    return None;
                },
            };
            functions = match functions.checked_add(f.functions_found) {
                Some(v) => v,
                None => {
                    return None;
                },
            };
            functions_hit = match functions_hit.checked_add(f.functions_hit) {
                Some(v) => v,
                None => {
                    return None;
                },
            };
            i = i + 1;
        }
        assert(fs.subrange(0, i as int) =~= fs);
        Some(
            LcovSummary {
                total_lines: lines,
                total_lines_hit: lines_hit,
                total_functions: functions,
                total_functions_hit: functions_hit,
            },
        )
    }

    /// The totals of the document: each is the sum of that counter over the sections.
    pub fn summary(&self) -> (r: LcovSummary)
        requires
            totals_fit(self.model()),
        ensures
            r.total_lines == total(self.model(), Field::LinesFound),
            r.total_lines_hit == total(self.model(), Field::LinesHit),
            r.total_functions == total(self.model(), Field::FunctionsFound),
            r.total_functions_hit == total(self.model(), Field::FunctionsHit),
    {
        match self.checked_summary() {
            Some(s) => s,
            None => LcovSummary {
                total_lines: 0,
                total_lines_hit: 0,
                total_functions: 0,
                total_functions_hit: 0,
            },
        }
    }
}

impl LcovFile {
    /// The counters of this one section, as a summary.
    pub fn summary(&self) -> (r: LcovSummary)
        ensures
            r == (LcovSummary {
                total_lines: self.lines_found,
                total_lines_hit: self.lines_hit,
                total_functions: self.functions_found,
                total_functions_hit: self.functions_hit,
            }),
    {
        LcovSummary {
            total_lines: self.lines_found,
            total_lines_hit: self.lines_hit,
            total_functions: self.functions_found,
            total_functions_hit: self.functions_hit,
        }
    }
}


/// The change from one percentage to another. It is undefined where either side is.
#[derive(Clone, Copy, Debug, PartialEq, Eq, Structural)]
pub struct PercentageDelta {
    pub from: Percentage,
    pub to: Percentage,
}

impl PercentageDelta {
    pub open spec fn defined(self) -> bool {
        self.from.defined() && self.to.defined()
    }

    /// The change is `numerator() / denominator()` percentage points.
    pub open spec fn numerator(self) -> int {
        100 * (self.to.hit * self.from.found - self.from.hit * self.to.found)
    }

    pub open spec fn denominator(self) -> int {
        self.from.found * self.to.found
    }

    /// Whether the change has a value, that is whether both sides have one.
    pub fn is_defined(&self) -> (r: bool)
        ensures
            r == self.defined(),
    {
        self.from.is_defined() && self.to.is_defined()
    }

    /// The exact change, where it is defined: `Some((negative, m, d))` stands for
    /// `100 * m / d` percentage points, below zero where `negative` holds.
    pub fn ratio(&self) -> (r: Option<(bool, u128, u128)>)
        ensures
            match r {
                Some((negative, m, d)) => self.defined() && d == self.denominator() && 100 * (
                if negative {
                    -m
                } else {
                    m as int
                }) == self.numerator() && (m == 0 ==> !negative),
                None => !self.defined(),
            },
    {
        if !self.is_defined() {
            return None;
        }
        proof {
            lemma_product_fits(self.to.hit, self.from.found);
            lemma_product_fits(self.from.hit, self.to.found);
            lemma_product_fits(self.from.found, self.to.found);
        }
        let a: u128 = (self.to.hit as u128) * (self.from.found as u128);
        let b: u128 = (self.from.hit as u128) * (self.to.found as u128);
        let d: u128 = (self.from.found as u128) * (self.to.found as u128);
        if a >= b {
            Some((false, a - b, d))
        } else {
            Some((true, b - a, d))
        }
    }
}

proof fn lemma_product_fits(x: usize, y: usize)
    ensures
        0 <= x * y <= u128::MAX,
{
    let m: int = 0xffff_ffff_ffff_ffff;
    assert(x <= m && y <= m);
    assert(0 <= x * y <= m * m) by (nonlinear_arith)
        requires
            0 <= x <= m,
            0 <= y <= m,
    ;
    assert(m * m <= u128::MAX) by (nonlinear_arith)
        requires
            m == 0xffff_ffff_ffff_ffff,
    ;
}

/// The change of one metric between two summaries.
#[derive(Clone, Copy, Debug, PartialEq, Eq, Structural)]
pub struct MetricDiff {
    pub hit_delta: i128,
    pub found_delta: i128,
    pub percentage_delta: PercentageDelta,
}

/// The change of lines and of functions between two summaries.
#[derive(Clone, Copy, Debug, PartialEq, Eq, Structural)]
pub struct SummaryDiff {
    pub lines: MetricDiff,
    pub functions: MetricDiff,
}

/// The change from `hit_a` of `found_a` to `hit_b` of `found_b`.
pub open spec fn metric_diff(hit_a: usize, found_a: usize, hit_b: usize, found_b: usize) -> MetricDiff {
    MetricDiff {
        hit_delta: (hit_b - hit_a) as i128,
        found_delta: (found_b - found_a) as i128,
        percentage_delta: PercentageDelta {
            from: Percentage { hit: hit_a, found: found_a },
            to: Percentage { hit: hit_b, found: found_b },
        },
    }
}

/// The change from summary `a` to summary `b`: each delta is `b`'s value less `a`'s.
pub open spec fn summary_diff(a: LcovSummary, b: LcovSummary) -> SummaryDiff {
    SummaryDiff {
        lines: metric_diff(a.total_lines_hit, a.total_lines, b.total_lines_hit, b.total_lines),
        functions: metric_diff(
            a.total_functions_hit,
            a.total_functions,
            b.total_functions_hit,
            b.total_functions,
        ),
    }
}

fn diff_metric(hit_a: usize, found_a: usize, hit_b: usize, found_b: usize) -> (r: MetricDiff)
    ensures
        r == metric_diff(hit_a, found_a, hit_b, found_b),
        r.hit_delta == hit_b - hit_a,
        r.found_delta == found_b - found_a,
{
    MetricDiff {
        hit_delta: (hit_b as i128) - (hit_a as i128),
        found_delta: (found_b as i128) - (found_a as i128),
        percentage_delta: PercentageDelta {
            from: Percentage { hit: hit_a, found: found_a },
            to: Percentage { hit: hit_b, found: found_b },
        },
    }
}

impl LcovSummary {
    /// The change from this summary to `other`: negative deltas are regressions.
    pub fn diff(&self, other: &LcovSummary) -> (r: SummaryDiff)
        ensures
            r == summary_diff(*self, *other),
            r.lines.hit_delta == other.total_lines_hit - self.total_lines_hit,
            r.lines.found_delta == other.total_lines - self.total_lines,
            r.functions.hit_delta == other.total_functions_hit - self.total_functions_hit,
            r.functions.found_delta == other.total_functions - self.total_functions,
    {
        SummaryDiff {
            lines: diff_metric(
                self.total_lines_hit,
                self.total_lines,
                other.total_lines_hit,
                other.total_lines,
            ),
            functions: diff_metric(
                self.total_functions_hit,
                self.total_functions,
                other.total_functions_hit,
                other.total_functions,
            ),
        }
    }
}

/// A summary compared with itself changes by nothing: its integer deltas are zero, and
/// each percentage delta is zero where that percentage is defined and undefined where
/// it is not.
pub proof fn lemma_diff_reflexive(s: LcovSummary)
    ensures
        summary_diff(s, s).lines.hit_delta == 0,
        summary_diff(s, s).lines.found_delta == 0,
        summary_diff(s, s).functions.hit_delta == 0,
        summary_diff(s, s).functions.found_delta == 0,
        summary_diff(s, s).lines.percentage_delta.defined() <==> s.total_lines != 0,
        summary_diff(s, s).lines.percentage_delta.numerator() == 0,
        summary_diff(s, s).functions.percentage_delta.defined() <==> s.total_functions != 0,
        summary_diff(s, s).functions.percentage_delta.numerator() == 0,
{
    let l = summary_diff(s, s).lines.percentage_delta;
    let f = summary_diff(s, s).functions.percentage_delta;
    assert(l.to.hit * l.from.found == l.from.hit * l.to.found) by (nonlinear_arith)
        requires
            l.to == l.from,
    ;
    assert(f.to.hit * f.from.found == f.from.hit * f.to.found) by (nonlinear_arith)
        requires
            f.to == f.from,
    ;
}

} // verus!
