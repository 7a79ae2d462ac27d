use lcov_summary::{Lcov, LcovSummary};

fn value(d: &lcov_summary::PercentageDelta) -> f64 {
    let (negative, m, den) = d.ratio().unwrap();
    let v = 100.0 * m as f64 / den as f64;
    if negative {
        -v
    } else {
        v
    }
}

#[test]
fn totals_add_up_over_files() {
    let text = "SF:/a.rs\nFNF:3\nFNH:2\nLF:10\nLH:7\nSF:/b.rs\nFNF:4\nFNH:1\nLF:30\nLH:3\nBRF:9\n";
    let doc = Lcov::parse("t".to_string(), text).unwrap();
    let s = doc.summary();
    assert_eq!(s.total_lines, 40);
    assert_eq!(s.total_lines_hit, 10);
    assert_eq!(s.total_functions, 7);
    assert_eq!(s.total_functions_hit, 3);
    assert_eq!(doc.checked_summary(), Some(s));
}

#[test]
fn overflowing_totals_are_reported() {
    let text = "SF:/a.rs\nLF:18446744073709551615\nSF:/b.rs\nLF:1\n";
    let doc = Lcov::parse("t".to_string(), text).unwrap();
    assert_eq!(doc.checked_summary(), None);
}

#[test]
fn diff_arithmetic() {
    let a = LcovSummary { total_lines: 20, total_lines_hit: 10, total_functions: 20, total_functions_hit: 10 };
    let b = LcovSummary { total_lines: 20, total_lines_hit: 15, total_functions: 20, total_functions_hit: 15 };
    let d = a.diff(&b);
    assert_eq!(d.lines.hit_delta, 5);
    assert_eq!(d.lines.found_delta, 0);
    assert_eq!(d.lines.percentage_delta.ratio(), Some((false, 100, 400)));
    assert!((value(&d.lines.percentage_delta) - 25.0).abs() < 1e-9);
    assert_eq!(format!("{:.2}", value(&d.functions.percentage_delta)), "25.00");
}

#[test]
fn regression_is_negative() {
    let a = LcovSummary { total_lines: 10, total_lines_hit: 8, total_functions: 4, total_functions_hit: 4 };
    let b = LcovSummary { total_lines: 12, total_lines_hit: 6, total_functions: 2, total_functions_hit: 1 };
    let d = a.diff(&b);
    assert_eq!(d.lines.hit_delta, -2);
    assert_eq!(d.lines.found_delta, 2);
    assert!((value(&d.lines.percentage_delta) + 30.0).abs() < 1e-9);
    assert_eq!(d.functions.found_delta, -2);
    assert!((value(&d.functions.percentage_delta) + 50.0).abs() < 1e-9);
}

#[test]
fn reflexive_diff_is_zero() {
    let s = LcovSummary { total_lines: 20, total_lines_hit: 15, total_functions: 0, total_functions_hit: 0 };
    let d = s.diff(&s);
    assert_eq!(d.lines.hit_delta, 0);
    assert_eq!(d.lines.found_delta, 0);
    assert_eq!(d.functions.hit_delta, 0);
    assert_eq!(d.functions.found_delta, 0);
    assert_eq!(d.lines.percentage_delta.ratio(), Some((false, 0, 400)));
    assert!(!d.functions.percentage_delta.is_defined());
    assert_eq!(d.functions.percentage_delta.ratio(), None);
}

#[test]
fn zero_lines_found_gives_undefined_percentage() {
    let doc = Lcov::parse("t".to_string(), "SF:/a.rs\nLF:0\nLH:0\nFNF:2\nFNH:1\n").unwrap();
    let s = doc.summary();
    let p = s.lines_percentage();
    assert!(!p.is_defined());
    assert!(s.functions_percentage().is_defined());
    assert_eq!(s.functions_percentage().hit, 1);
    assert_eq!(s.functions_percentage().found, 2);
}

#[test]
fn undefined_on_one_side_stays_undefined() {
    let a = LcovSummary { total_lines: 0, total_lines_hit: 0, total_functions: 1, total_functions_hit: 1 };
    let b = LcovSummary { total_lines: 5, total_lines_hit: 5, total_functions: 1, total_functions_hit: 1 };
    let d = a.diff(&b);
    assert!(!d.lines.percentage_delta.is_defined());
    assert_eq!(d.lines.hit_delta, 5);
    assert_eq!(d.functions.percentage_delta.ratio(), Some((false, 0, 1)));
}

#[test]
fn file_summary_takes_the_section_counters() {
    let doc = Lcov::parse("t".to_string(), "SF:/a.rs\nFNF:3\nFNH:2\nLF:10\nLH:7\n").unwrap();
    let s = doc.files()[0].summary();
    assert_eq!(s, LcovSummary { total_lines: 10, total_lines_hit: 7, total_functions: 3, total_functions_hit: 2 });
}
