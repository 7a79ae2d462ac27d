use lcov_summary::{Counter, Lcov, LcovError, Tag};

const SAMPLE: &str = "SF:/a/b.rs\nFN:10,foo\nFNDA:5,foo\nFNF:1\nFNH:1\nLF:20\nLH:15\n";

#[test]
fn literal_case_parses_to_one_file() {
    let doc = Lcov::parse("sample.info".to_string(), SAMPLE).unwrap();
    assert_eq!(doc.name, "sample.info");
    let files = doc.files();
    assert_eq!(files.len(), 1);
    let f = &files[0];
    assert_eq!(f.name, "/a/b.rs");
    assert_eq!(f.functions_found, 1);
    assert_eq!(f.functions_hit, 1);
    assert_eq!(f.lines_found, 20);
    assert_eq!(f.lines_hit, 15);
    assert_eq!(f.branches_found, 0);
    assert_eq!(f.function_hits, vec![("foo".to_string(), 5)]);
}

#[test]
fn parsing_twice_gives_the_same_document() {
    let text = "TN:\nSF:/x.rs\nFN:1,a\nFN:2,b\nFNDA:3,b\nLF:4\nLH:2\nend_of_record\nSF:/y.rs\nBRF:6\nBRH:1\nend_of_record\n";
    let a = Lcov::parse("t".to_string(), text).unwrap();
    let b = Lcov::parse("t".to_string(), text).unwrap();
    assert_eq!(format!("{:?}", a.files()), format!("{:?}", b.files()));
    assert_eq!(a.files().len(), 2);
    assert_eq!(b.files()[1].branches_found, 6);
    assert_eq!(b.files()[1].branches_hit, 1);
}

#[test]
fn orphan_hit_record_is_a_lookup_error() {
    let text = "SF:/a.rs\nFN:1,foo\nFNDA:3,bar\n";
    match Lcov::parse("in.info".to_string(), text) {
        Err(LcovError::Lookup { path, section, function }) => {
            assert_eq!(path, "in.info");
            assert_eq!(section, "/a.rs");
            assert_eq!(function, "bar");
        }
        other => panic!("expected a lookup error, got {:?}", other.is_ok()),
    }
}

#[test]
fn orphan_hit_leaves_no_entry() {
    let mut f = lcov_summary::LcovFile::new("/a.rs");
    f.declare_function("foo".to_string());
    assert_eq!(f.record_hits("bar".to_string(), 3), Err("bar".to_string()));
    assert_eq!(f.function_hits, vec![("foo".to_string(), 0)]);
    assert_eq!(f.record_hits("foo".to_string(), 3), Ok(()));
    assert_eq!(f.function_hits, vec![("foo".to_string(), 3)]);
}

#[test]
fn redeclaration_resets_hits() {
    let text = "SF:/a.rs\nFN:1,foo\nFNDA:9,foo\nFN:1,foo\n";
    let doc = Lcov::parse("t".to_string(), text).unwrap();
    assert_eq!(doc.files()[0].function_hits, vec![("foo".to_string(), 0)]);
}

#[test]
fn malformed_number_is_a_parse_error() {
    let text = "SF:/a.rs\nLF:twenty\n";
    match Lcov::parse("in.info".to_string(), text) {
        Err(LcovError::Parse { path, tag, line }) => {
            assert_eq!(path, "in.info");
            assert_eq!(tag, Tag::Count(Counter::LinesFound));
            assert_eq!(tag.label(), "LF:");
            assert_eq!(line, "LF:twenty");
        }
        _ => panic!("expected a parse error"),
    }
}

#[test]
fn records_before_any_section_are_dropped() {
    let text = "LF:5\nFN:1,foo\nFNDA:2,foo\nSF:/a.rs\nLH:1\n";
    let doc = Lcov::parse("t".to_string(), text).unwrap();
    assert_eq!(doc.files().len(), 1);
    assert_eq!(doc.files()[0].lines_found, 0);
    assert_eq!(doc.files()[0].lines_hit, 1);
    assert!(doc.files()[0].function_hits.is_empty());
}

#[test]
fn carriage_returns_and_missing_final_newline() {
    let text = "SF:/a.rs\r\nLF:3\r\nLH:2";
    let doc = Lcov::parse("t".to_string(), text).unwrap();
    assert_eq!(doc.files()[0].name, "/a.rs");
    assert_eq!(doc.files()[0].lines_found, 3);
    assert_eq!(doc.files()[0].lines_hit, 2);
}

#[test]
fn empty_text_has_no_sections() {
    let doc = Lcov::parse("t".to_string(), "").unwrap();
    assert!(doc.files().is_empty());
    let s = doc.summary();
    assert_eq!(s.total_lines, 0);
    assert!(!s.lines_percentage().is_defined());
}

#[test]
fn files_mut_changes_in_place() {
    let mut doc = Lcov::parse("t".to_string(), SAMPLE).unwrap();
    doc.files_mut()[0].lines_hit = 20;
    assert_eq!(doc.summary().total_lines_hit, 20);
}

#[test]
fn per_file_diff_matches_by_exact_path() {
    let a = Lcov::parse("a".to_string(), "SF:/x.rs\nLF:10\nLH:5\nSF:/y.rs\nLF:4\nLH:4\n").unwrap();
    let b = Lcov::parse("b".to_string(), "SF:/z.rs\nLF:1\nLH:0\nSF:/x.rs\nLF:10\nLH:8\n").unwrap();
    let d = a.diffstd(&b);
    assert_eq!(d.len(), 3);
    assert_eq!(d[0].path, "/x.rs");
    assert_eq!(d[0].base.unwrap().total_lines_hit, 5);
    assert_eq!(d[0].other.unwrap().total_lines_hit, 8);
    assert_eq!(d[1].path, "/y.rs");
    assert!(d[1].other.is_none());
    assert_eq!(d[2].path, "/z.rs");
    assert!(d[2].base.is_none());
    assert_eq!(d[2].other.unwrap().total_lines, 1);
}
