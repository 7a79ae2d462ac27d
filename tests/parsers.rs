use lcov_summary::{
    branches_found, branches_hit, function_hit_count, function_name, functions_found,
    functions_hit, line_number_hit_count, lines_found, lines_hit, source_file_path,
};

#[test]
fn test_source_file_path() {
    let input = "SF:/home/thvdveld/source/vub/smoltcp/src/iface/fragmentation.rs";

    let file_name = source_file_path(input).unwrap();

    assert_eq!(
        file_name,
        "/home/thvdveld/source/vub/smoltcp/src/iface/fragmentation.rs"
    );
}

#[test]
fn test_function_name() {
    let input = "FN:110,_RINvMs2_NtNtCshpVWEOJQZRA_7smoltcp5iface13fragmentationINtB6_15PacketAssemblerpE8add_withpEBa_";

    let (line_number, name) = function_name(input).unwrap();

    assert_eq!(line_number, 110);
    assert_eq!(
        name,
        "_RINvMs2_NtNtCshpVWEOJQZRA_7smoltcp5iface13fragmentationINtB6_15PacketAssemblerpE8add_withpEBa_"
    );
}

#[test]
fn test_function_hit_count() {
    let input = "FNDA:0,_RINvMs2_NtNtCshpVWEOJQZRA_7smoltcp5iface13fragmentationINtB6_15PacketAssemblerpE8add_withpEBa_";

    let (hits, name) = function_hit_count(input).unwrap();

    assert_eq!(hits, 0);
    assert_eq!(
        name,
        "_RINvMs2_NtNtCshpVWEOJQZRA_7smoltcp5iface13fragmentationINtB6_15PacketAssemblerpE8add_withpEBa_"
    );
}

#[test]
fn test_functions_found() {
    let input = "FNF:38";
    let found = functions_found(input).unwrap();
    assert_eq!(found, 38);
}

#[test]
fn test_functions_hit() {
    let input = "FNH:23";
    let found = functions_hit(input).unwrap();
    assert_eq!(found, 23);
}

#[test]
fn test_line_number_hit_count() {
    let input = "DA:17,0";
    let (line, hit) = line_number_hit_count(input).unwrap();
    assert_eq!(line, 17);
    assert_eq!(hit, 0);
}

#[test]
fn test_branches_found() {
    let input = "BRF:0";
    let branches = branches_found(input).unwrap();
    assert_eq!(branches, 0);
}

#[test]
fn test_branches_hit() {
    let input = "BRH:0";
    let branches = branches_hit(input).unwrap();
    assert_eq!(branches, 0);
}

#[test]
fn name_keeps_commas_after_the_first() {
    let (line, name) = function_name("FN:7,a,b,c").unwrap();
    assert_eq!(line, 7);
    assert_eq!(name, "a,b,c");
}

#[test]
fn lines_counters_parse() {
    assert_eq!(lines_found("LF:20"), Some(20));
    assert_eq!(lines_hit("LH:15"), Some(15));
    assert_eq!(lines_found("LH:15"), None);
}

#[test]
fn divergent_branch_tags_are_not_branch_records() {
    assert_eq!(branches_found("BF:3"), None);
    assert_eq!(branches_hit("BH:3"), None);
}

#[test]
fn malformed_number_is_refused() {
    assert_eq!(functions_found("FNF:x1"), None);
    assert_eq!(functions_found("FNF:"), None);
    assert_eq!(functions_found("FNF:+4"), Some(4));
    assert_eq!(functions_found("FNF:18446744073709551616"), None);
    assert_eq!(function_name("FN:foo"), None);
    assert_eq!(line_number_hit_count("DA:17"), None);
}
