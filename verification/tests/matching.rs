use fuzzy_find::matcher::name_matches;
use fuzzy_find::matcher::query_ok;
use fuzzy_find::matcher::table_match;
use fuzzy_find::table::build_table;
use fuzzy_find::table::parse_line;
use fuzzy_find::table::EquivalenceTable;

fn table_w_to_f() -> EquivalenceTable {
    let mut t = EquivalenceTable::new();
    t.insert('w', 'f');
    t
}

#[test]
fn scenario_fwt_against_wwt() {
    let t = table_w_to_f();
    assert!(table_match(vec!['f', 'w', 't'], vec!['w', 'w', 't'], &t));
}

#[test]
fn scenario_fwt_against_wwt_through_matcher() {
    let t = table_w_to_f();
    let r = name_matches(&"fwt".to_string(), &b"wwt".to_vec(), &t);
    assert_eq!(r, Some(true));
}

#[test]
fn equivalence_is_directional() {
    let t = table_w_to_f();
    assert!(table_match(vec!['f'], vec!['w'], &t));
    assert!(!table_match(vec!['w'], vec!['f'], &t));
}

#[test]
fn query_longer_than_name_fails_fuzzy() {
    let t = EquivalenceTable::new();
    assert!(!table_match(vec!['a', 'b', 'c'], vec!['a', 'b'], &t));
}

#[test]
fn empty_query_matches_everything() {
    let t = EquivalenceTable::new();
    assert!(table_match(Vec::new(), vec!['x', 'y'], &t));
    assert!(table_match(Vec::new(), Vec::new(), &t));
    assert_eq!(name_matches(&"".to_string(), &b"anything".to_vec(), &t), Some(true));
    assert_eq!(name_matches(&"".to_string(), &Vec::new(), &t), Some(true));
}

#[test]
fn sliding_window_finds_inner_match() {
    let t = EquivalenceTable::new();
    assert!(table_match(vec!['b', 'c'], vec!['a', 'b', 'c', 'd'], &t));
    assert!(!table_match(vec!['b', 'd'], vec!['a', 'b', 'c', 'd'], &t));
}

#[test]
fn regex_phase_wins_regardless_of_table() {
    let t = EquivalenceTable::new();
    let r = name_matches(&"a.c".to_string(), &b"abc".to_vec(), &t);
    assert_eq!(r, Some(true));
}

#[test]
fn regex_and_fuzzy_both_fail() {
    let t = EquivalenceTable::new();
    let r = name_matches(&"^zz$".to_string(), &b"abc".to_vec(), &t);
    assert_eq!(r, Some(false));
}

#[test]
fn invalid_regex_is_reported() {
    let t = EquivalenceTable::new();
    assert_eq!(name_matches(&"(".to_string(), &b"abc".to_vec(), &t), None);
    assert!(!query_ok(&"(".to_string()));
    assert!(query_ok(&"a.c".to_string()));
}

#[test]
fn non_text_name_only_regex_applies() {
    let t = table_w_to_f();
    let name = vec![0xffu8, 0xfeu8];
    assert_eq!(name_matches(&"w".to_string(), &name, &t), Some(false));
}

#[test]
fn multibyte_fuzzy_match() {
    let mut t = EquivalenceTable::new();
    t.insert('é', 'e');
    let name = "café".to_string().into_bytes();
    assert_eq!(name_matches(&"cafe".to_string(), &name, &t), Some(true));
    let empty = EquivalenceTable::new();
    assert_eq!(name_matches(&"cafe".to_string(), &name, &empty), Some(false));
}

#[test]
fn dictionary_line_parsing() {
    assert_eq!(parse_line("w-f"), Some(('w', 'f')));
    assert_eq!(parse_line("xyz"), Some(('x', 'z')));
    assert_eq!(parse_line("  a-b  "), Some(('a', 'b')));
    assert_eq!(parse_line("ab"), None);
    assert_eq!(parse_line("abcd"), None);
    assert_eq!(parse_line(""), None);
    assert_eq!(parse_line("   "), None);
}

#[test]
fn dictionary_builds_table() {
    let lines = vec!["w-f".to_string(), "ab".to_string(), "xyz".to_string()];
    let t = build_table(&lines);
    assert!(t.allows('w', 'f'));
    assert!(t.allows('x', 'z'));
    assert!(!t.allows('a', 'b'));
    assert!(!t.allows('w', 't'));
    assert!(!t.allows('f', 'w'));
}

#[test]
fn dictionary_entries_accumulate() {
    let lines = vec!["a-b".to_string(), "a-c".to_string(), "a-b".to_string()];
    let t = build_table(&lines);
    assert!(t.allows('a', 'b'));
    assert!(t.allows('a', 'c'));
    assert!(!t.allows('b', 'a'));
}

#[test]
fn missing_dictionary_means_empty_table() {
    let t = build_table(&Vec::new());
    assert!(!t.allows('a', 'a'));
    let r = name_matches(&"q".to_string(), &b"x".to_vec(), &t);
    assert_eq!(r, Some(false));
}
