use fuzzy_find::engine::is_hidden;
use fuzzy_find::engine::DirEntry;
use fuzzy_find::engine::Traversal;
use fuzzy_find::table::EquivalenceTable;

fn entry(path: &str, name: &str, is_dir: bool) -> DirEntry {
    DirEntry { path: path.as_bytes().to_vec(), name: name.as_bytes().to_vec(), is_dir }
}

#[test]
fn hidden_names() {
    assert!(is_hidden(&b".git".to_vec()));
    assert!(is_hidden(&b".".to_vec()));
    assert!(!is_hidden(&b"git".to_vec()));
    assert!(!is_hidden(&b"".to_vec()));
    assert!(!is_hidden(&vec![0xffu8, b'.']));
}

#[test]
fn engine_starts_with_the_root() {
    let t = EquivalenceTable::new();
    let mut tr = Traversal::new(b"r".to_vec(), "q".to_string(), t);
    assert_eq!(tr.next_dir(), Some(b"r".to_vec()));
    assert_eq!(tr.next_dir(), None);
}

#[test]
fn engine_files_matches_and_subdirectories() {
    let t = EquivalenceTable::new();
    let mut tr = Traversal::new(b"r".to_vec(), "match".to_string(), t);
    assert_eq!(tr.next_dir(), Some(b"r".to_vec()));
    let listing = vec![
        entry("r/.hid", ".hid", true),
        entry("r/sub", "sub", true),
        entry("r/match.txt", "match.txt", false),
        entry("r/other.txt", "other.txt", false),
    ];
    assert!(tr.absorb(&listing));
    assert_eq!(tr.next_dir(), Some(b"r/sub".to_vec()));
    assert_eq!(tr.next_dir(), None);
    assert_eq!(tr.into_results(), vec![b"r/match.txt".to_vec()]);
}

#[test]
fn hidden_entries_never_match_nor_recurse() {
    let t = EquivalenceTable::new();
    let mut tr = Traversal::new(b"r".to_vec(), "hid".to_string(), t);
    assert_eq!(tr.next_dir(), Some(b"r".to_vec()));
    let listing = vec![entry("r/.hid", ".hid", true), entry("r/.hid.txt", ".hid.txt", false)];
    assert!(tr.absorb(&listing));
    assert_eq!(tr.next_dir(), None);
    assert_eq!(tr.into_results(), Vec::<Vec<u8>>::new());
}

#[test]
fn queue_is_last_in_first_out() {
    let t = EquivalenceTable::new();
    let mut tr = Traversal::new(b"r".to_vec(), "zzz".to_string(), t);
    assert_eq!(tr.next_dir(), Some(b"r".to_vec()));
    let listing = vec![entry("r/a", "a", true), entry("r/b", "b", true)];
    assert!(tr.absorb(&listing));
    assert_eq!(tr.next_dir(), Some(b"r/b".to_vec()));
    assert_eq!(tr.next_dir(), Some(b"r/a".to_vec()));
    assert_eq!(tr.next_dir(), None);
}

#[test]
fn invalid_query_leaves_engine_unchanged() {
    let t = EquivalenceTable::new();
    let mut tr = Traversal::new(b"r".to_vec(), "(".to_string(), t);
    let listing = vec![entry("r/a", "a", true)];
    assert!(!tr.absorb(&listing));
    assert_eq!(tr.next_dir(), Some(b"r".to_vec()));
    assert_eq!(tr.next_dir(), None);
    assert_eq!(tr.into_results(), Vec::<Vec<u8>>::new());
}

#[test]
fn matching_subdirectory_is_reported_and_recursed() {
    let t = EquivalenceTable::new();
    let mut tr = Traversal::new(b"r".to_vec(), "sub".to_string(), t);
    assert_eq!(tr.next_dir(), Some(b"r".to_vec()));
    let listing = vec![entry("r/sub", "sub", true)];
    assert!(tr.absorb(&listing));
    assert_eq!(tr.next_dir(), Some(b"r/sub".to_vec()));
    assert_eq!(tr.into_results(), vec![b"r/sub".to_vec()]);
}

#[test]
fn fuzzy_results_through_the_engine() {
    let mut t = EquivalenceTable::new();
    t.insert('w', 'f');
    let mut tr = Traversal::new(b"r".to_vec(), "fwt".to_string(), t);
    assert_eq!(tr.next_dir(), Some(b"r".to_vec()));
    let listing = vec![entry("r/wwt", "wwt", false), entry("r/fft", "fft", false)];
    assert!(tr.absorb(&listing));
    assert_eq!(tr.into_results(), vec![b"r/wwt".to_vec()]);
}
