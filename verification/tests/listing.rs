use puppypeer::listing::{extension_of, make_dir_entry, sort_dir_entries, str_lex_le, DirEntry};

fn entry(name: &str, is_dir: bool) -> DirEntry {
    make_dir_entry(String::from(name), is_dir, 0, None, None, None)
}

#[test]
fn extension_follows_last_dot() {
    assert_eq!(extension_of("note.txt"), Some(String::from("txt")));
    assert_eq!(extension_of("archive.tar.gz"), Some(String::from("gz")));
    assert_eq!(extension_of("README"), None);
    assert_eq!(extension_of(".bashrc"), None);
    assert_eq!(extension_of("trailing."), Some(String::from("")));
}

#[test]
fn mime_comes_from_the_extension_table() {
    let e = entry("note.txt", false);
    assert_eq!(e.extension, Some(String::from("txt")));
    assert_eq!(e.mime, Some(String::from("text/plain")));
    let d = entry("texts.txt", true);
    assert_eq!(d.mime, None);
    let none = entry("README", false);
    assert_eq!(none.mime, None);
}

#[test]
fn entry_metadata_is_kept() {
    let e = make_dir_entry(String::from("a.json"), false, 42, Some(1), Some(2), Some(3));
    assert_eq!(e.name.as_str(), "a.json");
    assert!(!e.is_dir);
    assert_eq!(e.size, 42);
    assert_eq!(e.created_at, Some(1));
    assert_eq!(e.modified_at, Some(2));
    assert_eq!(e.accessed_at, Some(3));
    assert_eq!(e.mime, Some(String::from("application/json")));
}

#[test]
fn directories_precede_files() {
    let sorted = sort_dir_entries(vec![
        entry("zeta.txt", false),
        entry("alpha", true),
        entry("beta.txt", false),
        entry("omega", true),
    ]);
    let names: Vec<&str> = sorted.iter().map(|e| e.name.as_str()).collect();
    assert_eq!(names, vec!["alpha", "omega", "beta.txt", "zeta.txt"]);
}

#[test]
fn names_order_case_insensitively() {
    // With case folding "a" sorts before "B"; raw scalar order would put
    // "B" first.
    let sorted = sort_dir_entries(vec![entry("B.txt", false), entry("a.txt", false)]);
    let names: Vec<&str> = sorted.iter().map(|e| e.name.as_str()).collect();
    assert_eq!(names, vec!["a.txt", "B.txt"]);
}

#[test]
fn equal_folded_names_both_stay() {
    let sorted = sort_dir_entries(vec![entry("DUP.txt", false), entry("dup.TXT", false)]);
    assert_eq!(sorted.len(), 2);
    let mut names: Vec<String> = sorted.iter().map(|e| e.name.clone()).collect();
    names.sort();
    assert_eq!(names, vec![String::from("DUP.txt"), String::from("dup.TXT")]);
}

#[test]
fn empty_listing_sorts_to_empty() {
    assert!(sort_dir_entries(Vec::new()).is_empty());
}

#[test]
fn lexicographic_order_on_strings() {
    assert!(str_lex_le("abc", "abd"));
    assert!(!str_lex_le("abd", "abc"));
    assert!(str_lex_le("ab", "abc"));
    assert!(!str_lex_le("abc", "ab"));
    assert!(str_lex_le("", "a"));
    assert!(str_lex_le("same", "same"));
}
