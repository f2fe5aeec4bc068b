use puppypeer::metadata::{FileMetadata, FileSource};

fn source(host: &str, size_hint: Option<u64>) -> FileSource {
    FileSource {
        host_name: String::from(host),
        full_file_path: None,
        root_folder: None,
        relative_file_path: None,
        file_name: None,
        file_extension: None,
        received_at: size_hint,
        created_at: None,
        modified_at: None,
        accessed_at: None,
        last_updated_at: None,
        readonly: None,
    }
}

#[test]
fn new_record_is_empty() {
    let m = FileMetadata::new();
    assert!(m.file_hash.is_none());
    assert!(m.received_at.is_none());
    assert!(m.mime_type.is_none());
    assert!(m.size.is_none());
    assert!(m.tags.is_empty());
    assert!(m.sources.is_empty());
}

#[test]
fn sources_are_found_by_host() {
    let mut m = FileMetadata::new();
    m.save_file_source(source("alpha", Some(1)));
    m.save_file_source(source("beta", Some(2)));
    let found = m.find_file_source("beta").expect("beta was saved");
    assert_eq!(found.host_name.as_str(), "beta");
    assert_eq!(found.received_at, Some(2));
    assert!(m.find_file_source("gamma").is_none());
}

#[test]
fn saving_replaces_the_entry_for_the_host() {
    let mut m = FileMetadata::new();
    m.save_file_source(source("alpha", Some(1)));
    m.save_file_source(source("alpha", Some(9)));
    assert_eq!(m.sources.len(), 1);
    let found = m.find_file_source("alpha").unwrap();
    assert_eq!(found.received_at, Some(9));
}
