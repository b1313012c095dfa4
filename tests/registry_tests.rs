use nebula::address::ContentAddress;
use nebula::registry::{FileMetadata, FileRegistry};

#[test]
fn test_file_registry_creation() {
    let registry = FileRegistry::new("/tmp/registry");

    assert_eq!(registry.file_count(), 0);
    assert!(registry.list_files().is_empty());
    assert_eq!(registry.registry_path(), "/tmp/registry/file_registry.json");
}

#[test]
fn test_register_and_retrieve_file() {
    let mut registry = FileRegistry::new("/tmp/registry");

    let addresses = vec![];
    let metadata = registry.register_file("test.txt".to_string(), addresses, 1024);

    assert_eq!(registry.file_count(), 1);

    let retrieved = registry.get_file(&metadata.id).unwrap();
    assert_eq!(retrieved.original_name, "test.txt");
    assert_eq!(retrieved.total_size, 1024);
}

fn copy(m: &FileMetadata) -> FileMetadata {
    m.duplicate()
}

#[test]
fn test_registry_persistence() {
    let file_id;
    let saved: Vec<FileMetadata>;
    {
        let mut registry = FileRegistry::new("/tmp/persist");
        let addresses = vec![];
        let metadata = registry.register_file("persistent.txt".to_string(), addresses, 2048);
        file_id = metadata.id;
        saved = registry.list_files().into_iter().map(copy).collect();
    }
    {
        let registry = FileRegistry::from_files("/tmp/persist", saved);
        assert_eq!(registry.file_count(), 1);

        let retrieved = registry.get_file(&file_id).unwrap();
        assert_eq!(retrieved.original_name, "persistent.txt");
        assert_eq!(retrieved.total_size, 2048);
    }
}

fn meta(id: u128, name: &str, size: u64) -> FileMetadata {
    FileMetadata::with_id(id, name.to_string(), vec![ContentAddress::from_data(name.as_bytes())], size, 7)
}

#[test]
fn short_id_is_first_eight_hex_digits() {
    let m = meta(0x0123_4567_89ab_cdef_0011_2233_4455_6677, "a", 1);
    assert_eq!(m.short_id(), "01234567");
    assert_eq!(m.chunk_count, 1);
    assert_eq!(m.created_time_string(), "7 seconds since epoch");
}

#[test]
fn lookup_by_short_id_finds_the_first_match() {
    let reg = FileRegistry::from_files(
        "/r",
        vec![
            meta(0xdeadbeef_0000_0000_0000_0000_0000_0001, "first", 1),
            meta(0xdeadbeef_0000_0000_0000_0000_0000_0002, "second", 2),
            meta(0x00000001_0000_0000_0000_0000_0000_0000, "third", 3),
        ],
    );
    assert_eq!(reg.get_file_by_short_id("deadbeef").unwrap().original_name, "first");
    assert_eq!(reg.get_file_by_short_id("00000001").unwrap().original_name, "third");
    assert!(reg.get_file_by_short_id("ffffffff").is_none());
}

#[test]
fn registered_file_is_found_by_id_and_short_id() {
    let mut reg = FileRegistry::new("/r");
    let m = reg.register_file("foo.txt".to_string(), vec![ContentAddress::from_data(b"foo")], 100);
    assert_eq!(m.chunk_count, 1);
    let by_id = reg.get_file(&m.id).unwrap();
    assert_eq!(by_id.original_name, "foo.txt");
    let by_short = reg.get_file_by_short_id(&m.short_id()).unwrap();
    assert_eq!(by_short.id, m.id);
    assert_eq!((m.id >> 76) & 0xf, 4);
}

#[test]
fn later_entry_with_same_id_replaces_earlier() {
    let reg = FileRegistry::from_files("/r", vec![meta(5, "old", 1), meta(5, "new", 2), meta(6, "x", 3)]);
    assert_eq!(reg.file_count(), 2);
    assert_eq!(reg.get_file(&5).unwrap().original_name, "new");
}

#[test]
fn remove_file_returns_what_it_removed() {
    let mut reg = FileRegistry::from_files("/r", vec![meta(1, "a", 1), meta(2, "b", 2)]);
    let removed = reg.remove_file(&1).unwrap();
    assert_eq!(removed.original_name, "a");
    assert_eq!(reg.file_count(), 1);
    assert!(reg.get_file(&1).is_none());
    assert!(reg.remove_file(&1).is_none());
}

#[test]
fn find_by_name_and_total_size() {
    let reg = FileRegistry::from_files(
        "/r",
        vec![meta(1, "report.txt", 10), meta(2, "photo.png", 20), meta(3, "report-2.txt", 30)],
    );
    let found: Vec<String> = reg.find_files_by_name("report").iter().map(|m| m.original_name.clone()).collect();
    assert_eq!(found, vec!["report.txt".to_string(), "report-2.txt".to_string()]);
    assert!(reg.find_files_by_name("zzz").is_empty());
    assert_eq!(reg.find_files_by_name("").len(), 3);
    assert_eq!(reg.total_size(), 60);
}
