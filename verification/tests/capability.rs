use generic_filesystem::FileProvider;
use generic_filesystem::MemoryFileProvider;

fn provider() -> MemoryFileProvider {
    MemoryFileProvider::new(String::from("/data"))
}

#[test]
fn round_trip_write_read() {
    let mut p = provider();
    p.write_file(String::from("/a.txt"), b"hello".to_vec()).unwrap();
    let data = p.read_file_buffer("/a.txt").unwrap();
    assert_eq!(data, b"hello".to_vec());
}

#[test]
fn round_trip_binary_content() {
    let mut p = provider();
    let content = vec![0u8, 255, 7, 0, 42];
    p.write_file(String::from("/bin.dat"), content.clone()).unwrap();
    assert_eq!(p.read_file_buffer("/bin.dat").unwrap(), content);
}

#[test]
fn write_text_stores_bytes() {
    let mut p = provider();
    p.write("/t.txt", "hi").unwrap();
    assert_eq!(p.read_file_buffer("/t.txt").unwrap(), b"hi".to_vec());
}

#[test]
fn overwrite_keeps_one_entry() {
    let mut p = provider();
    p.write_file(String::from("/a.txt"), b"first".to_vec()).unwrap();
    p.write_file(String::from("/a.txt"), b"second".to_vec()).unwrap();
    assert_eq!(p.read_file_buffer("/a.txt").unwrap(), b"second".to_vec());
    let entries = p.read_dir("/a.txt").unwrap();
    assert_eq!(entries.len(), 1);
    assert_eq!(entries[0].size, 6);
}

#[test]
fn create_dir_twice_succeeds() {
    let mut p = provider();
    assert!(p.create_dir("/sub").is_ok());
    assert!(p.create_dir("/sub").is_ok());
}

#[test]
fn listing_is_complete() {
    let mut p = provider();
    p.write_file(String::from("logs/one"), b"a".to_vec()).unwrap();
    p.write_file(String::from("logs/two"), b"bb".to_vec()).unwrap();
    p.write_file(String::from("logs/three"), b"ccc".to_vec()).unwrap();
    p.write_file(String::from("other/x"), b"dddd".to_vec()).unwrap();
    let entries = p.read_dir("logs/").unwrap();
    assert_eq!(entries.len(), 3);
    let mut found = vec![false; 3];
    for e in &entries {
        match e.name.as_str() {
            "logs/one" => {
                assert_eq!(e.size, 1);
                found[0] = true;
            }
            "logs/two" => {
                assert_eq!(e.size, 2);
                found[1] = true;
            }
            "logs/three" => {
                assert_eq!(e.size, 3);
                found[2] = true;
            }
            other => panic!("unexpected entry {}", other),
        }
    }
    assert!(found.iter().all(|f| *f));
}

#[test]
fn move_with_delete_removes_source() {
    let mut p = provider();
    p.write_file(String::from("/a.txt"), b"hello".to_vec()).unwrap();
    p.move_file("/a.txt", "/other/a.txt", true).unwrap();
    assert_eq!(p.read_file_buffer("/other/a.txt").unwrap(), b"hello".to_vec());
    assert!(p.read_file_buffer("/a.txt").is_err());
}

#[test]
fn move_without_delete_keeps_both() {
    let mut p = provider();
    p.write_file(String::from("/a.txt"), b"hello".to_vec()).unwrap();
    p.move_file("/a.txt", "/copy/a.txt", false).unwrap();
    assert_eq!(p.read_file_buffer("/a.txt").unwrap(), b"hello".to_vec());
    assert_eq!(p.read_file_buffer("/copy/a.txt").unwrap(), b"hello".to_vec());
}

#[test]
fn copy_onto_itself_keeps_content() {
    let mut p = provider();
    p.write_file(String::from("/a.txt"), b"hello".to_vec()).unwrap();
    p.move_file("/a.txt", "/a.txt", false).unwrap();
    assert_eq!(p.read_file_buffer("/a.txt").unwrap(), b"hello".to_vec());
}

#[test]
fn move_of_missing_source_reports_not_found() {
    let mut p = provider();
    let err = p.move_file("/ghost", "/dst", true).unwrap_err();
    assert!(err.message().contains("/ghost"));
}

#[test]
fn read_missing_reports_not_found_with_path() {
    let p = provider();
    let err = p.read_file_buffer("/no/such/file").unwrap_err();
    assert!(err.message().contains("/no/such/file"));
}

#[test]
fn delete_file_exact_semantics() {
    let mut p = provider();
    p.write_file(String::from("/a.txt"), b"x".to_vec()).unwrap();
    assert!(p.delete_file("/a.txt").is_ok());
    assert!(p.read_file_buffer("/a.txt").is_err());
    let err = p.delete_file("/a.txt").unwrap_err();
    assert!(err.message().contains("/a.txt"));
}

#[test]
fn get_base_path_returns_root() {
    let p = provider();
    assert_eq!(p.get_base_path(), "/data");
}

#[test]
fn scenario_local_root() {
    let mut p = provider();
    p.write_file(String::from("/a.txt"), b"hello".to_vec()).unwrap();
    assert_eq!(p.read_file_buffer("/a.txt").unwrap(), b"hello".to_vec());

    let listing = p.list_dir("/").unwrap();
    assert!(listing.iter().any(|full| full.ends_with("a.txt")));
    let entries = p.read_dir("/").unwrap();
    let entry = entries.iter().find(|e| e.name.ends_with("a.txt")).unwrap();
    assert_eq!(entry.size, 5);

    assert!(p.create_dir("/sub").is_ok());
    assert!(p.create_dir("/sub").is_ok());

    p.move_file("/a.txt", "/other/a.txt", true).unwrap();
    assert!(p.read_file_buffer("/a.txt").is_err());
    assert_eq!(p.read_file_buffer("/other/a.txt").unwrap(), b"hello".to_vec());
}

#[test]
fn list_dir_joins_base_and_names() {
    let mut p = provider();
    p.write_file(String::from("/a.txt"), b"hello".to_vec()).unwrap();
    let listing = p.list_dir("/").unwrap();
    assert_eq!(listing, vec![String::from("/data/a.txt")]);
}
