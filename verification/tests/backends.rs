use generic_filesystem::join_path;
use generic_filesystem::AwsS3FileProvider;
use generic_filesystem::FileEntry;
use generic_filesystem::FileProviderError;
use generic_filesystem::LocalFileProvider;

#[test]
fn join_path_normalizes_separators() {
    assert_eq!(join_path("/data", "/a.txt"), "/data/a.txt");
    assert_eq!(join_path("/data/", "a.txt"), "/data/a.txt");
    assert_eq!(join_path("/data", "a.txt"), "/data/a.txt");
    assert_eq!(join_path("/data///", "///a.txt"), "/data/a.txt");
    assert_eq!(join_path("", "a"), "/a");
}

#[test]
fn error_new_keeps_message() {
    let e = FileProviderError::new("boom");
    assert_eq!(e.message(), "boom");
}

#[test]
fn unsupported_error_names_operation() {
    let e = FileProviderError::unsupported("write");
    assert_eq!(e.message(), "Unsupported operation for this backend: write");
}

#[test]
fn local_resolves_against_base() {
    let p = LocalFileProvider::new(String::from("/data"));
    assert_eq!(p.get_base_path(), "/data");
    assert_eq!(p.resolve_path("/a.txt"), "/data/a.txt");
    assert_eq!(p.resolve_path("sub/b"), "/data/sub/b");
}

#[test]
fn local_list_dir_paths_fully_qualifies() {
    let p = LocalFileProvider::new(String::from("/data"));
    let entries = vec![
        FileEntry::new(String::from("a"), 1),
        FileEntry::new(String::from("b"), 2),
    ];
    let paths = p.list_dir_paths("/logs", &entries);
    assert_eq!(
        paths,
        vec![String::from("/data/logs/a"), String::from("/data/logs/b")]
    );
}

#[test]
fn local_create_dir_outcome_is_idempotent() {
    assert!(LocalFileProvider::create_dir_outcome(None, false).is_ok());
    assert!(LocalFileProvider::create_dir_outcome(Some(String::from("already exists")), true).is_ok());
    let err = LocalFileProvider::create_dir_outcome(Some(String::from("denied")), false).unwrap_err();
    assert_eq!(err.message(), "denied");
}

#[test]
fn local_open_failure_names_resolved_path() {
    let p = LocalFileProvider::new(String::from("/data"));
    let err = p.wrap_open_failure("/a.txt", "permission denied");
    assert_eq!(
        err.message(),
        "File opening error: permission denied, path: /data/a.txt"
    );
    assert!(err.message().contains("/data/a.txt"));
}

#[test]
fn s3_copy_source_is_bucket_slash_key() {
    let p = AwsS3FileProvider::new(String::from("src-bucket"));
    assert_eq!(p.get_base_path(), "src-bucket");
    assert_eq!(p.copy_source("file.txt"), "src-bucket/file.txt");
}

#[test]
fn s3_move_plan_splits_destination() {
    let p = AwsS3FileProvider::new(String::from("src-bucket"));
    let (source, dest_bucket, dest_key) = p.move_plan("file.txt", "dest-bucket/ignored/rest").unwrap();
    assert_eq!(source, "src-bucket/file.txt");
    assert_eq!(dest_bucket, "dest-bucket");
    assert_eq!(dest_key, "file.txt");
}

#[test]
fn s3_move_plan_rejects_destination_without_separator() {
    let p = AwsS3FileProvider::new(String::from("src-bucket"));
    let err = p.move_plan("file.txt", "nodest").unwrap_err();
    assert!(err.message().contains("nodest"));
    assert_eq!(
        err.message(),
        "Invalid destination, expected bucket/path: nodest"
    );
}

#[test]
fn s3_list_dir_paths_prefixes_bucket() {
    let p = AwsS3FileProvider::new(String::from("bkt"));
    let entries = vec![
        FileEntry::new(String::from("k1"), 1),
        FileEntry::new(String::from("deep/k2"), 2),
    ];
    let paths = p.list_dir_paths(&entries);
    assert_eq!(paths, vec![String::from("bkt/k1"), String::from("bkt/deep/k2")]);
}

#[test]
fn s3_missing_listing_is_empty() {
    assert!(AwsS3FileProvider::normalize_listing(None).is_empty());
    let entries = vec![FileEntry::new(String::from("k"), 3)];
    let kept = AwsS3FileProvider::normalize_listing(Some(entries));
    assert_eq!(kept.len(), 1);
    assert_eq!(kept[0].name, "k");
    assert_eq!(kept[0].size, 3);
}

#[test]
fn s3_entry_from_object_handles_missing_fields() {
    let e = AwsS3FileProvider::entry_from_object(Some(String::from("k")), Some(7)).unwrap();
    assert_eq!(e.name, "k");
    assert_eq!(e.size, 7);
    let clamped = AwsS3FileProvider::entry_from_object(Some(String::from("k")), Some(-5)).unwrap();
    assert_eq!(clamped.size, 0);
    let missing = AwsS3FileProvider::entry_from_object(Some(String::from("k")), None).unwrap();
    assert_eq!(missing.size, 0);
    assert!(AwsS3FileProvider::entry_from_object(None, Some(7)).is_none());
}
