use std::path::Path;

use remotefs::fs::Metadata;
use remotefs::File;
use remotefs_webdav::resource::{resource_to_file, resource_to_file_at, Entry, ResourceInfo, Timestamp};

fn resources() -> Vec<ResourceInfo> {
    vec![
        ResourceInfo {
            path: "/dir/".to_string(),
            name: "dir".to_string(),
            is_collection: true,
            content_length: None,
            modified_secs: None,
            creation_timestamp: None,
        },
        ResourceInfo {
            path: "/dir/file.txt".to_string(),
            name: "file.txt".to_string(),
            is_collection: false,
            content_length: Some(12),
            // Mon, 01 Jan 2024 00:00:00 GMT and 2024-01-01T00:00:00Z
            modified_secs: Some(1704067200),
            creation_timestamp: Some(1704067200),
        },
        ResourceInfo {
            path: "/".to_string(),
            name: "".to_string(),
            is_collection: true,
            content_length: None,
            modified_secs: None,
            creation_timestamp: None,
        },
    ]
}

fn file_of(entry: &Entry) -> File {
    File::new(entry.path.clone(), Metadata::default())
}

#[test]
fn collections_drop_the_trailing_slash_and_are_directories() {
    let dir = resource_to_file(&resources()[0]);
    assert_eq!(Path::new(&dir.path), Path::new("/dir"));
    assert_eq!(file_of(&dir).name(), "dir");
    assert!(dir.is_dir);
    assert_eq!(dir.size, None);
}

#[test]
fn files_copy_size_and_timestamps() {
    let file = resource_to_file(&resources()[1]);
    assert_eq!(Path::new(&file.path), Path::new("/dir/file.txt"));
    assert!(!file.is_dir);
    assert_eq!(file.size, Some(12));
    assert!(file.modified_secs.is_some());
    assert!(file.created.is_some());
    assert_eq!(file.created, Some(Timestamp { secs: 1704067200, nanos: 0 }));
}

#[test]
fn root_stays_root() {
    let root = resource_to_file(&resources()[2]);
    assert_eq!(Path::new(&root.path), Path::new("/"));
    assert!(root.is_dir);
}

#[test]
fn creation_dates_before_the_epoch_are_dropped() {
    let mut resource = resources()[1].clone();
    resource.creation_timestamp = Some(-1);
    assert_eq!(resource_to_file(&resource).created, None);
    resource.creation_timestamp = Some(0);
    assert_eq!(resource_to_file(&resource).created, Some(Timestamp { secs: 0, nanos: 0 }));
}

#[test]
fn the_requested_path_replaces_the_href() {
    let entry = resource_to_file_at(&resources()[0], "/d");
    assert_eq!(entry.path, "/d");
    assert!(entry.is_dir);
    let entry = resource_to_file_at(&resources()[1], "/x/y");
    assert_eq!(entry.path, "/x/y");
    assert_eq!(entry.size, Some(12));
}

#[test]
fn every_trailing_slash_of_a_collection_is_dropped() {
    let mut resource = resources()[0].clone();
    resource.path = "/a/b//".to_string();
    assert_eq!(resource_to_file(&resource).path, "/a/b");
}
