use remotefs_webdav::client::{
    canonical_path, exists_outcome, is_self_resource, is_self_resource_at, join_path,
    list_entries, range_header, read_body, read_failure, refuse_existing, refuse_non_empty,
    slice_body, stat_entry, ReadPlan, Session,
};
use remotefs_webdav::error::{ClientFailure, ErrorKind};
use remotefs_webdav::resource::ResourceInfo;

fn header(value: Option<String>) -> Option<http::HeaderValue> {
    value.map(|v| http::HeaderValue::from_str(&v).unwrap())
}

fn resource(path: &str, name: &str, is_collection: bool, size: Option<u64>) -> ResourceInfo {
    ResourceInfo {
        path: path.to_string(),
        name: name.to_string(),
        is_collection,
        content_length: size,
        modified_secs: None,
        creation_timestamp: None,
    }
}

fn connected(url: &str) -> Session {
    let mut session = Session::new(url);
    session.connect_url().unwrap();
    session.finish_connect(true).unwrap();
    session
}

#[test]
fn new_trims_the_trailing_slash_and_starts_disconnected() {
    let fs = Session::new("http://h/");
    assert_eq!(fs.url(), "http://h");
    assert!(!fs.is_connected());
    let other = Session::new("http://localhost:3080/");
    assert_eq!(other.url(), "http://localhost:3080");
}

#[test]
fn range_headers_cover_offsets_and_lengths() {
    assert_eq!(header(range_header(0, None)), None);
    assert_eq!(
        header(range_header(4, None)).unwrap(),
        http::HeaderValue::from_static("bytes=4-")
    );
    assert_eq!(
        header(range_header(0, Some(3))).unwrap(),
        http::HeaderValue::from_static("bytes=0-2")
    );
    assert_eq!(
        header(range_header(2, Some(2))).unwrap(),
        http::HeaderValue::from_static("bytes=2-3")
    );
    assert_eq!(
        header(range_header(u64::MAX, Some(2))).unwrap(),
        http::HeaderValue::from_static("bytes=18446744073709551615-")
    );
}

#[test]
fn slice_body_handles_zero_and_beyond_eof() {
    assert_eq!(slice_body(b"abcdef".to_vec(), 2, Some(2)), b"cd");
    assert_eq!(slice_body(b"abcdef".to_vec(), 100, None), b"");
    assert_eq!(slice_body(b"abcdef".to_vec(), 0, Some(0)), b"");
    assert_eq!(slice_body(b"abcdef".to_vec(), 4, Some(100)), b"ef");
    assert_eq!(slice_body(b"abcdef".to_vec(), 0, Some(0)), b"");
    assert_eq!(slice_body(b"abcdef".to_vec(), 0, None), b"abcdef");
}

#[test]
fn zero_lengths_and_overflowing_ends_use_open_ranges() {
    assert_eq!(range_header(5, Some(0)).unwrap(), "bytes=5-");
    assert_eq!(range_header(0, Some(0)).unwrap(), "bytes=0-");
    assert_eq!(range_header(10, Some(u64::MAX)).unwrap(), "bytes=10-");
    assert_eq!(range_header(1234567, Some(1)).unwrap(), "bytes=1234567-1234567");
}

#[test]
fn relative_paths_are_invalid_before_the_connection_is_checked() {
    let fs = Session::new("http://h/");
    assert_eq!(fs.url_for("a.txt", false).unwrap_err(), ErrorKind::InvalidPath);
    assert_eq!(fs.url_for("/a.txt", false).unwrap_err(), ErrorKind::NotConnected);
}

#[test]
fn connect_and_disconnect_track_state() {
    let mut fs = Session::new("http://h/");
    assert_eq!(fs.connect_url().unwrap(), "http://h/");
    assert_eq!(fs.finish_connect(false).unwrap_err(), ErrorKind::NoSuchFileOrDirectory);
    assert!(!fs.is_connected());
    fs.finish_connect(true).unwrap();
    assert!(fs.is_connected());
    assert_eq!(fs.connect_url().unwrap_err(), ErrorKind::AlreadyConnected);
    fs.disconnect().unwrap();
    assert!(!fs.is_connected());
    assert_eq!(fs.disconnect().unwrap_err(), ErrorKind::NotConnected);
    assert_eq!(fs.url(), "http://h");
}

#[test]
fn connected_sessions_resolve_urls() {
    let fs = connected("http://h/");
    assert_eq!(fs.url_for("/d", true).unwrap(), "http://h/d/");
    assert_eq!(fs.url_for("/d/f", false).unwrap(), "http://h/d/f");
    let (src, dest) = fs.transfer_urls("/d", "/e", true).unwrap();
    assert_eq!(src, "http://h/d/");
    assert_eq!(dest, "http://h/e/");
    let (src, dest) = fs.transfer_urls("/d/f", "/d/g", false).unwrap();
    assert_eq!(src, "http://h/d/f");
    assert_eq!(dest, "http://h/d/g");
    assert_eq!(fs.transfer_urls("/d", "e", false).unwrap_err(), ErrorKind::InvalidPath);
}

#[test]
fn stat_retries_redirects_as_collections() {
    let fs = connected("http://h/");
    assert_eq!(
        fs.stat_retry_url("/d", &ClientFailure::Status(301)).unwrap(),
        "http://h/d/"
    );
    assert_eq!(
        fs.stat_retry_url("/d", &ClientFailure::Status(500)).unwrap_err(),
        ErrorKind::ProtocolError
    );
    assert_eq!(
        fs.stat_retry_url("/d", &ClientFailure::Status(401)).unwrap_err(),
        ErrorKind::AuthenticationFailed
    );
}

#[test]
fn stat_and_exists_agree_on_missing_entries() {
    assert_eq!(
        stat_entry(None, "/missing").unwrap_err(),
        ErrorKind::NoSuchFileOrDirectory
    );
    assert_eq!(
        exists_outcome(Err(ErrorKind::NoSuchFileOrDirectory)).unwrap(),
        false
    );
    let file = resource("/d/f", "f", false, Some(6));
    let entry = stat_entry(Some(&file), "/d/f").unwrap();
    assert!(!entry.is_dir);
    assert_eq!(exists_outcome(Ok(())).unwrap(), true);
    assert_eq!(
        exists_outcome(Err(ErrorKind::ProtocolError)).unwrap_err(),
        ErrorKind::ProtocolError
    );
}

#[test]
fn stat_reports_the_requested_path() {
    let dir = resource("/d/", "d", true, None);
    let entry = stat_entry(Some(&dir), "/d").unwrap();
    assert!(entry.is_dir);
    assert_eq!(entry.path, "/d");
}

#[test]
fn list_dir_skips_the_collection_itself() {
    let listing = vec![resource("/d/", "d", true, None), resource("/d/f", "f", false, Some(1))];
    let entries = list_entries(&listing, "http://h/d/", "/d");
    assert_eq!(entries.len(), 1);
    assert_eq!(entries[0].path, "/d/f");
    assert!(!entries[0].is_dir);
    assert_eq!(entries[0].size, Some(1));
}

#[test]
fn list_dir_skips_the_collection_itself_with_a_trailing_slash() {
    let listing = vec![resource("/d/", "d", true, None), resource("/d/f", "f", false, Some(1))];
    let entries = list_entries(&listing, "http://h/d/", "/d/");
    assert_eq!(entries.len(), 1);
    assert_eq!(entries[0].path, "/d/f");
}

#[test]
fn list_dir_returns_paths_in_the_client_namespace() {
    let listing = vec![
        resource("/dav/files/user/d/", "d", true, None),
        resource("/dav/files/user/d/hello%20world", "hello world", false, Some(1)),
    ];
    let entries = list_entries(&listing, "http://h/dav/files/user/d/", "/d");
    assert_eq!(entries.len(), 1);
    assert_eq!(entries[0].path, "/d/hello world");
}

#[test]
fn self_resources_match_relative_and_dot_hrefs() {
    for href in ["", ".", "./", "/d", "/d/", "/d//"] {
        let dir = resource(href, "d", true, None);
        assert!(is_self_resource(&dir, "http://h/d/", "/d"), "href: {href:?}");
    }
    let child = resource("sub/", "sub", true, None);
    assert!(!is_self_resource(&child, "http://h/d/", "/d"));
    let file = resource("/d/", "d", false, None);
    assert!(!is_self_resource(&file, "http://h/d/", "/d"));
    let dir = resource("/x/", "x", true, None);
    assert!(!is_self_resource_at(&dir, None, "/d"));
    assert!(is_self_resource_at(&dir, Some("/x"), "/d"));
}

#[test]
fn canonical_paths_drop_trailing_slashes() {
    assert_eq!(canonical_path("/a/b//"), "/a/b");
    assert_eq!(canonical_path("///"), "/");
    assert_eq!(canonical_path(""), "/");
    assert_eq!(canonical_path(&canonical_path("/a/")), "/a");
}

#[test]
fn join_path_follows_path_joining() {
    assert_eq!(join_path("/d", "f"), "/d/f");
    assert_eq!(join_path("/d/", "f"), "/d/f");
    assert_eq!(join_path("", "f"), "f");
    assert_eq!(join_path("/d", "/abs"), "/abs");
    assert_eq!(join_path("/d", ""), "/d/");
}

#[test]
fn open_plans_ranges_and_zero_length_probes() {
    let fs = connected("http://h/");
    match fs.read_plan("/d/f", Some(2), Some(2)).unwrap() {
        ReadPlan::Fetch { url, offset, range } => {
            assert_eq!(url, "http://h/d/f");
            assert_eq!(offset, 2);
            assert_eq!(range.unwrap(), "bytes=2-3");
        }
        ReadPlan::Probe => panic!("expected a fetch"),
    }
    match fs.read_plan("/d/f", None, None).unwrap() {
        ReadPlan::Fetch { offset, range, .. } => {
            assert_eq!(offset, 0);
            assert!(range.is_none());
        }
        ReadPlan::Probe => panic!("expected a fetch"),
    }
    assert!(matches!(
        fs.read_plan("/d/f", Some(2), Some(0)).unwrap(),
        ReadPlan::Probe
    ));
    assert!(matches!(
        fs.read_plan("d/f", None, None),
        Err(ErrorKind::InvalidPath)
    ));
}

#[test]
fn open_slices_locally_when_the_server_ignores_the_range() {
    assert_eq!(read_body(200, b"abcdef".to_vec(), 2, Some(2)), b"cd");
    assert_eq!(read_body(200, b"abcdef".to_vec(), 4, None), b"ef");
    assert_eq!(read_body(206, b"cd".to_vec(), 2, Some(2)), b"cd");
}

#[test]
fn open_beyond_eof_is_empty_and_other_failures_are_errors() {
    assert!(read_failure(&ClientFailure::Status(416)).unwrap().is_empty());
    assert_eq!(
        read_failure(&ClientFailure::Status(404)).unwrap_err(),
        ErrorKind::NoSuchFileOrDirectory
    );
}

#[test]
fn create_and_remove_dir_checks() {
    assert_eq!(refuse_existing(true).unwrap_err(), ErrorKind::AlreadyExists);
    assert!(refuse_existing(false).is_ok());
    assert_eq!(refuse_non_empty(1).unwrap_err(), ErrorKind::DirectoryNotEmpty);
    assert!(refuse_non_empty(0).is_ok());
}

#[test]
fn unsupported_operations_validate_the_path_first() {
    let fs = connected("http://h/");
    assert_eq!(fs.unsupported_on("relative"), ErrorKind::InvalidPath);
    assert_eq!(fs.unsupported_on("/d/f"), ErrorKind::UnsupportedFeature);
    assert_eq!(fs.unsupported_link("/d/l", "/d/f"), ErrorKind::UnsupportedFeature);
    assert_eq!(fs.unsupported_link("/d/l", "f"), ErrorKind::InvalidPath);
    let disconnected = Session::new("http://h");
    assert_eq!(disconnected.unsupported_on("/d/f"), ErrorKind::NotConnected);
}

#[test]
fn rename_and_copy_resolve_both_urls_in_the_same_form() {
    let fs = connected("http://h/base");
    assert_eq!(
        fs.transfer_urls("/d/a b", "/e/c", false).unwrap(),
        ("http://h/base/d/a%20b".to_string(), "http://h/base/e/c".to_string())
    );
    assert_eq!(
        fs.transfer_urls("/d", "/e", true).unwrap(),
        ("http://h/base/d/".to_string(), "http://h/base/e/".to_string())
    );
    assert_eq!(fs.transfer_urls("/d", "e", true).unwrap_err(), ErrorKind::InvalidPath);
    assert_eq!(fs.transfer_urls("d", "/e", true).unwrap_err(), ErrorKind::InvalidPath);
    let disconnected = Session::new("http://h");
    assert_eq!(disconnected.transfer_urls("/d", "/e", false).unwrap_err(), ErrorKind::NotConnected);
}
