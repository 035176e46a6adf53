use remotefs_webdav::error::ErrorKind;
use remotefs_webdav::url::{encode_path, is_path_byte, resource_url};

const BASE: &str = "http://localhost:3080";

#[test]
fn joins_absolute_paths_to_the_base_url() {
    assert_eq!(
        resource_url(BASE, "/a.txt", false).unwrap(),
        "http://localhost:3080/a.txt"
    );
    assert_eq!(
        resource_url(BASE, "/", false).unwrap(),
        "http://localhost:3080/"
    );
    assert_eq!(
        resource_url(BASE, "/dir/a.txt", false).unwrap(),
        "http://localhost:3080/dir/a.txt"
    );
}

#[test]
fn collections_always_end_with_a_slash() {
    assert_eq!(
        resource_url(BASE, "/gabibbo", true).unwrap(),
        "http://localhost:3080/gabibbo/"
    );
    assert_eq!(
        resource_url(BASE, "/gabibbo/", true).unwrap(),
        "http://localhost:3080/gabibbo/"
    );
    assert_eq!(
        resource_url(BASE, "/", true).unwrap(),
        "http://localhost:3080/"
    );
}

#[test]
fn rejects_relative_and_non_posix_roots() {
    for input in ["", "a.txt", "dir/a.txt", r"C:\a.txt", r"\\server\share\a"] {
        let error = resource_url(BASE, input, false).unwrap_err();
        assert_eq!(error, ErrorKind::InvalidPath, "input: {input:?}");
    }
}

#[test]
fn escapes_path_components_before_joining_them_to_the_url() {
    assert_eq!(
        resource_url(BASE, "/a b?c#d%e", false).unwrap(),
        "http://localhost:3080/a%20b%3Fc%23d%25e"
    );
}

#[test]
fn rejects_dot_segments_that_could_escape_the_share() {
    for input in ["/../secret", "/a/../secret", "/./secret"] {
        let error = resource_url(BASE, input, false).unwrap_err();
        assert_eq!(error, ErrorKind::InvalidPath, "input: {input:?}");
    }
}

#[test]
fn dot_characters_inside_segments_are_kept() {
    assert_eq!(
        resource_url(BASE, "/a/.hidden/..x/b.", false).unwrap(),
        "http://localhost:3080/a/.hidden/..x/b."
    );
    assert_eq!(
        resource_url(BASE, "/a/..", true).unwrap_err(),
        ErrorKind::InvalidPath
    );
    assert_eq!(resource_url(BASE, "/a/.", false).unwrap_err(), ErrorKind::InvalidPath);
}

#[test]
fn multibyte_characters_are_encoded_byte_by_byte() {
    assert_eq!(encode_path("/é"), "/%C3%A9");
    assert_eq!(encode_path("/ü/x"), "/%C3%BC/x");
    assert_eq!(encode_path("/a~b-c_d.e"), "/a~b-c_d.e");
    assert_eq!(encode_path("/100%"), "/100%25");
}

#[test]
fn path_bytes_are_the_unreserved_and_sub_delimiter_characters() {
    for byte in b"azAZ09-._~!$&'()*+,;=:@" {
        assert!(is_path_byte(*byte), "{}", *byte as char);
    }
    for byte in b" /?#%[]\"<>\\^`{|}" {
        assert!(!is_path_byte(*byte), "{}", *byte as char);
    }
    assert!(!is_path_byte(0x80));
    assert!(!is_path_byte(0xff));
}

#[test]
fn distinct_paths_give_distinct_urls() {
    let a = resource_url(BASE, "/a%20b", false).unwrap();
    let b = resource_url(BASE, "/a b", false).unwrap();
    assert_ne!(a, b);
    assert_eq!(a, "http://localhost:3080/a%2520b");
}

#[test]
fn encoding_adds_two_characters_per_escaped_byte() {
    for path in ["/a b", "/é/ü", "/plain/path", "/100% sure?"] {
        let escaped = path.bytes().filter(|b| *b != b'/' && !is_path_byte(*b)).count();
        let encoded = encode_path(path);
        assert_eq!(encoded.len(), path.len() + 2 * escaped, "{}", path);
        assert_eq!(encoded == path, escaped == 0, "{}", path);
        let chars: Vec<char> = encoded.chars().collect();
        for (i, c) in chars.iter().enumerate() {
            if *c == '%' {
                assert!(chars[i + 1].is_ascii_hexdigit() && !chars[i + 1].is_ascii_lowercase());
                assert!(chars[i + 2].is_ascii_hexdigit() && !chars[i + 2].is_ascii_lowercase());
            } else {
                assert!(*c == '/' || is_path_byte(*c as u8));
            }
        }
    }
}
