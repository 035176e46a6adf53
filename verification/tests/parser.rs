use std::path::PathBuf;

use remotefs_webdav::error::ErrorKind;
use remotefs_webdav::parser::ResponseParser;
use remotefs_webdav::resource::Timestamp;

#[test]
fn test_should_parse_dir_content() {
    let response = r#"
        <?xml version="1.0" encoding="utf-8"?>
        <D:multistatus xmlns:D="DAV:" xmlns:ns0="DAV:">
        <D:response xmlns:lp2="http://apache.org/dav/props/" xmlns:lp1="DAV:">
        <D:href>/ciao/</D:href>
        <D:propstat>
        <D:prop>
        <lp1:resourcetype><D:collection/></lp1:resourcetype>
        <lp1:creationdate>2024-03-02T15:44:46Z</lp1:creationdate>
        <lp1:getlastmodified>Sat, 02 Mar 2024 15:44:46 GMT</lp1:getlastmodified>
        <lp1:getetag>"1a-612af5f3d72b2"</lp1:getetag>
        <D:supportedlock>
        <D:lockentry>
        <D:lockscope><D:exclusive/></D:lockscope>
        <D:locktype><D:write/></D:locktype>
        </D:lockentry>
        <D:lockentry>
        <D:lockscope><D:shared/></D:lockscope>
        <D:locktype><D:write/></D:locktype>
        </D:lockentry>
        </D:supportedlock>
        <D:lockdiscovery/>
        <D:getcontenttype>httpd/unix-directory</D:getcontenttype>
        </D:prop>
        <D:status>HTTP/1.1 200 OK</D:status>
        </D:propstat>
        </D:response>
        <D:response xmlns:lp2="http://apache.org/dav/props/" xmlns:lp1="DAV:">
        <D:href>/ciao/pippo/</D:href>
        <D:propstat>
        <D:prop>
        <lp1:resourcetype><D:collection/></lp1:resourcetype>
        <lp1:creationdate>2024-03-02T15:40:53Z</lp1:creationdate>
        <lp1:getlastmodified>Sat, 02 Mar 2024 15:40:53 GMT</lp1:getlastmodified>
        <lp1:getetag>"0-612af5150498f"</lp1:getetag>
        <D:supportedlock>
        <D:lockentry>
        <D:lockscope><D:exclusive/></D:lockscope>
        <D:locktype><D:write/></D:locktype>
        </D:lockentry>
        <D:lockentry>
        <D:lockscope><D:shared/></D:lockscope>
        <D:locktype><D:write/></D:locktype>
        </D:lockentry>
        </D:supportedlock>
        <D:lockdiscovery/>
        <D:getcontenttype>httpd/unix-directory</D:getcontenttype>
        </D:prop>
        <D:status>HTTP/1.1 200 OK</D:status>
        </D:propstat>
        </D:response>
        <D:response xmlns:lp2="http://apache.org/dav/props/" xmlns:lp1="DAV:">
        <D:href>/ciao/build.rs</D:href>
        <D:propstat>
        <D:prop>
        <lp1:resourcetype/>
        <lp1:creationdate>2024-03-02T15:44:46Z</lp1:creationdate>
        <lp1:getcontentlength>486</lp1:getcontentlength>
        <lp1:getlastmodified>Sat, 02 Mar 2024 15:44:46 GMT</lp1:getlastmodified>
        <lp1:getetag>"1e6-612af5f3d72b2"</lp1:getetag>
        <lp2:executable>F</lp2:executable>
        <D:supportedlock>
        <D:lockentry>
        <D:lockscope><D:exclusive/></D:lockscope>
        <D:locktype><D:write/></D:locktype>
        </D:lockentry>
        <D:lockentry>
        <D:lockscope><D:shared/></D:lockscope>
        <D:locktype><D:write/></D:locktype>
        </D:lockentry>
        </D:supportedlock>
        <D:lockdiscovery/>
        <D:getcontenttype>application/rls-services+xml</D:getcontenttype>
        </D:prop>
        <D:status>HTTP/1.1 200 OK</D:status>
        </D:propstat>
        </D:response>
        </D:multistatus>
        
"#;

    let files = ResponseParser::parse_propfind(response.as_bytes()).unwrap();
    assert_eq!(files.len(), 3);
    let ciao_dir = &files[0];
    assert!(ciao_dir.is_dir);
    assert_eq!(PathBuf::from(&ciao_dir.path), PathBuf::from("/ciao/"));

    let pippo_dir = &files[1];
    assert!(pippo_dir.is_dir);
    assert_eq!(PathBuf::from(&pippo_dir.path), PathBuf::from("/ciao/pippo/"));

    let build_rs = &files[2];
    assert!(!build_rs.is_dir);
    assert_eq!(PathBuf::from(&build_rs.path), PathBuf::from("/ciao/build.rs"));
    assert_eq!(build_rs.size, Some(486));
}

#[test]
fn test_should_parse_href_with_entity_references() {
    let response = r#"<?xml version="1.0" encoding="utf-8"?>
        <D:multistatus xmlns:D="DAV:">
        <D:response>
        <D:href>/ciao/rock%20&amp;%20roll%20&#38;%20more.txt</D:href>
        <D:propstat>
        <D:prop>
        <D:resourcetype/>
        <D:getcontentlength>7</D:getcontentlength>
        </D:prop>
        <D:status>HTTP/1.1 200 OK</D:status>
        </D:propstat>
        </D:response>
        </D:multistatus>
"#;

    let files = ResponseParser::parse_propfind(response.as_bytes()).unwrap();
    assert_eq!(files.len(), 1);
    assert_eq!(
        PathBuf::from(&files[0].path),
        PathBuf::from("/ciao/rock%20&%20roll%20&%20more.txt")
    );
}

const LISTING: &str = r#"<?xml version="1.0" encoding="utf-8"?>
<D:multistatus xmlns:D="DAV:">
  <D:response>
    <D:href>/ciao/</D:href>
    <D:propstat>
      <D:prop>
        <D:resourcetype><D:collection/></D:resourcetype>
        <D:creationdate>2024-03-02T15:44:46Z</D:creationdate>
        <D:getlastmodified>Sat, 02 Mar 2024 15:40:53 GMT</D:getlastmodified>
      </D:prop>
      <D:status>HTTP/1.1 200 OK</D:status>
    </D:propstat>
  </D:response>
  <D:response>
    <D:href>/ciao/gone.txt</D:href>
    <D:status>HTTP/1.1 404 Not Found</D:status>
  </D:response>
  <D:response>
    <D:href>/ciao/notes.txt</D:href>
    <D:propstat>
      <D:prop>
        <D:getcontentlength>12</D:getcontentlength>
      </D:prop>
      <D:status>HTTP/1.1 200 OK</D:status>
    </D:propstat>
    <D:propstat>
      <D:prop>
        <D:getcontentlength/>
      </D:prop>
      <D:status>HTTP/1.1 404 Not Found</D:status>
    </D:propstat>
  </D:response>
</D:multistatus>
"#;

#[test]
fn listings_copy_timestamps_and_sizes() {
    let files = ResponseParser::parse_propfind(LISTING.as_bytes()).unwrap();
    assert_eq!(files.len(), 3);
    assert_eq!(files[0].path, "/ciao/");
    assert!(files[0].is_dir);
    assert_eq!(files[0].created, Some(Timestamp { secs: 1709394286, nanos: 0 }));
    assert_eq!(files[0].modified_secs, Some(1709394053));
    assert_eq!(files[0].size, None);
    assert_eq!(files[1].path, "/ciao/notes.txt");
    assert!(!files[1].is_dir);
    assert_eq!(files[1].size, Some(12));
    assert_eq!(files[1].modified_secs, None);
    assert_eq!(files[2].path, "/ciao/notes.txt");
    assert_eq!(files[2].size, None);
}

#[test]
fn status_only_responses_give_no_entry() {
    let xml = r#"<D:multistatus xmlns:D="DAV:"><D:response><D:href>/a</D:href><D:href>/b</D:href><D:status>HTTP/1.1 423 Locked</D:status></D:response></D:multistatus>"#;
    assert_eq!(ResponseParser::parse_propfind(xml.as_bytes()).unwrap().len(), 0);
}

#[test]
fn unreadable_answers_are_protocol_errors() {
    assert_eq!(ResponseParser::parse_propfind(b"<D:multistatus xmlns:D=\"DAV:\"></D:other>").unwrap_err(), ErrorKind::ProtocolError);
    assert_eq!(ResponseParser::parse_propfind(&[0xff, 0xfe, 0x00]).unwrap_err(), ErrorKind::ProtocolError);
    assert_eq!(
        ResponseParser::parse_propfind(br#"<D:propfind xmlns:D="DAV:"><D:allprop/></D:propfind>"#).unwrap_err(),
        ErrorKind::ProtocolError
    );
    assert_eq!(
        ResponseParser::parse_propfind(br#"<multistatus><response/></multistatus>"#).unwrap_err(),
        ErrorKind::ProtocolError
    );
}

#[test]
fn response_statuses_map_to_error_kinds() {
    let status = |code: u16| ResponseParser { status: code, body: Vec::new() }.status();
    assert_eq!(status(207), Ok(()));
    assert_eq!(status(200), Ok(()));
    assert_eq!(status(401), Err(ErrorKind::CouldNotOpenFile));
    assert_eq!(status(403), Err(ErrorKind::CouldNotOpenFile));
    assert_eq!(status(400), Err(ErrorKind::NoSuchFileOrDirectory));
    assert_eq!(status(404), Err(ErrorKind::NoSuchFileOrDirectory));
    assert_eq!(status(500), Err(ErrorKind::ProtocolError));
    assert_eq!(status(301), Err(ErrorKind::ProtocolError));
}

#[test]
fn files_report_the_status_before_reading_the_body() {
    let files = ResponseParser { status: 207, body: LISTING.as_bytes().to_vec() }.files().unwrap();
    assert_eq!(files.len(), 3);
    assert_eq!(files[0].path, "/ciao/");
    let missing = ResponseParser { status: 404, body: LISTING.as_bytes().to_vec() };
    assert_eq!(missing.files().unwrap_err(), ErrorKind::NoSuchFileOrDirectory);
    let denied = ResponseParser { status: 403, body: b"not xml".to_vec() };
    assert_eq!(denied.files().unwrap_err(), ErrorKind::CouldNotOpenFile);
    let garbled = ResponseParser { status: 207, body: b"<D:multistatus".to_vec() };
    assert_eq!(garbled.files().unwrap_err(), ErrorKind::ProtocolError);
}

#[test]
fn creation_dates_keep_the_full_instant() {
    let xml = br#"<D:multistatus xmlns:D="DAV:"><D:response><D:href>/old</D:href><D:propstat><D:prop>
        <D:creationdate>1969-12-31T23:59:58.25Z</D:creationdate>
        </D:prop><D:status>HTTP/1.1 200 OK</D:status></D:propstat></D:response>
        <D:response><D:href>/new</D:href><D:propstat><D:prop>
        <D:creationdate>2024-03-02T15:44:46.5+01:00</D:creationdate>
        </D:prop><D:status>HTTP/1.1 200 OK</D:status></D:propstat></D:response></D:multistatus>"#;
    let files = ResponseParser::parse_propfind(xml).unwrap();
    assert_eq!(files[0].created, Some(Timestamp { secs: -2, nanos: 250_000_000 }));
    assert_eq!(files[1].created, Some(Timestamp { secs: 1709394286 - 3600, nanos: 500_000_000 }));
}
