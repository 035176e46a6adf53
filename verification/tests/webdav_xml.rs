use remotefs_webdav::webdav_xml::elements::multistatus::Multistatus;
use remotefs_webdav::webdav_xml::elements::prop::Properties;
use remotefs_webdav::webdav_xml::elements::response::{parse_status_line, Href, Response, Status};
use remotefs_webdav::webdav_xml::properties::{parse_u64, ContentLength, CreationDate, LastModified};
use std::collections::VecDeque;

use remotefs_webdav::webdav_xml::read::{from_xml, read_events, read_xml, Resolution, XmlEvent, XmlStep};
use remotefs_webdav::webdav_xml::value::{ElementName, Value, ValueMap};
use remotefs_webdav::webdav_xml::{FromValue, XmlError};

/// A compact rendering of a value: `{ns}name=...` entries, lists in brackets.
fn show(v: &Value) -> String {
    match v {
        Value::Empty => "()".to_string(),
        Value::Text(t) => format!("{:?}", t),
        Value::List(vs) => format!("[{}]", vs.iter().map(show).collect::<Vec<_>>().join(", ")),
        Value::Elements(m) => format!(
            "{{{}}}",
            m.entries
                .iter()
                .map(|(k, v)| format!(
                    "{}{}={}",
                    k.namespace.as_ref().map(|n| format!("{{{}}}", n)).unwrap_or_default(),
                    k.local_name,
                    show(v)
                ))
                .collect::<Vec<_>>()
                .join(", ")
        ),
    }
}

fn read(xml: &str) -> Result<String, XmlError> {
    read_xml(xml.as_bytes()).map(|v| show(&v))
}

#[test]
fn elements_are_grouped_by_name_in_document_order() {
    assert_eq!(
        read(r#"<a xmlns="DAV:"><b>text</b><c/><d><e/></d><c>x</c></a>"#).unwrap(),
        r#"{{DAV:}a={{DAV:}b="text", {DAV:}c=[(), "x"], {DAV:}d={{DAV:}e=()}}}"#
    );
}

#[test]
fn prefixes_resolve_to_namespaces_and_unbound_names_keep_their_prefix() {
    assert_eq!(
        read(r#"<D:a xmlns:D="DAV:" xmlns:x="urn:x"><x:b/><c/></D:a>"#).unwrap(),
        r#"{{DAV:}a={{urn:x}b=(), c=()}}"#
    );
    assert_eq!(read(r#"<p:a/>"#).unwrap(), r#"{p:a=()}"#);
}

#[test]
fn white_space_between_elements_is_skipped() {
    assert_eq!(read("<a>\n  <b/>\t\r\n</a>\n").unwrap(), "{a={b=()}}");
    assert_eq!(read("<a>   </a>").unwrap(), "{a={}}");
}

#[test]
fn text_resolves_references_and_cdata() {
    assert_eq!(read("<a>x &lt; y&#33; &amp;&#x41;</a>").unwrap(), r#"{a="x < y! &A"}"#);
    assert_eq!(read("<a>x<![CDATA[<y>]]>z</a>").unwrap(), r#"{a="x<y>z"}"#);
    assert_eq!(read("<a>x<!-- note -->y</a>").unwrap(), r#"{a="xy"}"#);
    assert_eq!(read("<a> padded </a>").unwrap(), r#"{a=" padded "}"#);
}

#[test]
fn references_that_cannot_be_resolved_are_errors() {
    assert_eq!(read("<a>x&foo;</a>").unwrap_err(), XmlError::UnknownEntity);
    assert_eq!(read("<a>x&#0;</a>").unwrap_err(), XmlError::Xml);
}

#[test]
fn text_that_starts_with_a_reference_or_cdata_is_read_in_full() {
    assert_eq!(read("<a>&amp;b</a>").unwrap(), r#"{a="&b"}"#);
    assert_eq!(read("<a>&#38;&amp;</a>").unwrap(), r#"{a="&&"}"#);
    assert_eq!(read("<a><![CDATA[x]]></a>").unwrap(), r#"{a="x"}"#);
    assert_eq!(read("<a><![CDATA[<x>]]>&lt;y</a>").unwrap(), r#"{a="<x><y"}"#);
    assert_eq!(read("<a>&nope;b</a>").unwrap_err(), XmlError::UnknownEntity);
}

#[test]
fn white_space_before_a_reference_or_cdata_is_kept() {
    assert_eq!(read("<a> &amp;b</a>").unwrap(), r#"{a=" &b"}"#);
    assert_eq!(read("<a>\n  <![CDATA[x]]> </a>").unwrap(), r#"{a="\n  x "}"#);
    assert_eq!(read("<a> <b/> </a>").unwrap(), "{a={b=()}}");
    assert_eq!(
        fold(vec![
            start("DAV:", "D:a"),
            plain(XmlEvent::Text(" ".to_string())),
            plain(XmlEvent::GeneralRef("lt".to_string())),
            plain(XmlEvent::End("D:a".to_string())),
        ])
        .unwrap(),
        r#"{{DAV:}a=" <"}"#
    );
}

#[test]
fn content_that_cannot_stand_in_a_value_is_an_unexpected_tag() {
    assert_eq!(read("<a>x<b/></a>").unwrap_err(), XmlError::UnexpectedTag);
    assert_eq!(read("<a><b>").unwrap_err(), XmlError::UnexpectedTag);
}

#[test]
fn malformed_documents_are_xml_errors() {
    assert_eq!(read("<a></b>").unwrap_err(), XmlError::Xml);
    assert_eq!(read("<a").unwrap_err(), XmlError::Xml);
}

#[test]
fn documents_must_be_utf8() {
    assert_eq!(read_xml(&[b'<', b'a', b'>', 0xff, b'<', b'/', b'a', b'>']).unwrap_err(), XmlError::Utf8);
}

#[test]
fn elements_are_read_from_their_root() {
    let href: Href = from_xml(br#"<D:href xmlns:D="DAV:">/a</D:href>"#).unwrap();
    assert_eq!(href.0, "/a");
    assert_eq!(from_xml::<Href>(br#"<href>/a</href>"#).unwrap_err(), XmlError::MissingElement);
    assert_eq!(from_xml::<Href>(b"text").unwrap_err(), XmlError::InvalidValueType);
}

#[test]
fn properties_read_their_typed_values() {
    let props: Properties = from_xml(
        br#"<D:prop xmlns:D="DAV:">
            <D:getcontentlength>42</D:getcontentlength>
            <D:getlastmodified>Sat, 02 Mar 2024 15:44:46 GMT</D:getlastmodified>
            <D:creationdate>2024-03-02T15:44:46+01:00</D:creationdate>
        </D:prop>"#,
    )
    .unwrap();
    assert_eq!(props.getcontentlength(), Some(Some(Ok(ContentLength(42)))));
    assert_eq!(props.getlastmodified(), Some(Some(Ok(LastModified(1709394286)))));
    assert_eq!(
        props.creationdate(),
        Some(Some(Ok(CreationDate { unix_timestamp: 1709394286 - 3600, nanosecond: 0, offset_seconds: 3600 })))
    );

    let props: Properties = from_xml(
        br#"<D:prop xmlns:D="DAV:"><D:getcontentlength/><D:getlastmodified>yesterday</D:getlastmodified><D:creationdate><D:x/></D:creationdate></D:prop>"#,
    )
    .unwrap();
    assert_eq!(props.getcontentlength(), Some(None));
    assert_eq!(props.getlastmodified(), Some(Some(Err(XmlError::InvalidElement))));
    assert_eq!(props.creationdate(), Some(Some(Err(XmlError::InvalidValueType))));

    let props: Properties = from_xml(br#"<D:prop xmlns:D="DAV:"></D:prop>"#).unwrap();
    assert_eq!(props.getcontentlength(), None);
}

#[test]
fn content_lengths_are_unsigned_decimals() {
    assert_eq!(parse_u64("486"), Some(486));
    assert_eq!(parse_u64("+5"), Some(5));
    assert_eq!(parse_u64("007"), Some(7));
    assert_eq!(parse_u64("18446744073709551615"), Some(u64::MAX));
    assert_eq!(parse_u64("18446744073709551616"), None);
    assert_eq!(parse_u64("-1"), None);
    assert_eq!(parse_u64("+"), None);
    assert_eq!(parse_u64(""), None);
    assert_eq!(parse_u64("12a"), None);
    assert_eq!(parse_u64(" 1"), None);
}

#[test]
fn status_lines_give_their_code() {
    assert_eq!(parse_status_line("HTTP/1.1 200 OK"), Some(200));
    assert_eq!(parse_status_line("HTTP/1.1 404 Not Found"), Some(404));
    assert_eq!(parse_status_line("garbage"), None);
}

#[test]
fn multistatus_reads_both_kinds_of_response() {
    let ms: Multistatus = from_xml(
        br#"<D:multistatus xmlns:D="DAV:">
            <D:response><D:href>/a</D:href><D:propstat><D:prop><D:getetag>x</D:getetag></D:prop><D:status>HTTP/1.1 200 OK</D:status></D:propstat></D:response>
            <D:response><D:href>/b</D:href><D:href>/c</D:href><D:status>HTTP/1.1 423 Locked</D:status></D:response>
            <D:responsedescription>partly</D:responsedescription>
        </D:multistatus>"#,
    )
    .unwrap();
    assert_eq!(ms.response.len(), 2);
    match &ms.response[0] {
        Response::Propstat { href, propstat, .. } => {
            assert_eq!(href.0, "/a");
            assert_eq!(propstat.len(), 1);
            assert_eq!(propstat[0].status.code, 200);
        }
        other => panic!("unexpected {:?}", other),
    }
    match &ms.response[1] {
        Response::Status { href, status, .. } => {
            assert_eq!(href.len(), 2);
            assert_eq!(href[1].0, "/c");
            assert_eq!(status.code, 423);
        }
        other => panic!("unexpected {:?}", other),
    }
    assert_eq!(ms.responsedescription.unwrap().0, "partly");
}

const TWO_RESPONSES: &[u8] = br#"<D:multistatus xmlns:D="DAV:">
    <D:response><D:href>/a</D:href>
        <D:propstat><D:prop><D:getcontentlength>3</D:getcontentlength></D:prop><D:status>HTTP/1.1 200 OK</D:status></D:propstat>
        <D:propstat><D:prop><D:getetag/></D:prop><D:status>HTTP/1.1 404 Not Found</D:status><D:responsedescription>gone</D:responsedescription></D:propstat>
    </D:response>
    <D:response><D:href>/b</D:href><D:status>HTTP/1.1 423 Locked</D:status></D:response>
    <D:responsedescription>partly</D:responsedescription>
</D:multistatus>"#;

#[test]
fn written_multistatus_reads_back() {
    let original: Multistatus = from_xml(TWO_RESPONSES).unwrap();
    let written = Value::from(from_xml::<Multistatus>(TWO_RESPONSES).unwrap());
    let back = Multistatus::from_value(&written).unwrap();
    assert_eq!(format!("{:?}", back), format!("{:?}", original));
    assert_eq!(back.response.len(), 2);
}

#[test]
fn written_values_have_the_element_shapes() {
    assert_eq!(show(&Value::from(Status { code: 404 })), r#""HTTP/1.1 404""#);
    assert_eq!(show(&Value::from(Href("/x".to_string()))), r#""/x""#);
    let ms: Multistatus = from_xml(TWO_RESPONSES).unwrap();
    assert_eq!(
        show(&Value::from(ms)),
        [
            r#"{{DAV:}response=[{{DAV:}href="/a", {DAV:}propstat=["#,
            r#"{{DAV:}prop={{DAV:}getcontentlength="3"}, {DAV:}status="HTTP/1.1 200"}, "#,
            r#"{{DAV:}prop={{DAV:}getetag=()}, {DAV:}status="HTTP/1.1 404", {DAV:}responsedescription="gone"}]}, "#,
            r#"{{DAV:}href="/b", {DAV:}status="HTTP/1.1 423"}], {DAV:}responsedescription="partly"}"#,
        ]
        .concat()
    );
    let empty: Multistatus = from_xml(br#"<D:multistatus xmlns:D="DAV:"></D:multistatus>"#).unwrap();
    assert_eq!(show(&Value::from(empty)), "{{DAV:}response=()}");
}

#[test]
fn text_items_among_repeated_children_are_not_responses() {
    assert_eq!(
        from_xml::<Multistatus>(
            br#"<D:multistatus xmlns:D="DAV:"><D:responsedescription>a</D:responsedescription><D:responsedescription>b</D:responsedescription></D:multistatus>"#
        )
        .unwrap_err(),
        XmlError::InvalidValueType
    );
    let single: Multistatus = from_xml(
        br#"<D:multistatus xmlns:D="DAV:"><D:responsedescription>a</D:responsedescription></D:multistatus>"#,
    )
    .unwrap();
    assert_eq!(single.response.len(), 0);
}

fn start(ns: &str, name: &str) -> XmlStep {
    Ok((Resolution::Bound(ns.to_string()), XmlEvent::Start(name.to_string())))
}

fn plain(event: XmlEvent) -> XmlStep {
    Ok((Resolution::Unbound, event))
}

fn fold(steps: Vec<XmlStep>) -> Result<String, XmlError> {
    read_events(steps.into_iter().collect::<VecDeque<_>>()).map(|v| show(&v))
}

#[test]
fn steps_fold_into_values() {
    assert_eq!(
        fold(vec![
            start("DAV:", "D:a"),
            plain(XmlEvent::Empty("b".to_string())),
            plain(XmlEvent::Comment),
            plain(XmlEvent::Text(" \n".to_string())),
            start("urn:x", "x:c"),
            plain(XmlEvent::Text("t".to_string())),
            plain(XmlEvent::CData("<u>".to_string())),
            plain(XmlEvent::GeneralRef("#x41".to_string())),
            plain(XmlEvent::GeneralRef("amp".to_string())),
            plain(XmlEvent::End("x:c".to_string())),
            plain(XmlEvent::End("D:a".to_string())),
            plain(XmlEvent::Eof),
        ])
        .unwrap(),
        r#"{{DAV:}a={b=(), {urn:x}c="t<u>A&"}}"#
    );
    assert_eq!(fold(vec![]).unwrap(), "{}");
    assert_eq!(fold(vec![plain(XmlEvent::Eof), start("DAV:", "D:a")]).unwrap(), "{}");
}

#[test]
fn steps_that_do_not_close_their_elements_are_refused() {
    assert_eq!(fold(vec![start("DAV:", "D:a")]).unwrap_err(), XmlError::UnexpectedTag);
    assert_eq!(
        fold(vec![start("DAV:", "D:a"), plain(XmlEvent::End("D:b".to_string()))]).unwrap_err(),
        XmlError::UnexpectedTag
    );
    assert_eq!(
        fold(vec![start("DAV:", "D:a"), plain(XmlEvent::Eof)]).unwrap_err(),
        XmlError::UnexpectedTag
    );
    assert_eq!(fold(vec![start("", "p:a")]).unwrap_err(), XmlError::InvalidNamespace);
    assert_eq!(fold(vec![Err(XmlError::Xml)]).unwrap_err(), XmlError::Xml);
    assert_eq!(
        fold(vec![start("DAV:", "D:a"), plain(XmlEvent::Text("x".to_string())), plain(XmlEvent::Decl)])
            .unwrap_err(),
        XmlError::UnexpectedTag
    );
    assert_eq!(
        fold(vec![
            start("DAV:", "D:a"),
            plain(XmlEvent::GeneralRef("amp".to_string())),
            plain(XmlEvent::Text("b".to_string())),
            plain(XmlEvent::End("D:a".to_string())),
        ])
        .unwrap(),
        r#"{{DAV:}a="&b"}"#
    );
}

#[test]
fn renaming_bound_prefixes_reads_the_same_value() {
    let a = read(r#"<D:a xmlns:D="DAV:" xmlns:x="urn:x"><D:b>t</D:b><x:c/><D:b/></D:a>"#).unwrap();
    let b = read(r#"<dav:a xmlns:dav="DAV:" xmlns:y="urn:x"><dav:b>t</dav:b><y:c/><dav:b/></dav:a>"#)
        .unwrap();
    let c = read(r#"<a xmlns="DAV:" xmlns:z="urn:x"><b>t</b><z:c/><b/></a>"#).unwrap();
    assert_eq!(a, b);
    assert_eq!(a, c);
    assert_eq!(a, r#"{{DAV:}a={{DAV:}b=["t", ()], {urn:x}c=()}}"#);
}

fn name(local: &str) -> ElementName {
    ElementName { namespace: Some("DAV:".to_string()), local_name: local.to_string() }
}

#[test]
fn inserting_a_list_appends_its_values_flattened() {
    let mut map = ValueMap::new();
    map.insert_raw(name("href"), Value::Text("/a".to_string()));
    map.insert_raw(
        name("href"),
        Value::List(vec![
            Value::Text("/b".to_string()),
            Value::List(vec![Value::Text("/c".to_string()), Value::Empty]),
        ]),
    );
    map.insert_raw(name("other"), Value::List(vec![Value::List(vec![Value::Text("x".to_string())])]));
    assert_eq!(
        show(&Value::Elements(map)),
        r#"{{DAV:}href=["/a", "/b", "/c", ()], {DAV:}other="x"}"#
    );
}
