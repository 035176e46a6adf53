use remotefs_webdav::error::{error_kind, status_kind, ClientFailure, ErrorKind, TransportKind};

#[test]
fn http_statuses_map_to_remote_kinds() {
    let cases = [
        (http::StatusCode::UNAUTHORIZED, ErrorKind::AuthenticationFailed),
        (http::StatusCode::FORBIDDEN, ErrorKind::PermissionDenied),
        (http::StatusCode::LOCKED, ErrorKind::PermissionDenied),
        (http::StatusCode::NOT_FOUND, ErrorKind::NoSuchFileOrDirectory),
        (http::StatusCode::GONE, ErrorKind::NoSuchFileOrDirectory),
        (http::StatusCode::CONFLICT, ErrorKind::NoSuchFileOrDirectory),
        (http::StatusCode::METHOD_NOT_ALLOWED, ErrorKind::AlreadyExists),
        (http::StatusCode::PRECONDITION_FAILED, ErrorKind::AlreadyExists),
        (http::StatusCode::INSUFFICIENT_STORAGE, ErrorKind::IoError),
        (http::StatusCode::INTERNAL_SERVER_ERROR, ErrorKind::ProtocolError),
        (http::StatusCode::MOVED_PERMANENTLY, ErrorKind::ProtocolError),
    ];
    for (code, expected) in cases {
        assert_eq!(status_kind(code.as_u16()), expected, "status: {code}");
        assert_eq!(
            error_kind(&ClientFailure::Status(code.as_u16())),
            expected,
            "status: {code}"
        );
    }
}

#[test]
fn transport_failures_are_connection_or_io_errors() {
    let connect = ClientFailure::Transport(TransportKind::Connect);
    assert_eq!(error_kind(&connect), ErrorKind::ConnectionError);
    let timeout = ClientFailure::Transport(TransportKind::Timeout);
    assert_eq!(error_kind(&timeout), ErrorKind::ConnectionError);
    let io = ClientFailure::Transport(TransportKind::Io);
    assert_eq!(error_kind(&io), ErrorKind::IoError);
}

#[test]
fn invalid_urls_are_invalid_paths_and_the_rest_is_protocol() {
    assert_eq!(error_kind(&ClientFailure::InvalidUrl), ErrorKind::InvalidPath);
    assert_eq!(error_kind(&ClientFailure::Other), ErrorKind::ProtocolError);
}

#[test]
fn multistatus_failures_use_their_first_http_status() {
    assert_eq!(
        error_kind(&ClientFailure::Multistatus(Some(423))),
        ErrorKind::PermissionDenied
    );
    assert_eq!(
        error_kind(&ClientFailure::Multistatus(None)),
        ErrorKind::ProtocolError
    );
}

#[test]
fn other_transport_failures_are_connection_errors() {
    assert_eq!(
        error_kind(&ClientFailure::Transport(TransportKind::Other)),
        ErrorKind::ConnectionError
    );
    assert_eq!(status_kind(200), ErrorKind::ProtocolError);
    assert_eq!(status_kind(0), ErrorKind::ProtocolError);
}
