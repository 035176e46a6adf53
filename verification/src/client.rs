//! The decisions of the WebDAV file system client: the session state, the
//! URLs each operation targets, the `Range` header of a read, the local
//! trimming of a body, and which entries of a listing are kept.

use vstd::prelude::*;
use vstd::string::StringSliceAdditionalSpecFns;

use crate::error::{error_kind, is_redirection, spec_error_kind, ClientFailure, ErrorKind};
use crate::resource::{is_entry_of, resource_to_file_at, Entry, ResourceInfo};
use crate::text::{
    lemma_trim_trailing_slashes, chars_eq, chars_of, concat, decimal, push_all, push_decimal, string_of, trim_trailing_slashes,
    trimmed_len,
};
use crate::url::{encode_bytes, is_valid_remote_path, resource_url, spec_resource_url};

verus! {

// ---------------------------------------------------------------------
// Paths

/// `path` without trailing slashes, or `/` when nothing else is left.
pub open spec fn spec_canonical_path(path: Seq<char>) -> Seq<char> {
    let t = trim_trailing_slashes(path);
    if t.len() == 0 {
        seq!['/']
    } else {
        t
    }
}

fn canonical_chars(path: &[char]) -> (c: Vec<char>)
    ensures
        c@ == spec_canonical_path(path@),
{
    let n = trimmed_len(path);
    if n == 0 {
        let mut c: Vec<char> = Vec::new();
        c.push('/');
        c
    } else {
        let mut c: Vec<char> = Vec::new();
        push_all(&mut c, &path[0..n]);
        c
    }
}

/// The canonical form of a path, used to compare paths that differ only
/// in trailing slashes: trailing slashes are dropped and an empty result
/// becomes `/`.
pub fn canonical_path(path: &str) -> (c: String)
    ensures
        c@ == spec_canonical_path(path@),
{
    let chars = chars_of(path);
    let c = canonical_chars(chars.as_slice());
    string_of(c.as_slice())
}

/// The path an href points at, resolved against the request's URI path.
pub open spec fn spec_resolved_href(href: Seq<char>, uri_path: Seq<char>) -> Seq<char> {
    if href.len() == 0 || href == seq!['.'] || href == seq!['.', '/'] {
        uri_path
    } else if href[0] == '/' {
        href
    } else {
        uri_path + href
    }
}

/// Whether a listed resource is the listed collection itself.
pub open spec fn spec_is_self_resource(
    is_collection: bool,
    href: Seq<char>,
    requested: Seq<char>,
    uri_path: Option<Seq<char>>,
) -> bool {
    if !is_collection {
        false
    } else if spec_canonical_path(href) == spec_canonical_path(requested) {
        true
    } else {
        match uri_path {
            None => false,
            Some(up) => {
                ||| spec_canonical_path(href) == spec_canonical_path(up)
                ||| spec_canonical_path(spec_resolved_href(href, up)) == spec_canonical_path(up)
            },
        }
    }
}

/// The path component of the URI `text` as `http::Uri` parses it, or
/// `None` when it is not a valid URI.
pub uninterp spec fn parsed_uri_path(text: Seq<char>) -> Option<Seq<char>>;

/// `<http::Uri as FromStr>::from_str` followed by `http::Uri::path`: the path
/// component of `text` when it parses as a URI, `None` otherwise. The
/// result depends on `text` alone; what the path is for a given text is not
/// stated here.
#[verifier::external_body]
fn uri_path(text: &str) -> (path: Option<String>)
    ensures
        path is Some <==> parsed_uri_path(text@) is Some,
        path matches Some(p) ==> p@ == parsed_uri_path(text@)->0,
{
    match text.parse::<http::Uri>() {
        Ok(uri) => Some(uri.path().to_string()),
        Err(_) => None,
    }
}

/// Whether `resource`, listed for `requested_path`, is that collection
/// itself, given the path component of the request URL (`None` when the
/// request URL is not a valid URI).
///
/// Only collections qualify. The href matches when its canonical form
/// equals that of the requested path or of the request's URI path, or when
/// the href, resolved against the URI path (empty, `.` and `./` name the
/// URI path itself, relative hrefs are appended to it), does.
pub fn is_self_resource_at(
    resource: &ResourceInfo,
    request_uri_path: Option<&str>,
    requested_path: &str,
) -> (r: bool)
    ensures
        r == spec_is_self_resource(
            resource.is_collection,
            resource.path@,
            requested_path@,
            match request_uri_path {
                Some(p) => Some(p@),
                None => None,
            },
        ),
{
    if !resource.is_collection {
        return false;
    }
    let href = chars_of(resource.path.as_str());
    let href_canonical = canonical_chars(href.as_slice());
    let requested = chars_of(requested_path);
    let requested_canonical = canonical_chars(requested.as_slice());
    if chars_eq(href_canonical.as_slice(), requested_canonical.as_slice()) {
        return true;
    }
    let up = match request_uri_path {
        Some(p) => chars_of(p),
        None => {
            return false;
        },
    };
    let up_canonical = canonical_chars(up.as_slice());
    if chars_eq(href_canonical.as_slice(), up_canonical.as_slice()) {
        return true;
    }
    let n = href.len();
    let resolved = if n == 0 || (n == 1 && href[0] == '.') || (n == 2 && href[0] == '.' && href[1]
        == '/') {
        assert(n == 1 && href[0] == '.' ==> href@ == seq!['.']);
        assert(n == 2 && href[0] == '.' && href[1] == '/' ==> href@ == seq!['.', '/']);
        up.clone()
    } else if href[0] == '/' {
        href.clone()
    } else {
        concat(up.as_slice(), href.as_slice())
    };
    proof {
        if n == 1 && href@ == seq!['.'] {
            assert(href@[0] == '.');
        }
        if n == 2 && href@ == seq!['.', '/'] {
            assert(href@[0] == '.' && href@[1] == '/');
        }
    }
    let resolved_canonical = canonical_chars(resolved.as_slice());
    chars_eq(resolved_canonical.as_slice(), up_canonical.as_slice())
}

/// Whether `resource`, listed from `request_url` for `requested_path`, is
/// that collection itself. See [`is_self_resource_at`].
pub fn is_self_resource(resource: &ResourceInfo, request_url: &str, requested_path: &str) -> (r:
    bool)
    ensures
        r == spec_is_self_resource(
            resource.is_collection,
            resource.path@,
            requested_path@,
            parsed_uri_path(request_url@),
        ),
{
    let up = uri_path(request_url);
    match up {
        Some(p) => is_self_resource_at(resource, Some(p.as_str()), requested_path),
        None => is_self_resource_at(resource, None, requested_path),
    }
}

/// `name` joined to `base` as a path: an absolute name replaces the base,
/// otherwise a `/` is put between them unless the base is empty or already
/// ends with one.
pub open spec fn spec_join_path(base: Seq<char>, name: Seq<char>) -> Seq<char> {
    if name.len() > 0 && name[0] == '/' {
        name
    } else if base.len() > 0 && base.last() != '/' {
        base + seq!['/'] + name
    } else {
        base + name
    }
}

/// Joins `name` to the path `base`, as `Path::join` does with `/`.
pub fn join_path(base: &str, name: &str) -> (joined: String)
    ensures
        joined@ == spec_join_path(base@, name@),
{
    let b = chars_of(base);
    let n = chars_of(name);
    if n.len() > 0 && n[0] == '/' {
        return string_of(n.as_slice());
    }
    let mut out: Vec<char> = Vec::new();
    push_all(&mut out, b.as_slice());
    if b.len() > 0 && b[b.len() - 1] != '/' {
        out.push('/');
    }
    push_all(&mut out, n.as_slice());
    string_of(out.as_slice())
}

/// The resources of a listing that are not the listed collection itself.
pub open spec fn spec_listed_children(
    resources: Seq<ResourceInfo>,
    requested: Seq<char>,
    uri_path: Option<Seq<char>>,
) -> Seq<ResourceInfo> {
    resources.filter(
        |r: ResourceInfo| !spec_is_self_resource(r.is_collection, r.path@, requested, uri_path),
    )
}

/// The entries of a listing of `path` requested at `request_url`: every
/// resource but the collection itself, in order, each placed at `path`
/// joined with its name.
pub fn list_entries(resources: &Vec<ResourceInfo>, request_url: &str, path: &str) -> (entries: Vec<
    Entry,
>)
    ensures
        ({
            let kept = spec_listed_children(resources@, path@, parsed_uri_path(request_url@));
            &&& entries@.len() == kept.len()
            &&& forall|i: int|
                0 <= i < kept.len() ==> is_entry_of(
                    #[trigger] entries@[i],
                    kept[i],
                    spec_join_path(path@, kept[i].name@),
                )
        }),
{
    let ghost up = parsed_uri_path(request_url@);
    let ghost pred = |r: ResourceInfo|
        !spec_is_self_resource(r.is_collection, r.path@, path@, up);
    let mut entries: Vec<Entry> = Vec::new();
    let ghost mut kept: Seq<ResourceInfo> = Seq::empty();
    let n = resources.len();
    assert(resources@.take(0).filter(pred) == Seq::<ResourceInfo>::empty());
    for i in 0..n
        invariant
            n == resources@.len(),
            up == parsed_uri_path(request_url@),
            pred == (|r: ResourceInfo|
                !spec_is_self_resource(r.is_collection, r.path@, path@, up)),
            kept == resources@.take(i as int).filter(pred),
            entries@.len() == kept.len(),
            forall|j: int|
                0 <= j < kept.len() ==> is_entry_of(
                    #[trigger] entries@[j],
                    kept[j],
                    spec_join_path(path@, kept[j].name@),
                ),
    {
        let resource = &resources[i];
        let is_self = is_self_resource(resource, request_url, path);
        assert(resources@.take(i + 1).drop_last() == resources@.take(i as int));
        reveal_with_fuel(Seq::filter, 1);
        if !is_self {
            let joined = join_path(path, resource.name.as_str());
            let entry = resource_to_file_at(resource, joined.as_str());
            entries.push(entry);
            proof {
                kept = kept.push(resources@[i as int]);
            }
        }
    }
    assert(resources@.take(n as int) == resources@);
    entries
}

// ---------------------------------------------------------------------
// Ranged reads

/// `bytes=`
pub open spec fn bytes_prefix() -> Seq<char> {
    seq!['b', 'y', 't', 'e', 's', '=']
}

/// The last byte a ranged read of `length` bytes from `offset` asks for,
/// when that position exists in 64 bits.
pub open spec fn spec_range_end(offset: u64, length: Option<u64>) -> Option<int> {
    match length {
        Some(l) => if 1 <= offset + l <= u64::MAX {
            Some(offset + l - 1)
        } else {
            None
        },
        None => None,
    }
}

/// The `Range` header value of a read, or `None` when the whole body is
/// wanted.
pub open spec fn spec_range_header(offset: u64, length: Option<u64>) -> Option<Seq<char>> {
    if offset == 0 && length is None {
        None
    } else {
        match spec_range_end(offset, length) {
            Some(end) => if end >= offset {
                Some(bytes_prefix() + decimal(offset as nat) + seq!['-'] + decimal(end as nat))
            } else {
                Some(bytes_prefix() + decimal(offset as nat) + seq!['-'])
            },
            None => Some(bytes_prefix() + decimal(offset as nat) + seq!['-']),
        }
    }
}

/// Builds the `Range` header for `offset` and `length`, or `None` when the
/// whole body is requested.
///
/// A length whose end position would overflow, or a zero length, falls
/// back to an open range; the body is then trimmed locally by
/// [`slice_body`].
pub fn range_header(offset: u64, length: Option<u64>) -> (header: Option<String>)
    ensures
        header matches Some(h) ==> spec_range_header(offset, length) == Some(h@),
        header is None ==> spec_range_header(offset, length) is None,
{
    let end: Option<u64> = match length {
        Some(l) => if l <= u64::MAX - offset && offset + l >= 1 {
            Some(offset + l - 1)
        } else {
            None
        },
        None => None,
    };
    if offset == 0 && length.is_none() {
        return None;
    }
    let mut out: Vec<char> = Vec::new();
    out.push('b');
    out.push('y');
    out.push('t');
    out.push('e');
    out.push('s');
    out.push('=');
    push_decimal(&mut out, offset);
    out.push('-');
    match end {
        Some(e) => if e >= offset {
            push_decimal(&mut out, e);
        },
        None => {},
    }
    Some(string_of(out.as_slice()))
}

/// The part of a body the server returned in full that a read of `length`
/// bytes from `offset` wants.
pub open spec fn spec_slice_body(body: Seq<u8>, offset: u64, length: Option<u64>) -> Seq<u8> {
    let start = if offset < body.len() {
        offset as int
    } else {
        body.len() as int
    };
    let rest = body.skip(start);
    match length {
        None => rest,
        Some(l) => if l < rest.len() {
            rest.take(l as int)
        } else {
            rest
        },
    }
}

/// Applies `offset` and `length` to a body the server returned in full:
/// the bytes before `offset` are dropped and at most `length` bytes are
/// kept, both clamped to the body.
pub fn slice_body(body: Vec<u8>, offset: u64, length: Option<u64>) -> (sliced: Vec<u8>)
    ensures
        sliced@ == spec_slice_body(body@, offset, length),
{
    let ghost whole = body@;
    let mut body = body;
    let len = body.len();
    let start: usize = if offset < len as u64 {
        offset as usize
    } else {
        len
    };
    let mut rest = body.split_off(start);
    assert(rest@ == whole.skip(start as int)) by {
        assert(whole.subrange(start as int, len as int) == whole.skip(start as int));
    }
    match length {
        Some(l) => {
            if l < rest.len() as u64 {
                rest.truncate(l as usize);
            }
        },
        None => {},
    }
    rest
}

// ---------------------------------------------------------------------
// Session

/// The abstract state of a session: the base URL of the share and whether
/// the session is connected.
pub struct SessionState {
    pub url: Seq<char>,
    pub connected: bool,
}

/// The state of a WebDAV file system client: the base URL of the share,
/// without a trailing slash, and whether it is connected.
pub struct Session {
    url: String,
    connected: bool,
}

impl View for Session {
    type V = SessionState;

    closed spec fn view(&self) -> SessionState {
        SessionState { url: self.url@, connected: self.connected }
    }
}

/// The URL a resource gets from a session, or the error that comes first:
/// an invalid path, then a missing connection.
pub open spec fn spec_url_for(st: SessionState, path: Seq<char>, path_bytes: Seq<u8>, collection: bool) -> Result<
    Seq<char>,
    ErrorKind,
> {
    if !is_valid_remote_path(path) {
        Err(ErrorKind::InvalidPath)
    } else if !st.connected {
        Err(ErrorKind::NotConnected)
    } else {
        Ok(spec_resource_url(st.url, path_bytes, collection))
    }
}

/// The session after the probe of `connect` found (or did not find) the
/// root of the share.
pub open spec fn spec_finish_connect(st: SessionState, found: bool) -> (SessionState, Result<
    (),
    ErrorKind,
>) {
    if found {
        (SessionState { url: st.url, connected: true }, Ok(()))
    } else {
        (st, Err(ErrorKind::NoSuchFileOrDirectory))
    }
}

/// The session after `disconnect`.
pub open spec fn spec_disconnect(st: SessionState) -> (SessionState, Result<(), ErrorKind>) {
    if st.connected {
        (SessionState { url: st.url, connected: false }, Ok(()))
    } else {
        (st, Err(ErrorKind::NotConnected))
    }
}

impl Session {
    /// A disconnected session for the share at `url`; trailing slashes of
    /// `url` are dropped.
    pub fn new(url: &str) -> (s: Session)
        ensures
            s@.url == trim_trailing_slashes(url@),
            !s@.connected,
    {
        let chars = chars_of(url);
        let n = trimmed_len(chars.as_slice());
        Session { url: string_of(&chars.as_slice()[0..n]), connected: false }
    }

    /// The base URL of the share, without a trailing slash.
    pub fn url(&self) -> (u: &str)
        ensures
            u@ == self@.url,
    {
        self.url.as_str()
    }

    /// Whether the session is connected.
    pub fn is_connected(&self) -> (c: bool)
        ensures
            c == self@.connected,
    {
        self.connected
    }

    /// `Ok` when connected, `NotConnected` otherwise.
    pub fn require_connected(&self) -> (r: Result<(), ErrorKind>)
        ensures
            r is Ok <==> self@.connected,
            r matches Err(k) ==> k == ErrorKind::NotConnected,
    {
        if self.connected {
            Ok(())
        } else {
            Err(ErrorKind::NotConnected)
        }
    }

    /// Resolves `path` and checks the connection.
    ///
    /// The path is validated first, so a relative path is always reported
    /// as `InvalidPath`, even on a disconnected session.
    pub fn url_for(&self, path: &str, collection: bool) -> (r: Result<String, ErrorKind>)
        ensures
            match r {
                Ok(u) => spec_url_for(self@, path@, path.spec_bytes(), collection) == Ok::<
                    Seq<char>,
                    ErrorKind,
                >(u@),
                Err(k) => spec_url_for(self@, path@, path.spec_bytes(), collection) == Err::<
                    Seq<char>,
                    ErrorKind,
                >(k),
            },
    {
        let url = resource_url(self.url.as_str(), path, collection)?;
        self.require_connected()?;
        Ok(url)
    }

    /// The URL `connect` probes: the root of the share, or
    /// `AlreadyConnected` when the session is connected.
    pub fn connect_url(&self) -> (r: Result<String, ErrorKind>)
        ensures
            r is Err <==> self@.connected,
            r matches Err(k) ==> k == ErrorKind::AlreadyConnected,
            r matches Ok(u) ==> u@ == self@.url.push('/'),
    {
        if self.connected {
            return Err(ErrorKind::AlreadyConnected);
        }
        let mut chars = chars_of(self.url.as_str());
        chars.push('/');
        Ok(string_of(chars.as_slice()))
    }

    /// Completes `connect` once the probe of the root answered: the session
    /// is connected when the root was found, and the error is
    /// `NoSuchFileOrDirectory` when it was not.
    pub fn finish_connect(&mut self, found: bool) -> (r: Result<(), ErrorKind>)
        ensures
            (final(self)@, r) == spec_finish_connect(old(self)@, found),
    {
        if found {
            self.connected = true;
            Ok(())
        } else {
            Err(ErrorKind::NoSuchFileOrDirectory)
        }
    }

    /// Disconnects the session, or reports `NotConnected`.
    pub fn disconnect(&mut self) -> (r: Result<(), ErrorKind>)
        ensures
            (final(self)@, r) == spec_disconnect(old(self)@),
    {
        self.require_connected()?;
        self.connected = false;
        Ok(())
    }
}

// ---------------------------------------------------------------------
// Operations

/// How a read is carried out.
pub enum ReadPlan {
    /// A zero-length read only checks that the entry exists.
    Probe,
    /// A `GET` of `url`, with a `Range` header when `range` is set.
    Fetch { url: String, offset: u64, range: Option<String> },
}

/// Where `stat` goes after its first `PROPFIND` failed.
pub open spec fn spec_stat_retry(
    st: SessionState,
    path: Seq<char>,
    path_bytes: Seq<u8>,
    failure: ClientFailure,
) -> Result<Seq<char>, ErrorKind> {
    match failure {
        ClientFailure::Status(status) => if is_redirection(status) {
            spec_url_for(st, path, path_bytes, true)
        } else {
            Err(spec_error_kind(failure))
        },
        _ => Err(spec_error_kind(failure)),
    }
}

/// What `exists` answers for the outcome of `stat`.
pub open spec fn spec_exists_outcome(stat: Result<(), ErrorKind>) -> Result<bool, ErrorKind> {
    match stat {
        Ok(()) => Ok(true),
        Err(ErrorKind::NoSuchFileOrDirectory) => Ok(false),
        Err(k) => Err(k),
    }
}

impl Session {
    /// The URL `stat` retries after its first `PROPFIND` of `path` failed.
    ///
    /// Servers answer a redirect when a collection is asked for without its
    /// trailing slash; the request is then retried in collection form. Any
    /// other failure ends `stat` with its error kind.
    pub fn stat_retry_url(&self, path: &str, failure: &ClientFailure) -> (r: Result<
        String,
        ErrorKind,
    >)
        ensures
            match r {
                Ok(u) => spec_stat_retry(self@, path@, path.spec_bytes(), *failure) == Ok::<
                    Seq<char>,
                    ErrorKind,
                >(u@),
                Err(k) => spec_stat_retry(self@, path@, path.spec_bytes(), *failure) == Err::<
                    Seq<char>,
                    ErrorKind,
                >(k),
            },
    {
        match failure {
            ClientFailure::Status(status) => if 300 <= *status && *status <= 399 {
                self.url_for(path, true)
            } else {
                Err(error_kind(failure))
            },
            _ => Err(error_kind(failure)),
        }
    }

    /// How `open` reads `path`: a zero length only checks that the entry
    /// exists, any other read fetches the resource with the `Range` header
    /// of the offset (0 when absent) and the length.
    pub fn read_plan(&self, path: &str, offset: Option<u64>, length: Option<u64>) -> (r: Result<
        ReadPlan,
        ErrorKind,
    >)
        ensures
            match spec_url_for(self@, path@, path.spec_bytes(), false) {
                Err(k) => r == Err::<ReadPlan, ErrorKind>(k),
                Ok(u) => if length == Some(0u64) {
                    r matches Ok(ReadPlan::Probe)
                } else {
                    r matches Ok(ReadPlan::Fetch { url, offset: o, range }) && {
                        &&& url@ == u
                        &&& o == match offset {
                            Some(v) => v,
                            None => 0,
                        }
                        &&& match range {
                            Some(h) => spec_range_header(o, length) == Some(h@),
                            None => spec_range_header(o, length) is None,
                        }
                    }
                },
            },
    {
        let url = self.url_for(path, false)?;
        if length == Some(0u64) {
            return Ok(ReadPlan::Probe);
        }
        let o = match offset {
            Some(v) => v,
            None => 0,
        };
        Ok(ReadPlan::Fetch { url, offset: o, range: range_header(o, length) })
    }

    /// The source and destination URLs of a move or copy of an entry that
    /// is a directory when `is_dir` is set.
    pub fn transfer_urls(&self, src: &str, dest: &str, is_dir: bool) -> (r: Result<
        (String, String),
        ErrorKind,
    >)
        ensures
            match spec_url_for(self@, src@, src.spec_bytes(), is_dir) {
                Err(k) => r == Err::<(String, String), ErrorKind>(k),
                Ok(s) => match spec_url_for(self@, dest@, dest.spec_bytes(), is_dir) {
                    Err(k) => r == Err::<(String, String), ErrorKind>(k),
                    Ok(d) => r matches Ok((a, b)) && a@ == s && b@ == d,
                },
            },
    {
        let src_url = self.url_for(src, is_dir)?;
        let dest_url = self.url_for(dest, is_dir)?;
        Ok((src_url, dest_url))
    }

    /// The error of an operation WebDAV cannot carry out on `path`: the
    /// path is checked first, and a valid one gives `UnsupportedFeature`.
    pub fn unsupported_on(&self, path: &str) -> (k: ErrorKind)
        ensures
            k == match spec_url_for(self@, path@, path.spec_bytes(), false) {
                Err(e) => e,
                Ok(_) => ErrorKind::UnsupportedFeature,
            },
    {
        match self.url_for(path, false) {
            Err(e) => e,
            Ok(_) => ErrorKind::UnsupportedFeature,
        }
    }

    /// The error of a symbolic link from `path` to `target`: both paths are
    /// checked, then `UnsupportedFeature`.
    pub fn unsupported_link(&self, path: &str, target: &str) -> (k: ErrorKind)
        ensures
            k == match spec_url_for(self@, path@, path.spec_bytes(), false) {
                Err(e) => e,
                Ok(_) => match spec_url_for(self@, target@, target.spec_bytes(), false) {
                    Err(e) => e,
                    Ok(_) => ErrorKind::UnsupportedFeature,
                },
            },
    {
        match self.url_for(path, false) {
            Err(e) => e,
            Ok(_) => self.unsupported_on(target),
        }
    }
}

/// The entry `stat` reports for `path` from the resource found there, or
/// `NoSuchFileOrDirectory` when none was.
pub fn stat_entry(found: Option<&ResourceInfo>, path: &str) -> (r: Result<Entry, ErrorKind>)
    ensures
        match found {
            None => r == Err::<Entry, ErrorKind>(ErrorKind::NoSuchFileOrDirectory),
            Some(res) => r matches Ok(e) && is_entry_of(e, *res, path@),
        },
{
    match found {
        None => Err(ErrorKind::NoSuchFileOrDirectory),
        Some(res) => Ok(resource_to_file_at(res, path)),
    }
}

/// What `exists` answers: an entry `stat` found exists, a missing one does
/// not, and any other failure of `stat` is reported as it is.
pub fn exists_outcome(stat: Result<(), ErrorKind>) -> (r: Result<bool, ErrorKind>)
    ensures
        r == spec_exists_outcome(stat),
{
    match stat {
        Ok(()) => Ok(true),
        Err(ErrorKind::NoSuchFileOrDirectory) => Ok(false),
        Err(k) => Err(k),
    }
}

/// The body a read returns: a `206 Partial Content` answer is taken as
/// the requested range, any other answer held the whole body and is
/// trimmed locally.
pub fn read_body(status: u16, body: Vec<u8>, offset: u64, length: Option<u64>) -> (out: Vec<u8>)
    ensures
        status == 206 ==> out@ == body@,
        status != 206 ==> out@ == spec_slice_body(body@, offset, length),
{
    if status == 206 {
        body
    } else {
        slice_body(body, offset, length)
    }
}

/// What a failed `GET` of a read gives: `416 Range Not Satisfiable`
/// (beyond the end of the file) reads as an empty body, any other failure
/// is an error of its kind.
pub fn read_failure(failure: &ClientFailure) -> (r: Result<Vec<u8>, ErrorKind>)
    ensures
        *failure == ClientFailure::Status(416) ==> (r matches Ok(b) && b@.len() == 0),
        *failure != ClientFailure::Status(416) ==> r == Err::<Vec<u8>, ErrorKind>(
            spec_error_kind(*failure),
        ),
{
    match failure {
        ClientFailure::Status(416) => Ok(Vec::new()),
        _ => Err(error_kind(failure)),
    }
}

/// `create_dir` refuses an entry that already exists.
pub fn refuse_existing(exists: bool) -> (r: Result<(), ErrorKind>)
    ensures
        r is Ok <==> !exists,
        r matches Err(k) ==> k == ErrorKind::AlreadyExists,
{
    if exists {
        Err(ErrorKind::AlreadyExists)
    } else {
        Ok(())
    }
}

/// `remove_dir` refuses a collection that still lists `children` entries.
pub fn refuse_non_empty(children: usize) -> (r: Result<(), ErrorKind>)
    ensures
        r is Ok <==> children == 0,
        r matches Err(k) ==> k == ErrorKind::DirectoryNotEmpty,
{
    if children > 0 {
        Err(ErrorKind::DirectoryNotEmpty)
    } else {
        Ok(())
    }
}

// ---------------------------------------------------------------------
// Laws

/// Canonicalising a canonical path changes nothing, and a canonical path
/// is `/` or does not end with `/`.
pub proof fn lemma_canonical_path_idempotent(path: Seq<char>)
    ensures
        spec_canonical_path(spec_canonical_path(path)) == spec_canonical_path(path),
        spec_canonical_path(path) == seq!['/'] || spec_canonical_path(path).last() != '/',
        spec_canonical_path(path).len() > 0,
{
    lemma_trim_trailing_slashes(path);
    let t = trim_trailing_slashes(path);
    if t.len() == 0 {
        let root = seq!['/'];
        assert(root.drop_last().len() == 0);
        assert(trim_trailing_slashes(root.drop_last()) == root.drop_last());
        assert(trim_trailing_slashes(root) == trim_trailing_slashes(root.drop_last()));
    }
}

/// Joining a name to a path keeps both: an absolute name replaces the
/// base; otherwise the result starts with the base and ends with the name,
/// with nothing or a single `/` between them, that `/` present whenever
/// the base is not empty, so a name joined to an absolute base stays
/// absolute.
pub proof fn lemma_join_path_keeps_base_and_name(base: Seq<char>, name: Seq<char>)
    ensures
        name.len() > 0 && name[0] == '/' ==> spec_join_path(base, name) == name,
        !(name.len() > 0 && name[0] == '/') ==> ({
            let j = spec_join_path(base, name);
            &&& j.take(base.len() as int) == base
            &&& j.skip(j.len() - name.len()) == name
            &&& j.len() == base.len() + name.len() || j.len() == base.len() + name.len() + 1
            &&& j.len() == base.len() + name.len() + 1 ==> j[base.len() as int] == '/'
            &&& base.len() > 0 ==> j[j.len() - name.len() - 1] == '/'
            &&& base.len() > 0 && base[0] == '/' ==> j[0] == '/'
        }),
{
    if !(name.len() > 0 && name[0] == '/') {
        let j = spec_join_path(base, name);
        if base.len() > 0 && base.last() != '/' {
            assert(j == base + seq!['/'] + name);
            assert(j.take(base.len() as int) =~= base);
            assert(j.skip(j.len() - name.len()) =~= name);
        } else {
            assert(j == base + name);
            assert(j.take(base.len() as int) =~= base);
            assert(j.skip(j.len() - name.len()) =~= name);
        }
    }
}

/// Only a collection can be the listed collection itself, and only when
/// its href names the requested path or the request's URI path, or
/// resolves against the latter to it, trailing slashes aside.
pub proof fn lemma_self_resource_names_the_listed_path(
    is_collection: bool,
    href: Seq<char>,
    requested: Seq<char>,
    uri_path: Option<Seq<char>>,
)
    ensures
        spec_is_self_resource(is_collection, href, requested, uri_path) ==> is_collection && (
        spec_canonical_path(href) == spec_canonical_path(requested) || (uri_path matches Some(u)
            && (spec_canonical_path(href) == spec_canonical_path(u) || spec_canonical_path(
            spec_resolved_href(href, u),
        ) == spec_canonical_path(u)))),
{
}

/// A child of the listed collection is never taken for the collection
/// itself: an href naming the requested path joined with a name (with or
/// without a trailing slash) is kept, whether or not the request's URI
/// path, naming the requested path too, is known.
pub proof fn lemma_child_is_not_self(
    is_collection: bool,
    requested: Seq<char>,
    name: Seq<char>,
    href: Seq<char>,
    uri_path: Option<Seq<char>>,
)
    requires
        requested.len() > 0,
        requested[0] == '/',
        name.len() > 0,
        forall|i: int| 0 <= i < name.len() ==> name[i] != '/',
        href == spec_join_path(requested, name) || href == spec_join_path(requested, name).push(
            '/',
        ),
        uri_path matches Some(u) ==> spec_canonical_path(u) == spec_canonical_path(requested),
    ensures
        !spec_is_self_resource(is_collection, href, requested, uri_path),
{
    let j = spec_join_path(requested, name);
    lemma_join_path_keeps_base_and_name(requested, name);
    assert(j.last() == name.last());
    assert(j.last() != '/');
    assert(trim_trailing_slashes(j) == j);
    if href != j {
        assert(href.drop_last() == j);
        assert(trim_trailing_slashes(href) == trim_trailing_slashes(j));
    }
    assert(spec_canonical_path(href) == j);
    lemma_trim_trailing_slashes(requested);
    assert(spec_canonical_path(requested).len() < j.len());
    assert(href[0] == '/');
    match uri_path {
        Some(u) => {
            assert(spec_resolved_href(href, u) == href);
        },
        None => {},
    }
}

/// A session's base URL never ends with `/`, so the root URL that
/// `connect` probes ends with exactly one.
pub proof fn lemma_base_url_has_no_trailing_slash(url: Seq<char>)
    ensures
        trim_trailing_slashes(url).len() == 0 || trim_trailing_slashes(url).last() != '/',
        trim_trailing_slashes(trim_trailing_slashes(url)) == trim_trailing_slashes(url),
{
    lemma_trim_trailing_slashes(url);
}

/// Connecting a disconnected session whose probe found the share, then
/// disconnecting it, gives back the session it was; the base URL never
/// changes.
pub proof fn lemma_connect_then_disconnect(st: SessionState)
    requires
        !st.connected,
    ensures
        spec_finish_connect(st, true).1 is Ok,
        spec_finish_connect(st, true).0.connected,
        spec_finish_connect(st, true).0.url == st.url,
        spec_disconnect(spec_finish_connect(st, true).0) == (st, Ok::<(), ErrorKind>(())),
{
}

/// A probe that finds nothing leaves the session as it was, and
/// disconnecting a disconnected session is refused without changing it.
pub proof fn lemma_failed_transitions_keep_the_session(st: SessionState)
    ensures
        spec_finish_connect(st, false) == (st, Err::<(), ErrorKind>(
            ErrorKind::NoSuchFileOrDirectory,
        )),
        !st.connected ==> spec_disconnect(st) == (st, Err::<(), ErrorKind>(
            ErrorKind::NotConnected,
        )),
{
}

/// An invalid path is reported as such whether or not the session is
/// connected: the path is checked before the connection.
pub proof fn lemma_path_checked_before_connection(
    st: SessionState,
    path: Seq<char>,
    path_bytes: Seq<u8>,
    collection: bool,
)
    requires
        !is_valid_remote_path(path),
    ensures
        spec_url_for(st, path, path_bytes, collection) == Err::<Seq<char>, ErrorKind>(
            ErrorKind::InvalidPath,
        ),
        spec_url_for(SessionState { url: st.url, connected: !st.connected }, path, path_bytes, collection)
            == spec_url_for(st, path, path_bytes, collection),
{
}

/// A resource URL starts with the base URL followed by the encoded path,
/// and a collection URL always ends with `/`.
pub proof fn lemma_resource_url_shape(base: Seq<char>, path_bytes: Seq<u8>, collection: bool)
    ensures
        spec_resource_url(base, path_bytes, collection).subrange(
            0,
            (base.len() + encode_bytes(path_bytes).len()) as int,
        ) == base + encode_bytes(path_bytes),
        collection ==> spec_resource_url(base, path_bytes, collection).last() == '/',
        !collection ==> spec_resource_url(base, path_bytes, collection) == base + encode_bytes(
            path_bytes,
        ),
{
    let joined = base + encode_bytes(path_bytes);
    assert(joined.subrange(0, joined.len() as int) == joined);
    assert(joined.push('/').subrange(0, joined.len() as int) == joined);
}

/// A bounded read asks the server for exactly the bytes that trimming a
/// full body keeps: `bytes=offset-(offset + length - 1)` and the body's
/// bytes `offset .. offset + length`.
pub proof fn lemma_range_header_matches_slice(body: Seq<u8>, offset: u64, length: u64)
    requires
        length >= 1,
        offset + length <= u64::MAX,
        offset + length <= body.len(),
    ensures
        spec_range_header(offset, Some(length)) == Some(
            bytes_prefix() + decimal(offset as nat) + seq!['-'] + decimal(
                (offset + length - 1) as nat,
            ),
        ),
        spec_slice_body(body, offset, Some(length)) == body.subrange(
            offset as int,
            offset + length,
        ),
{
    let rest = body.skip(offset as int);
    if length < rest.len() {
        assert(rest.take(length as int) == body.subrange(offset as int, offset + length));
    } else {
        assert(rest == body.subrange(offset as int, offset + length));
    }
}

/// A read without offset or length sends no `Range` header, and trimming
/// a body with neither keeps all of it.
pub proof fn lemma_whole_body_reads(body: Seq<u8>)
    ensures
        spec_range_header(0, None) is None,
        spec_slice_body(body, 0, None) == body,
{
    assert(body.skip(0) == body);
}

/// `exists` and `stat` agree: an entry exists exactly when `stat` finds
/// it, a missing entry does not exist, and any other failure is reported
/// by both.
pub proof fn lemma_exists_agrees_with_stat(stat: Result<(), ErrorKind>)
    ensures
        spec_exists_outcome(stat) == Ok::<bool, ErrorKind>(true) <==> stat is Ok,
        spec_exists_outcome(stat) == Ok::<bool, ErrorKind>(false) <==> stat == Err::<
            (),
            ErrorKind,
        >(ErrorKind::NoSuchFileOrDirectory),
        spec_exists_outcome(stat) is Err ==> spec_exists_outcome(stat) == match stat {
            Err(k) => Err::<bool, ErrorKind>(k),
            Ok(_) => Ok::<bool, ErrorKind>(true),
        },
{
}

/// Only collections are ever the listed collection itself: a listing keeps
/// every plain resource.
pub proof fn lemma_listing_keeps_plain_resources(
    resource: ResourceInfo,
    requested: Seq<char>,
    uri_path: Option<Seq<char>>,
)
    requires
        !resource.is_collection,
    ensures
        !spec_is_self_resource(resource.is_collection, resource.path@, requested, uri_path),
{
}

} // verus!
