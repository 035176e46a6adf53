//! Reading a `PROPFIND` answer into file system entries.

use vstd::prelude::*;

use crate::error::ErrorKind;
use crate::resource::{Entry, Timestamp};
use crate::text::{chars_of, string_of};
use crate::webdav_xml::elements::multistatus::Multistatus;
use crate::webdav_xml::elements::prop::Properties;
use crate::webdav_xml::elements::response::{Href, PropstatModel, Response, ResponseModel};
use crate::webdav_xml::properties::{ContentLength, CreationDate, LastModified};
use crate::webdav_xml::value::{models, spec_get_optional, NameKey, ValueModel};
use crate::webdav_xml::read::{from_xml, spec_from_xml};
use crate::webdav_xml::{FromValue, XmlError};

verus! {

/// What a `PROPFIND` answer's status means: success, or the error kind of
/// a failed one (401 and 403 deny opening, 400 and 404 mean a missing
/// entry, anything else is a protocol error).
pub open spec fn spec_response_status(code: u16) -> Result<(), ErrorKind> {
    if 200 <= code <= 299 {
        Ok(())
    } else if code == 401 || code == 403 {
        Err(ErrorKind::CouldNotOpenFile)
    } else if code == 400 || code == 404 {
        Err(ErrorKind::NoSuchFileOrDirectory)
    } else {
        Err(ErrorKind::ProtocolError)
    }
}

/// The size a `prop` element gives: its `getcontentlength` when it was read.
pub open spec fn spec_prop_size(props: Seq<(NameKey, ValueModel)>) -> Option<u64> {
    match spec_get_optional::<ContentLength>(props) {
        Some(Some(Ok(n))) => Some(n),
        _ => None,
    }
}

/// The modification time a `prop` element gives: its `getlastmodified`
/// when it was read.
pub open spec fn spec_prop_modified(props: Seq<(NameKey, ValueModel)>) -> Option<u64> {
    match spec_get_optional::<LastModified>(props) {
        Some(Some(Ok(secs))) => Some(secs),
        _ => None,
    }
}

/// The creation time a `prop` element gives: the instant of its
/// `creationdate` when it was read, to the nanosecond and before the Unix
/// epoch too.
pub open spec fn spec_prop_created(props: Seq<(NameKey, ValueModel)>) -> Option<Timestamp> {
    match spec_get_optional::<CreationDate>(props) {
        Some(Some(Ok(d))) => Some(Timestamp { secs: d.unix_timestamp, nanos: d.nanosecond }),
        _ => None,
    }
}

pub open spec fn ends_with_slash(s: Seq<char>) -> bool {
    s.len() > 0 && s.last() == '/'
}

/// Whether `entry` is the entry of the properties `props` of the resource
/// at `href`, whose path the local file system calls a directory when
/// `local_dir` is set.
pub open spec fn is_propstat_entry(
    entry: Entry,
    href: Seq<char>,
    props: Seq<(NameKey, ValueModel)>,
    local_dir: bool,
) -> bool {
    &&& entry.path@ == href
    &&& entry.is_dir == (ends_with_slash(href) || local_dir)
    &&& entry.size == spec_prop_size(props)
    &&& entry.modified_secs == spec_prop_modified(props)
    &&& entry.created == spec_prop_created(props)
}

/// `std::path::Path::is_dir` on `path`: whether the local file system holds
/// a directory there. The answer depends on the disk, so nothing is stated
/// of it.
#[verifier::external_body]
fn local_path_is_dir(path: &str) -> (r: bool) {
    std::path::Path::new(path).is_dir()
}

/// The entry of one `propstat` of the resource at `href`: a directory when
/// the href ends with `/` or `local_dir` is set, with the size, the
/// modification and the creation time the properties hold.
pub fn propstat_entry(href: &Href, props: &Properties, local_dir: bool) -> (entry: Entry)
    ensures
        is_propstat_entry(entry, href.0@, props.0.model(), local_dir),
{
    let size = match props.getcontentlength() {
        Some(Some(Ok(n))) => Some(n.0),
        _ => None,
    };
    let modified_secs = match props.getlastmodified() {
        Some(Some(Ok(d))) => Some(d.0),
        _ => None,
    };
    let created = match props.creationdate() {
        Some(Some(Ok(d))) => Some(Timestamp { secs: d.unix_timestamp, nanos: d.nanosecond }),
        _ => None,
    };
    let chars = chars_of(href.0.as_str());
    let slash = chars.len() > 0 && chars[chars.len() - 1] == '/';
    Entry {
        path: string_of(chars.as_slice()),
        is_dir: slash || local_dir,
        size,
        modified_secs,
        created,
    }
}

/// The `(href, propstat)` pairs of the `propstat` responses, in order; a
/// status-only response holds none.
pub open spec fn propstat_pairs(rs: Seq<ResponseModel>) -> Seq<(Seq<char>, PropstatModel)>
    decreases rs.len(),
{
    if rs.len() == 0 {
        Seq::empty()
    } else {
        propstat_pairs(rs.drop_last()) + match rs.last() {
            ResponseModel::Propstat { href, propstat, .. } => propstat.map_values(
                |p: PropstatModel| (href, p),
            ),
            ResponseModel::Status { .. } => Seq::empty(),
        }
    }
}

/// Whether `entries` are the entries of the responses `rs`: one per
/// `propstat` of each `propstat` response, in order, each a directory when
/// its href ends with `/` or, whatever it ends with, when the local file
/// system holds a directory at that path.
pub open spec fn are_propfind_entries(entries: Seq<Entry>, rs: Seq<ResponseModel>) -> bool {
    let pairs = propstat_pairs(rs);
    &&& entries.len() == pairs.len()
    &&& forall|i: int|
        0 <= i < pairs.len() ==> {
            ||| is_propstat_entry(#[trigger] entries[i], pairs[i].0, pairs[i].1.prop, true)
            ||| is_propstat_entry(entries[i], pairs[i].0, pairs[i].1.prop, false)
        }
}

/// The entries of a multi-status answer: one per `propstat` of each
/// `propstat` response, in order; a status-only response is skipped. An
/// entry is a directory when its href ends with `/`; an href the local file
/// system holds as a directory is one too.
pub fn propfind_entries(multistatus: &Multistatus) -> (entries: Vec<Entry>)
    ensures
        are_propfind_entries(entries@, models(multistatus.response@)),
{
    let mut entries: Vec<Entry> = Vec::new();
    let ghost rs = models(multistatus.response@);
    let n = multistatus.response.len();
    assert(rs.take(0) =~= Seq::<ResponseModel>::empty());
    for i in 0..n
        invariant
            n == multistatus.response@.len(),
            rs == models(multistatus.response@),
            rs.len() == n,
            entries@.len() == propstat_pairs(rs.take(i as int)).len(),
            forall|k: int|
                0 <= k < entries@.len() ==> {
                    let pairs = propstat_pairs(rs.take(i as int));
                    ||| is_propstat_entry(#[trigger] entries@[k], pairs[k].0, pairs[k].1.prop, true)
                    ||| is_propstat_entry(entries@[k], pairs[k].0, pairs[k].1.prop, false)
                },
    {
        let ghost before = propstat_pairs(rs.take(i as int));
        let ghost next = rs.take(i + 1);
        proof {
            assert(next.drop_last() == rs.take(i as int));
            assert(next.last() == multistatus.response@[i as int].model());
        }
        match &multistatus.response[i] {
            Response::Propstat { href, propstat, .. } => {
                let ghost ps = models(propstat@);
                let ghost added = ps.map_values(|p: PropstatModel| (href.0@, p));
                let m = propstat.len();
                let ghost base = entries@.len();
                for j in 0..m
                    invariant
                        m == propstat@.len(),
                        ps == models(propstat@),
                        added == ps.map_values(|p: PropstatModel| (href.0@, p)),
                        base == before.len(),
                        entries@.len() == base + j,
                        forall|k: int|
                            0 <= k < base ==> {
                                ||| is_propstat_entry(#[trigger] entries@[k], before[k].0, before[k].1.prop, true)
                                ||| is_propstat_entry(entries@[k], before[k].0, before[k].1.prop, false)
                            },
                        forall|k: int|
                            0 <= k < j ==> {
                                ||| is_propstat_entry(#[trigger] entries@[base + k], added[k].0, added[k].1.prop, true)
                                ||| is_propstat_entry(entries@[base + k], added[k].0, added[k].1.prop, false)
                            },
                {
                    let local_dir = local_path_is_dir(href.0.as_str());
                    let entry = propstat_entry(href, &propstat[j].prop, local_dir);
                    entries.push(entry);
                }
                proof {
                    let pairs = propstat_pairs(next);
                    assert(pairs == before + added);
                    assert forall|k: int| 0 <= k < entries@.len() implies {
                        ||| is_propstat_entry(#[trigger] entries@[k], pairs[k].0, pairs[k].1.prop, true)
                        ||| is_propstat_entry(entries@[k], pairs[k].0, pairs[k].1.prop, false)
                    } by {
                        if k < base {
                            assert(pairs[k] == before[k]);
                        } else {
                            assert(pairs[k] == added[k - base]);
                            assert(entries@[k] == entries@[base + (k - base)]);
                        }
                    }
                }
            },
            Response::Status { .. } => {
                proof {
                    assert(propstat_pairs(next) == before + Seq::<(Seq<char>, PropstatModel)>::empty());
                    assert(before + Seq::<(Seq<char>, PropstatModel)>::empty() == before);
                }
            },
        }
    }
    assert(rs.take(n as int) == rs);
    entries
}

/// A `PROPFIND` answer: its HTTP status code and its body.
pub struct ResponseParser {
    pub status: u16,
    pub body: Vec<u8>,
}

/// What reading the entries of a `PROPFIND` answer gives: the error of a
/// failed status, then the entries of the body, which must read as a
/// `multistatus` document (a protocol error otherwise).
pub open spec fn spec_files(status: u16, body: Seq<u8>) -> Result<Seq<ResponseModel>, ErrorKind> {
    match spec_response_status(status) {
        Err(k) => Err(k),
        Ok(()) => match spec_from_xml::<Multistatus>(body) {
            Ok(ms) => Ok(ms.response),
            Err(_) => Err(ErrorKind::ProtocolError),
        },
    }
}

impl ResponseParser {
    /// Checks the HTTP status of the answer.
    pub fn status(self) -> (r: Result<(), ErrorKind>)
        ensures
            r == spec_response_status(self.status),
    {
        if 200 <= self.status && self.status <= 299 {
            Ok(())
        } else {
            match self.status {
                401 | 403 => Err(ErrorKind::CouldNotOpenFile),
                400 | 404 => Err(ErrorKind::NoSuchFileOrDirectory),
                _ => Err(ErrorKind::ProtocolError),
            }
        }
    }

    /// The entries of the answer: a failed status is reported as its
    /// error, and a successful one has its body read.
    pub fn files(self) -> (r: Result<Vec<Entry>, ErrorKind>)
        ensures
            match spec_files(self.status, self.body@) {
                Ok(rs) => r matches Ok(entries) && are_propfind_entries(entries@, rs),
                Err(k) => r == Err::<Vec<Entry>, ErrorKind>(k),
            },
    {
        if !(200 <= self.status && self.status <= 299) {
            return Err(self.status().unwrap_err());
        }
        Self::parse_propfind(self.body.as_slice())
    }

    /// Reads the entries of the `PROPFIND` answer `xml`, a `multistatus`
    /// document; a document that cannot be read as one is a protocol
    /// error.
    pub fn parse_propfind(xml: &[u8]) -> (r: Result<Vec<Entry>, ErrorKind>)
        ensures
            match spec_from_xml::<Multistatus>(xml@) {
                Ok(ms) => r matches Ok(entries) && are_propfind_entries(entries@, ms.response),
                Err(_) => r == Err::<Vec<Entry>, ErrorKind>(ErrorKind::ProtocolError),
            },
    {
        match from_xml::<Multistatus>(xml) {
            Ok(multistatus) => Ok(propfind_entries(&multistatus)),
            Err(_) => Err(ErrorKind::ProtocolError),
        }
    }
}

} // verus!
