//! Conversion of WebDAV resources into file system entries.

use vstd::prelude::*;

use crate::text::{chars_of, lemma_trim_trailing_slashes, string_of, trim_trailing_slashes, trimmed_len};

verus! {

/// One resource of a `PROPFIND` answer, as far as the file system reads it.
#[derive(Clone, Debug)]
pub struct ResourceInfo {
    /// The URI path of the resource, as the server returned it.
    pub path: String,
    /// The last non-empty segment of the path, percent-decoded.
    pub name: String,
    /// Whether the resource is a collection.
    pub is_collection: bool,
    /// The `getcontentlength` property.
    pub content_length: Option<u64>,
    /// The `getlastmodified` property, in seconds since the Unix epoch.
    pub modified_secs: Option<u64>,
    /// The `creationdate` property, as a Unix timestamp in seconds.
    pub creation_timestamp: Option<i64>,
}

/// An instant: whole seconds since the Unix epoch (negative before it) and
/// the nanoseconds past that second.
#[derive(Clone, Copy, Debug, PartialEq, Eq, Structural)]
pub struct Timestamp {
    pub secs: i64,
    pub nanos: u32,
}

/// A file system entry: a path and its metadata.
#[derive(Clone, Debug)]
pub struct Entry {
    pub path: String,
    pub is_dir: bool,
    pub size: Option<u64>,
    /// Last modification, in seconds since the Unix epoch.
    pub modified_secs: Option<u64>,
    /// Creation.
    pub created: Option<Timestamp>,
}

/// The entry path of a resource path: collections drop their trailing
/// slash, and a one-character path such as the root `/` stays as it is.
pub open spec fn spec_entry_path(raw: Seq<char>) -> Seq<char> {
    if raw.len() > 1 {
        trim_trailing_slashes(raw)
    } else {
        raw
    }
}

/// A resource's creation time in whole seconds; a creation time before
/// the Unix epoch is dropped.
pub open spec fn spec_created(timestamp: Option<i64>) -> Option<Timestamp> {
    match timestamp {
        Some(t) => if t >= 0 {
            Some(Timestamp { secs: t, nanos: 0 })
        } else {
            None
        },
        None => None,
    }
}

/// Whether `entry` is the entry of `resource` placed at `path`.
pub open spec fn is_entry_of(entry: Entry, resource: ResourceInfo, path: Seq<char>) -> bool {
    &&& entry.path@ == path
    &&& entry.is_dir == resource.is_collection
    &&& entry.size == resource.content_length
    &&& entry.modified_secs == resource.modified_secs
    &&& entry.created == spec_created(resource.creation_timestamp)
}

/// Converts a `PROPFIND` resource into an entry.
///
/// Collections drop their trailing slash so that names and path comparisons
/// behave like every other backend; the root stays `/`. Collections are
/// directories, everything else is a file; the size and both timestamps are
/// copied, except a creation date before the Unix epoch.
pub fn resource_to_file(resource: &ResourceInfo) -> (entry: Entry)
    ensures
        is_entry_of(entry, *resource, spec_entry_path(resource.path@)),
{
    let raw = chars_of(resource.path.as_str());
    let path = if raw.len() > 1 {
        let n = trimmed_len(raw.as_slice());
        let trimmed = string_of(&raw.as_slice()[0..n]);
        trimmed
    } else {
        string_of(raw.as_slice())
    };
    let created = match resource.creation_timestamp {
        Some(t) => if t >= 0 {
            Some(Timestamp { secs: t, nanos: 0 })
        } else {
            None
        },
        None => None,
    };
    Entry {
        path,
        is_dir: resource.is_collection,
        size: resource.content_length,
        modified_secs: resource.modified_secs,
        created,
    }
}

/// Converts a resource while taking the path from the request namespace.
///
/// Servers may answer with an absolute href holding the share prefix, or
/// with a relative one. The client knows the remote path it asked for, so
/// that path is the entry's path.
pub fn resource_to_file_at(resource: &ResourceInfo, path: &str) -> (entry: Entry)
    ensures
        is_entry_of(entry, *resource, path@),
{
    let file = resource_to_file(resource);
    Entry {
        path: string_of(chars_of(path).as_slice()),
        is_dir: file.is_dir,
        size: file.size,
        modified_secs: file.modified_secs,
        created: file.created,
    }
}

/// Converting an entry path again changes nothing: the path of a
/// collection ends without `/` unless it is a one-character path such as
/// the root, which stays as it is.
pub proof fn lemma_entry_path_idempotent(raw: Seq<char>)
    ensures
        spec_entry_path(spec_entry_path(raw)) == spec_entry_path(raw),
        spec_entry_path(raw).len() <= 1 || spec_entry_path(raw).last() != '/',
        raw.len() <= 1 ==> spec_entry_path(raw) == raw,
{
    lemma_trim_trailing_slashes(raw);
}

} // verus!
