# remotefs-webdav

A WebDAV (RFC 4918) client for [remotefs](https://github.com/remotefs-rs/remotefs-rs),
whose logic is a library verified with [Verus](https://github.com/verus-lang/verus).

## Layout

- `src/` — the verified library.
  - `url.rs`: absolute remote paths to share URLs (validation, percent-encoding,
    collection slashes), with the laws that encoding is reversible and injective and
    writes every escaped byte as `%` and two upper-case hexadecimal digits.
  - `client.rs`: the session (base URL, connection state) and every decision of the
    file system operations: listing filters, `stat` retries, `exists`, range
    headers and local trimming of read bodies, refusals of `create_dir` and
    `remove_dir`.
  - `resource.rs`: `PROPFIND` resources to file system entries.
  - `stream.rs`: the seekable reader over a downloaded body and the buffered upload.
  - `error.rs`: client failures and HTTP statuses to error kinds.
  - `webdav_xml/`: the WebDAV XML model. `read.rs` folds the events of `quick-xml`'s
    namespace-aware reader into element values, keyed by namespace and local name
    whatever prefixes a document uses; `value.rs` holds element values and
    their maps; `elements/` and `properties/` read and write `multistatus`,
    `response`, `propstat`, `prop` and the live properties.
  - `parser.rs`: a `PROPFIND` answer to file system entries.
- `tests/` — tests of the library.
- `app/` — the `AsyncRemoteFs` implementation over `dav-xml-client`, its streams and
  the mapping onto remotefs errors; it performs the requests and leaves every
  decision to the library.

Calls into outside crates (`quick-xml`, `http`, `remotefs`, `time`, `httpdate`,
`nonempty`, and a few of `std`) go through small trusted functions whose contracts
state what those crates document; everything else is proved.
