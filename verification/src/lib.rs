//! A WebDAV client for remote file systems: the request planning, the
//! path and URL rules, the error mapping and the buffered transfer streams.
pub mod text;
pub mod error;
pub mod url;
pub mod resource;
pub mod client;
pub mod stream;
pub mod webdav_xml;
pub mod parser;
