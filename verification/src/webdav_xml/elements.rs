//! XML elements of RFC 4918.

pub mod multistatus;
pub mod prop;
pub mod response;
