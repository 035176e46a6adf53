[package]
name = "remotefs-webdav"
version = "0.3.0"
edition = "2021"
publish = false

[dependencies]
dav-xml-client = "=0.2.0"
remotefs = { version = "=1.0.1", features = ["async", "tokio"] }
http = "=1.5.0"
quick-xml = "=0.42.0"
bytes = "=1.12.1"
bytestring = "=1.5.1"
nonempty = "=0.12.0"
futures-io = "=0.3.34"
log = "=0.4.35"
tokio = { version = "=1.54.1", features = ["rt", "rt-multi-thread"] }
time = { version = "=0.3.55", features = ["parsing"] }
httpdate = "=1.0.3"
