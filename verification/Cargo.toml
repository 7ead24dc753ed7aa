[package]
name = "xget"
version = "0.1.0"
edition = "2021"
publish = false

[dependencies]
anstyle = "=1.0.14"
aws-config = { version = "=1.13.0", features = ["behavior-version-latest"] }
aws-credential-types = "=1.3.1"
aws-sdk-s3 = { version = "=1.157.0", features = ["behavior-version-latest"] }
aws-smithy-types = "=1.9.1"
blake3 = "=1.8.7"
bytes = "=1.12.1"
cid = "=0.11.3"
clap = { version = "=4.6.7", features = ["derive"] }
digest = { version = "=0.11.3", features = ["alloc"] }
dotenvy = "=0.15.7"
eyre = "=0.6.14"
futures = "=0.3.34"
hex = "=0.4.3"
libc = "=0.2.191"
md-5 = "=0.11.0"
reqwest = { version = "=0.13.5", features = ["stream"] }
sha1 = "=0.11.0"
sha2 = "=0.11.1"
thiserror = "=2.0.21"
tokio = { version = "=1.54.1", features = ["full"] }
tokio-util = { version = "=0.7.20", features = ["io"] }
tracing = "=0.1.44"
tracing-subscriber = { version = "=0.3.23", features = ["env-filter"] }
windows-sys = { version = "=0.61.2", features = ["Win32_Foundation", "Win32_System_Threading"] }
xbytes = { version = "=0.1.1", features = ["bits"] }
