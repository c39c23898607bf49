[package]
name = "lxcomm"
version = "0.4.0"
edition = "2021"
publish = false

[dependencies]
similar = "=3.1.2"
blake3 = "=1.8.7"
fuse-rust = "=0.5.0"
bstr = "=1.13.1"
strip-ansi-escapes = "=0.2.1"
chrono = "=0.4.45"
humantime = "=2.4.0"
fancy-regex = "=0.20.0"
indexmap = "=2.14.2"
ringmap = "=0.2.8"
dashmap = "=6.2.1"
moka = { version = "=0.12.16", features = ["sync"] }
serde = { version = "=1.0.229", features = ["derive"] }
serde_json = "1"
toml = "=1.1.8+spec-1.1.0"
keyvalues-serde = "=0.2.4"
walkdir = "=2.5.0"
zip = { version = "=9.2.2", default-features = false, features = ["zstd"] }
dircpy = "=0.3.21"
tokio = { version = "=1.54.1", features = ["rt-multi-thread", "sync", "time", "macros", "fs"] }
which = "=8.0.6"
portable-pty = "=0.9.0"
secrecy = "=0.10.3"
etcetera = "=0.11.0"
opener = "=0.9.0"
fjall = "=3.1.13"
notify = "=8.2.1"
governor = "=0.10.4"
iced = { version = "=0.14.0", default-features = false, features = ["tiny-skia", "x11", "tokio", "markdown", "advanced"] }
