[package]
name = "file_suite"
version = "0.1.0"
edition = "2021"
publish = false

[dependencies]
convert_case = "=0.12.0"
serde_json = "=1.0.154"
proc-macro2 = "=1.0.107"
unicode-ident = "=1.0.27"
quote = "=1.0.47"
syn = { version = "=2.0.119", features = ["full", "extra-traits"] }
prettyplease = "=0.2.37"
rand = "=0.9.5"
libc = "=0.2.191"
rustix = { version = "=1.1.6", features = ["fs", "process"] }
clap = { version = "=4.6.7", features = ["derive"] }
clap_complete = "=4.6.11"
patharg = "=0.4.1"
log = "=0.4.35"
thiserror = "=2.0.21"
color-eyre = "=0.6.5"
walkdir = "=2.5.0"
symlink = "=0.1.0"
rayon = "=1.12.0"
fuser = { version = "=0.15.1", default-features = false }
rusqlite = { version = "=0.41.1", features = ["serialize"] }
dashmap = "=6.2.1"
rustc-hash = "=2.1.3"
signal-hook = "=0.3.18"
smallvec = { version = "=1.16.4", features = ["write"] }
nix = { version = "=0.29.0", features = ["fs", "dir"] }
tokio = { version = "1", features = ["rt"] }
tokio-stream = "0.1"
futures-core = "0.3"
