[package]
name = "snapshot_fs"
version = "0.1.0"
edition = "2021"
publish = false

[dependencies]
zip = { version = "=8.6.0", default-features = false, features = ["deflate"] }
fuse_mt = "=0.6.4"
libc = "=0.2.190"
log = "=0.4.34"
env_logger = "=0.11.11"
