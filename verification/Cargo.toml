[package]
name = "overlayfs_fuse"
version = "1.2.0"
edition = "2021"
publish = false

[dependencies]
blake3 = "=1.8.7"
fuser = "=0.17.0"
glob = "=0.3.4"
libc = "=0.2.191"
obliterate = "=1.2.0"
recursive_copy = "=1.3.0"
regex = "=1.13.1"
serde = { version = "=1.0.229", features = ["derive"] }
