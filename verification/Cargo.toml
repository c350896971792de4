[package]
name = "profinet-rt"
version = "0.0.0"
edition = "2021"
publish = false

[dependencies]
libc = "0.2"
nix = { version = "0.27", default-features = false, features = ["net", "socket"] }
pcap-file = "2"
thiserror = "1"
