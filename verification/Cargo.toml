[package]
name = "portmaster_kext"
version = "0.1.0"
edition = "2021"
publish = false

[dependencies]
smoltcp = { version = "=0.10.0", default-features = false, features = ["proto-ipv4", "proto-ipv6"] }
windows-sys = { version = "=0.52.0", features = ["Win32_Foundation"] }
