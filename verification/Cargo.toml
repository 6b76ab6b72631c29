[package]
name = "unfound"
version = "0.1.0"
edition = "2021"
publish = false

[dependencies]
memory_addr = "*"
axallocator = { version = "*", default-features = false, features = ["bitmap"] }
axerrno = "*"
kspin = "*"
spin = "*"
log = "*"
lru = "*"
bitflags = "*"
