[package]
name = "edgecore_kernel"
version = "0.1.0"
edition = "2021"
publish = false

[dependencies]
xmas-elf = "=0.9.1"
font8x8 = { version = "=0.3.1", default-features = false, features = ["unicode"] }
x86_64 = { version = "=0.15.5", default-features = false, features = ["instructions"] }
spin = "=0.9.9"
lazy_static = "=1.5.1"
linked_list_allocator = "=0.10.6"
log = "=0.4.35"
uefi = "=0.26.0"
uefi-services = "=0.23.0"
