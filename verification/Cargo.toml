[package]
name = "smultron"
version = "0.1.0"
edition = "2021"
publish = false

[dependencies]
bootloader = { version = "0.9", features = ["map_physical_memory"] }
lazy_static = { version = "1", features = ["spin_no_std"] }
linked_list_allocator = "0.10"
pc-keyboard = "0.7"
spin = "0.9"
x86_64 = { version = "0.14", default-features = false, features = ["instructions"] }
