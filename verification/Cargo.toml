[package]
name = "marx_os"
version = "0.1.0"
edition = "2021"
publish = false

[dependencies]
ab_glyph = "=0.2.32"
bootloader_api = "=0.11.17"
linked_list_allocator = "=0.10.6"
pc-keyboard = "=0.7.0"
pic8259 = { version = "=0.11.0", default-features = false, features = ["stable"] }
spin = "=0.9.9"
x86_64 = { version = "=0.15.5", default-features = false, features = ["instructions"] }
