[package]
name = "kros"
version = "0.1.0"
edition = "2021"
publish = false

[dependencies]
bit_field = "0.10"
bitflags = "2"
bootloader = { version = "0.9", features = ["map_physical_memory"] }
lazy_static = { version = "1", features = ["spin_no_std"] }
pc-keyboard = "0.7"
pic8259 = { version = "0.10", default-features = false }
spin = "0.9"
volatile = "0.2"
x86_64 = { version = "0.14", default-features = false, features = ["instructions"] }
