[package]
name = "evkrnl"
version = "0.1.0"
edition = "2021"
publish = false

[dependencies]
bitvec = "1"
x86_64 = { version = "=0.15.5", default-features = false, features = ["instructions"] }
bootloader_api = "0.11"
spin = "0.9"
linked_list_allocator = "0.10"
uart_16550 = "=0.3.2"
pc-keyboard = "*"
