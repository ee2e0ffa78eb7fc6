[package]
name = "kernel_core"
version = "0.1.0"
edition = "2021"
publish = false

[dependencies]
crossbeam-queue = "*"
pc-keyboard = "*"
noto-sans-mono-bitmap = "*"
x86_64 = "*"
x86 = "*"
acpi = "*"
bootloader_api = "*"
conquer-once = "*"
lazy_static = "*"
spin = "*"
spinning_top = "*"
pic8259 = "*"
futures-util = "*"
log = "*"
