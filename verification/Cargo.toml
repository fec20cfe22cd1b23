[package]
name = "habits_display"
version = "0.1.0"
edition = "2021"
publish = false

[dependencies]
heapless = "0.8"
defmt = "*"
edge-ws = { version = "*", features = ["io"] }
embassy-executor = "*"
embassy-net = { version = "*", features = ["dns", "udp", "tcp", "proto-ipv4", "medium-ip"] }
embassy-sync = "*"
embassy-time = "*"
embedded-graphics = "*"
embedded-hal-bus = "*"
embedded-io-async = "*"
embedded-tls = { version = "*", default-features = false }
esp-alloc = "*"
esp-bootloader-esp-idf = { version = "*", features = ["esp32c3"] }
esp-hal = { version = "*", features = ["esp32c3", "unstable"] }
esp-rtos = { version = "*", features = ["esp32c3", "embassy"] }
mipidsi = "*"
panic-rtt-target = "*"
rand_core = "0.6"
rtt-target = "*"
sntpc = { version = "*", default-features = false }
sntpc-net-embassy = "*"
static_cell = "*"
