[package]
name = "esp32c6-probe"
version = "0.1.0"
edition = "2021"
publish = false

[dependencies]
embassy-executor = { version = "=0.7.0", features = ["task-arena-size-20480"] }
embassy-futures = "=0.1.2"
embassy-net = { version = "=0.7.0", features = ["dhcpv4", "dns", "medium-ethernet", "proto-ipv4", "tcp", "udp"] }
embassy-sync = "=0.7.2"
embassy-time = "=0.4.0"
embedded-io-async = "=0.6.1"
embedded-storage = "=0.3.2"
esp-alloc = "=0.8.0"
esp-backtrace = { version = "=0.17.0", features = ["esp32c6", "panic-handler", "println"] }
esp-bootloader-esp-idf = { version = "=0.2.0", features = ["std"] }
esp-hal = { version = "=1.0.0-rc.0", features = ["esp32c6", "unstable"] }
esp-hal-embassy = { version = "=0.9.1", features = ["esp32c6"] }
esp-println = { version = "=0.15.0", features = ["esp32c6", "log-04"] }
esp-storage = { version = "=0.7.0", features = ["esp32c6"] }
esp-wifi = { version = "=0.15.1", features = ["esp32c6", "wifi", "smoltcp", "esp-alloc"] }
hdc302x = "=0.5.0"
heapless = "=0.8.0"
log = "0.4"
reqwless = { version = "=0.13.0", default-features = false }
rust-mqtt = { version = "=0.3.1", default-features = false }
serde = { version = "1", default-features = false, features = ["derive"] }
serde-json-core = "=0.6.0"
static_cell = "=2.1.1"
