[package]
name = "iroh_webrtc_transport"
version = "0.1.0"
edition = "2021"
publish = false

[dependencies]
anyhow = "1"
bytes = "1"
futures = "0.3"
iroh = { version = "=1.0.3", default-features = false, features = ["unstable-custom-transports", "tls-ring"] }
iroh-base = "=1.0.3"
n0-watcher = "*"
noq-udp = "*"
tokio = { version = "1", features = ["sync", "rt", "rt-multi-thread", "macros", "time"] }
send_wrapper = "*"
wasm-bindgen = "0.2"
wasm-bindgen-futures = "0.4"
js-sys = "0.3"
web-sys = { version = "0.3", features = ["RtcDataChannel", "RtcDataChannelType", "MessageEvent"] }
