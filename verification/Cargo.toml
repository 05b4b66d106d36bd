[package]
name = "hover_train"
version = "0.1.0"
edition = "2021"
publish = false

[dependencies]
bevy = { version = "0.16", default-features = false, features = ["std", "bevy_asset", "bevy_color", "bevy_core_pipeline", "bevy_pbr", "bevy_render", "bevy_text", "bevy_ui", "bevy_window", "default_font"] }
console_error_panic_hook = "0.1"
console_log = "1"
futures = "=0.3.34"
js-sys = "0.3"
log = "=0.4.35"
rand = "=0.8.8"
serde = { version = "=1.0.229", features = ["derive"] }
serde_json = "=1.0.154"
tokio = { version = "=1.54.1", features = ["rt-multi-thread", "macros"] }
tokio-tungstenite = "=0.23.1"
tungstenite = "=0.23.0"
uuid = { version = "=1.29.0", features = ["v4", "serde"] }
wasm-bindgen = "0.2"
wasm-bindgen-futures = "0.4"
web-sys = { version = "0.3", features = ["BinaryType", "ErrorEvent", "Event", "Location", "MessageEvent", "WebSocket", "Window"] }
