[package]
name = "pmanga"
version = "0.1.0"
edition = "2021"
publish = false

[dependencies]
urlencoding = "=2.1.3"
serde = { version = "=1.0.229", features = ["derive"] }
serde_json = "=1.0.154"
web-sys = { version = "=0.3.107", features = ["Window", "Storage", "Response", "console", "Location", "Document", "Element", "HtmlElement", "Navigator", "Gamepad", "GamepadButton"] }
js-sys = "=0.3.107"
wasm-bindgen = "=0.2.130"
wasm-bindgen-futures = "=0.4.80"
reqwest = { version = "=0.12.28", default-features = false, features = ["json"] }
