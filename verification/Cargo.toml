[package]
name = "auctmah"
version = "0.1.0"
edition = "2021"
publish = false

[dependencies]
wasm-bindgen = "=0.2.129"
js-sys = "=0.3.106"
web-sys = { version = "=0.3.106", features = ["Window", "Document", "Element", "HtmlCanvasElement", "CanvasRenderingContext2d", "WebSocket", "MessageEvent", "Location", "console"] }
