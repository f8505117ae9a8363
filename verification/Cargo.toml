[package]
name = "retris"
version = "0.1.0"
edition = "2021"
publish = false

[dependencies]
rand = "=0.8.8"
cursive = { version = "=0.21.1", default-features = false }
cursive_core = "=0.4.7"
wasm-bindgen = "=0.2.129"
wasm-bindgen-futures = "=0.4.79"
js-sys = "=0.3.106"
web-sys = { version = "=0.3.106", features = ["CanvasRenderingContext2d", "Document", "Element", "EventTarget", "HtmlCanvasElement", "HtmlElement", "KeyboardEvent", "Window", "console"] }
