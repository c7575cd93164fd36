[package]
name = "ferric"
version = "0.1.0"
edition = "2021"
publish = false

[dependencies]
chrono = "0.4"
thiserror = "2"
wasm-bindgen = "0.2"
web-sys = { version = "0.3", features = ["HtmlPreElement", "HtmlElement", "Element", "Node", "EventTarget"] }
