[package]
name = "dataplot"
version = "0.1.0"
edition = "2021"
publish = false

[dependencies]
yew = "0.21"
wasm-bindgen = "0.2"
web-sys = { version = "0.3", features = ["Window", "HtmlCanvasElement", "CanvasRenderingContext2d", "HtmlInputElement"] }
