[package]
name = "falling_sand"
version = "0.1.0"
edition = "2021"
publish = false

[dependencies]
console_error_panic_hook = "0.1"
js-sys = "0.3"
wasm-bindgen = "0.2"
web-sys = { version = "0.3", features = ["CanvasRenderingContext2d", "Document", "DomRect", "Element", "HtmlCanvasElement", "MouseEvent", "Window"] }
