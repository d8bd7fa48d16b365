[package]
name = "minesweeper"
version = "0.1.0"
edition = "2021"
publish = false

[dependencies]
getrandom = "=0.2.17"
wasm-bindgen = "=0.2.129"
console_error_panic_hook = "=0.1.7"
web-sys = { version = "=0.3.106", features = ["console", "Window", "Document", "Element", "HtmlCanvasElement", "CanvasRenderingContext2d", "MouseEvent", "EventTarget", "Event"] }
