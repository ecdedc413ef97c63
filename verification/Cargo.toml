[package]
name = "directive_line"
version = "0.1.0"
edition = "2021"
publish = false

[dependencies]
serde = { version = "1", features = ["derive"] }
strum = { version = "*", features = ["derive"] }
wasm-bindgen = "0.2"
web-sys = { version = "0.3", features = [
    "console",
    "CssStyleDeclaration",
    "Document",
    "DomRect",
    "Element",
    "Event",
    "EventTarget",
    "HtmlElement",
    "KeyboardEvent",
    "Node",
    "Range",
    "Selection",
    "Window",
] }
