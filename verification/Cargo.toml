[package]
name = "todomvc"
version = "0.1.0"
edition = "2021"
publish = false

[dependencies]
wasm-bindgen = "0.2"
js-sys = "0.3"

[dependencies.web-sys]
version = "0.3"
features = ["console", "Document", "DomStringMap", "DomTokenList", "Element", "Event", "EventTarget", "HtmlElement", "HtmlInputElement", "KeyboardEvent", "Location", "Node", "NodeList", "Storage", "Window"]
