[package]
name = "midi_sequencer"
version = "0.1.0"
edition = "2021"
publish = false

[dependencies]
gloo-timers = "0.2"
js-sys = "0.3"
wasm-bindgen = "0.2"
web-sys = { version = "0.3", features = ["Blob", "CssStyleDeclaration", "Document", "DomRect", "Element", "Event", "EventTarget", "HtmlAnchorElement", "HtmlElement", "HtmlInputElement", "HtmlSelectElement", "MidiAccess", "MidiOutput", "MidiOutputMap", "MouseEvent", "Navigator", "Node", "SvgAnimatedLength", "SvgLength", "SvgLineElement", "Url", "Window"] }
yew = "0.19"
