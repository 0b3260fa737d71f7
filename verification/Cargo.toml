[package]
name = "html_dom"
version = "0.1.0"
edition = "2021"
publish = false

[dependencies]
html5ever = "=0.26.0"
html-tags = { version = "=0.0.12", default-features = false, features = ["alloc"] }
slotmap = "=1.1.1"
tracing = "=0.1.44"
