[package]
name = "child_writer"
version = "0.1.0"
edition = "2021"
publish = false

[dependencies]
async-lock = "3"
async-process = "2"
bstr = "1"
futures-lite = "2"
mlua = { version = "*", features = ["luau", "async"] }
rbx_dom_weak = "*"
