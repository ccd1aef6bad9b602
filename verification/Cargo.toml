[package]
name = "tauri-runtime-cef"
version = "0.1.0"
edition = "2021"
publish = false

[dependencies]
url = "=2.5.8"
http = "=1.5.0"
html5ever = "0.29"
kuchikiki = "0.8.8-speedreader"
tauri-utils = { version = "=2.8.3", features = ["html-manipulation"] }
cef = { version = "*", default-features = false }
