[package]
name = "emojianki"
version = "0.1.0"
edition = "2021"
publish = false

[dependencies]
quick-xml = "=0.38.4"
icu_experimental = "=0.3.1"
genanki-rs-rev = "=0.2.2"
wasm-bindgen = "=0.2.130"
console_error_panic_hook = "=0.1.7"
console_log = "=1.1.0"
log = "=0.4.35"
