[package]
name = "asayake"
version = "0.1.0"
edition = "2021"
publish = false

[dependencies]
image = { version = "0.24", default-features = false, features = ["png"] }
base64 = "0.21"
fxhash = "0.2"
serde = { version = "1", features = ["derive"] }
serde-wasm-bindgen = "0.6"
wasm-bindgen = "0.2"
js-sys = "0.3"
gloo = { version = "0.11", default-features = false, features = ["console"] }
yew = { version = "0.21", features = ["csr"] }
console_error_panic_hook = "0.1"
thiserror = "1"

[dev-dependencies]
rand = "0.8"
