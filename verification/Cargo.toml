[package]
name = "surf_cookie_middleware"
version = "0.1.0"
edition = "2021"
publish = false

[dependencies]
cookie_store = "*"
url = "*"
surf = { version = "*", default-features = false, features = ["h1-client"] }
async-std = "*"
async-dup = "*"
log = "*"
