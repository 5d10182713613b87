[package]
name = "touchhle"
version = "0.1.0"
edition = "2021"
publish = false

[dependencies]
mach_object = "=0.1.17"
ureq = "2"
zip = { version = "*", default-features = false, features = ["deflate"] }
