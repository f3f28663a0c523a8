[package]
name = "p_rust"
version = "0.1.0"
edition = "2021"
publish = false

[dependencies]
rusqlite = { version = "*", features = ["bundled"] }
arboard = { version = "*", default-features = false }
clipboard-master = "*"
dirs = "*"
rdev = "*"
slint = { version = "*", default-features = false, features = ["std", "compat-1-2"] }
