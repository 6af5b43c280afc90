[package]
name = "sexpr_core"
version = "0.1.0"
edition = "2021"
publish = false

[dependencies]
bytes = "1"
chrono = { version = "0.4", default-features = false, features = ["std"] }
clap = { version = "4", features = ["derive"] }
indexmap = "2"
lazy_static = "1"
nom = "8"
sha2 = "0.10"
thiserror = "1"
