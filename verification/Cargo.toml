[package]
name = "combs_models"
version = "0.1.0"
edition = "2021"
publish = false

[dependencies]
burn = { version = "=0.21.0", default-features = false, features = ["ndarray"] }
burn-cubecl = { version = "=0.21.0", default-features = false, features = ["fusion", "template"] }
burn-cubecl-fusion = { version = "=0.21.0", default-features = false }
burn-fusion = { version = "=0.21.0", default-features = false }
burn-ir = { version = "=0.21.0", default-features = false }
cubecl = { version = "=0.10.0", default-features = false }
thiserror = "2"
