[package]
name = "mytoken"
version = "0.1.0"
edition = "2021"
publish = false

[dependencies]
ink_primitives = "3.4.0"
ink_env = "3.4.0"
ink_storage = "3.4.0"
ink_lang = "3.4.0"
ink_metadata = "3.4.0"
parity-scale-codec = { version = "3", features = ["derive"] }
scale-info = { version = "2", features = ["derive"] }
