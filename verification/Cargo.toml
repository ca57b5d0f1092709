[package]
name = "apxinf_ascend"
version = "0.1.0"
edition = "2021"
publish = false

[dependencies]
bytemuck = "1"
half = { version = "2", features = ["bytemuck"] }
libloading = "0.8"
thiserror = "2"
