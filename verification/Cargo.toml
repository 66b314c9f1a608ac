[package]
name = "filtro"
version = "0.1.0"
edition = "2021"
publish = false

[dependencies]
image = { version = "0.25", default-features = false, features = ["png", "jpeg", "webp", "bmp", "tiff", "gif", "ico", "pnm", "tga", "qoi", "hdr", "dds", "ff"] }
thiserror = "2"
clap = { version = "4", features = ["derive"] }
