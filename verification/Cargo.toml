[package]
name = "blobary"
version = "0.1.0"
edition = "2021"
publish = false

[dependencies]
argfile = "*"
blake3 = { version = "1", features = ["mmap"] }
bs58 = "*"
cap-std = "*"
cap-tempfile = "*"
clap = { version = "4", features = ["derive"] }
dotenvy = "*"
infer = "*"
libflate = "*"
lz4_flex = "*"
tar = "*"
thiserror = "*"
url = "2"
wild = "*"
