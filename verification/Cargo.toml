[package]
name = "vaporpay"
version = "0.1.0"
edition = "2021"
publish = false

[dependencies]
anyhow = "1"
chrono = { version = "0.4", default-features = false, features = ["std"] }
clap = { version = "4", features = ["derive"] }
dotenv = "0.15"
ethers = { version = "2.0", default-features = false }
hex = "0.4"
image = { version = "0.25", default-features = false, features = ["png"] }
qrcode = { version = "0.14", default-features = false }
rand = "0.8"
sha3 = "0.10"
tokio = { version = "1", features = ["macros", "rt-multi-thread"] }
