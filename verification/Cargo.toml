[package]
name = "feather"
version = "0.1.0"
edition = "2021"
publish = false

[dependencies]
serde = { version = "=1.0.229", features = ["derive"] }
serde_json = "=1.0.154"
clap = { version = "=4.6.7", features = ["derive"] }
dirs = "=7.0.0"
tokio = { version = "=1.54.1", features = ["rt-multi-thread", "macros", "process", "io-util", "sync", "time"] }
uuid = { version = "=1.29.0", features = ["v4"] }
chrono = "=0.4.45"
which = "=8.0.6"
image = { version = "=0.25.10", default-features = false, features = ["png", "jpeg", "webp", "gif", "bmp", "tiff"] }
webp = "=0.3.1"
oxipng = { version = "=9.1.5", default-features = false }
mozjpeg = { version = "=0.10.13", default-features = false }
ravif = { version = "=0.11.20", default-features = false }
rgb = "=0.8.53"
notify = "=8.2.1"
futures-util = "=0.3.34"
reqwest = { version = "=0.12.28", default-features = false, features = ["rustls-tls", "stream"] }
zip = { version = "=9.2.2", default-features = false, features = ["deflate"] }
trash = "5"
