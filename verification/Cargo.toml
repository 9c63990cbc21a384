[package]
name = "send_multipart"
version = "0.1.0"
edition = "2021"
publish = false

[dependencies]
bytes = "=1.12.1"
http = "=0.2.12"
mime = "=0.3.17"
thiserror = "=1.0.69"

[dev-dependencies]
futures = "=0.3.34"
multer = "=2.1.0"
