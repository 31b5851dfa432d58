[package]
name = "rustream"
version = "0.1.0"
edition = "2021"
publish = false

[dependencies]
actix-cors = "0.7"
actix-files = "0.6"
actix-multipart = "0.6"
actix-rt = "2"
actix-web = { version = "4", features = ["openssl"] }
base64 = "0.22"
chrono = "0.4"
dotenv = "0.15"
env_logger = "0.11"
fernet = { version = "0.2", default-features = false, features = ["rustcrypto"] }
futures-util = "0.3"
log = "0.4"
minijinja = { version = "1", features = ["loader"] }
openssl = "0.10"
rand = "0.8"
serde = { version = "1", features = ["derive"] }
serde_json = "1"
sha2 = "0.10"
url = "2"
walkdir = "2"
