[package]
name = "authy_decryptor"
version = "0.1.0"
edition = "2021"
publish = false

[dependencies]
aes = "=0.8.4"
base64 = "=0.22.1"
cbc = { version = "=0.1.2", features = ["block-padding"] }
clap = { version = "=4.6.7", features = ["derive"] }
csv = "=1.4.0"
data-encoding = "=2.11.1"
eframe = { version = "0.29", default-features = false, features = ["default_fonts", "glow", "x11"] }
egui = "0.29"
hex = "=0.4.3"
hmac = "=0.12.1"
pbkdf2 = { version = "=0.12.2", features = ["hmac"] }
rfd = { version = "0.15", default-features = false, features = ["xdg-portal", "tokio"] }
rpassword = "=7.5.4"
serde = { version = "=1.0.229", features = ["derive"] }
serde_json = "=1.0.154"
sha1 = "=0.10.7"
uuid = { version = "=1.29.1", features = ["v4"] }
