[package]
name = "sstp_proto"
version = "0.1.0"
edition = "2021"
publish = false

[dependencies]
des = "=0.8.1"
md4 = "=0.10.2"
sha1 = "=0.10.7"
sha2 = "=0.10.9"
hmac = "=0.12.1"
rand = "=0.9.5"
uuid = { version = "=1.29.0", features = ["v4"] }
tokio = { version = "=1.54.1", features = ["full"] }
native-tls = "=0.2.18"
tokio-native-tls = "=0.3.1"
libc = "=0.2.191"
dirs = "=6.0.0"
serde = { version = "=1.0.229", features = ["derive"] }
serde_json = "=1.0.154"
image = { version = "=0.25.10", default-features = false, features = ["png"] }
eframe = { version = "=0.34.3", default-features = false, features = ["default_fonts", "glow", "x11"] }
muda = { version = "=0.21.2", default-features = false }
tray-icon = { version = "=0.26.1", default-features = false }
objc2 = "=0.6.5"
objc2-app-kit = { version = "=0.3.2", default-features = false, features = ["std", "NSApplication", "NSResponder"] }
