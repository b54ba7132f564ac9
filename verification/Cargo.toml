[package]
name = "flowly_gui"
version = "0.1.0"
edition = "2021"
publish = false

[dependencies]
rustls-pemfile = "=1.0.4"
x509-parser = "=0.15.1"
base64 = "=0.21.7"
http = "=0.2.12"
serde = { version = "=1.0.229", features = ["derive"] }
serde_json = "=1.0.154"
nix = { version = "=0.27.1", features = ["user"] }
winreg = "=0.52.0"
windows-sys = { version = "=0.52.0", features = ["Win32_Networking_WinInet", "Win32_Foundation", "Win32_Security_Cryptography"] }
