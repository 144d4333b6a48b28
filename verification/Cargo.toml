[package]
name = "drosophila"
version = "0.1.0"
edition = "2021"
publish = false

[dependencies]
url = "=2.5.8"
regex = "=1.13.1"
rand = "=0.8.8"
serde = { version = "=1.0.229", features = ["derive"] }
serde_json = "=1.0.154"
toml = "=1.1.8"
tokio = { version = "=1.54.1", features = ["full"] }
tokio-util = { version = "=0.7.20", features = ["codec"] }
futures = "=0.3.34"
anyhow = "=1.0.104"
tracing = "=0.1.44"
tracing-subscriber = { version = "=0.3.23", features = ["env-filter"] }
reqwest = { version = "=0.13.5", features = ["json"] }
tempfile = "=3.27.0"
directories = "=6.0.0"
gtk4 = { version = "=0.11.5", features = ["v4_12"] }
libadwaita = { version = "=0.9.2", features = ["v1_6"] }
tokio-smoltcp = "=0.7.0"
capctl = "=0.2.4"
nix = { version = "=0.31.3", features = ["user"] }
runas = "=1.2.0"
windows-sys = { version = "=0.61.2", features = ["Win32_Foundation", "Win32_Networking_WinInet", "Win32_System_Console"] }
