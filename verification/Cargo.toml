[package]
name = "bluebubbles"
version = "0.1.0"
edition = "2021"
publish = false

[dependencies]
serde_json = { version = "=1.0.154", features = ["float_roundtrip"] }
url = "=2.5.8"
serde = { version = "=1.0.229", features = ["derive"] }
reqwest = { version = "=0.11.27", features = ["json"] }
tokio = { version = "=1.54.1", features = ["rt-multi-thread", "macros", "time"] }
tokio-tungstenite = "=0.20.1"
rusqlite = { version = "=0.29.0", features = ["bundled"] }
directories = "=5.0.1"
toml = "=0.8.2"
once_cell = "=1.21.4"
glib = "=0.18.5"
gtk4 = "=0.7.3"
libadwaita = "=0.5.3"
