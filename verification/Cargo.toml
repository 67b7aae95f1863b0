[package]
name = "keet"
version = "0.1.0"
edition = "2021"
publish = false

[dependencies]
audioadapter-buffers = "2"
cpal = "0.17"
crossterm = "0.29"
ratatui = { version = "0.30", default-features = false, features = ["crossterm_0_29", "std"] }
rtrb = "0.3"
rubato = "1"
serde = { version = "1", features = ["derive"] }
serde_json = "1"
symphonia = { version = "0.5", features = ["all"] }
ureq = { version = "3", default-features = false, features = ["native-tls"] }
