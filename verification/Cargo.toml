[package]
name = "quilum"
version = "0.1.0"
edition = "2021"
publish = false

[dependencies]
chrono = "0.4"
regex = "1"
serde = { version = "1", features = ["derive"] }
serde_json = "1"
dirs = "*"
directories = "*"
desktop-edit = "*"
plist = "1"
lnk = "*"
sysinfo = "*"
tokio = { version = "1", features = ["rt-multi-thread", "macros", "time", "sync"] }
