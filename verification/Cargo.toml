[package]
name = "happy-ip-scanner"
version = "0.1.0"
edition = "2021"
publish = false

[dependencies]
ipnet = "2"
local-ip-address = "*"
clap = { version = "4", features = ["derive"] }
comfy-table = "*"
csv = "1"
dns-lookup = "*"
eframe = { version = "*", default-features = false, features = ["glow", "x11", "default_fonts"] }
egui = { version = "*", default-features = false }
egui_extras = { version = "*", default-features = false }
indicatif = "*"
libc = "0.2"
open = "*"
rfd = { version = "*", default-features = false, features = ["xdg-portal", "tokio"] }
serde = { version = "1", features = ["derive"] }
serde_json = "1"
tokio = { version = "1", features = ["full"] }
