[package]
name = "adsys_mount"
version = "0.1.0"
edition = "2021"
publish = false

[dependencies]
clap = { version = "4", features = ["derive"] }
gio = "0.18"
glib = "0.18"
log = "0.4"
