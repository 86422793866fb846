[package]
name = "netman-h"
version = "0.1.0"
edition = "2021"
publish = false

[dependencies]
dirs = "5"
glib = "0.20"
gtk4 = { version = "0.9", features = ["v4_12"] }
libadwaita = { version = "0.7", features = ["v1_6"] }
