[package]
name = "mimebind"
version = "0.1.0"
edition = "2021"
publish = false

[dependencies]
gtk4 = { version = "0.10", features = ["v4_12"] }
libadwaita = { version = "0.8", features = ["v1_5"] }
glib = "0.21"
gettext-rs = "0.7"
