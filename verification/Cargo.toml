[package]
name = "milliblog"
version = "0.1.0"
edition = "2021"
publish = false

[dependencies]
clap = { version = "=4.6.7", features = ["derive"] }
comrak = "=0.44.0"
devserver_lib = "=0.4.2"
fs_extra = "=1.3.0"
minijinja = "=2.24.0"
serde = "=1.0.229"
