[package]
name = "process_viewer"
version = "0.1.0"
edition = "2021"
publish = false

[dependencies]
glib = "0.9"
gtk = "0.8"
sysinfo = "0.13"
