[package]
name = "chess_tree_eco"
version = "0.1.0"
edition = "2021"
publish = false

[dependencies]
regex = "1"
serde = { version = "1", features = ["derive"] }
serde_derive = "1"
serde_json = "1"
threadpool = "1"
num_cpus = "1"
lazy_static = "1"
mut_static = "5"
gtk = "0.18"
gdk = "0.18"
gdk-pixbuf = "0.18"
cairo-rs = "0.18"
