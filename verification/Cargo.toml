[package]
name = "waffy"
version = "0.1.0"
edition = "2021"
publish = false

[dependencies]
sublime_fuzzy = "0.7"
serde = { version = "1", features = ["derive"] }
json5 = "0.2"
once_cell = "1"
dirs = "3"
rust-embed = "5"
gtk = "0.8"
gdk = "0.12"
glib = "0.9"
gdk-pixbuf = "0.8"
pango = "0.8"
gtk-layer-shell = "*"
