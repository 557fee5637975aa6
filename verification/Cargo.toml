[package]
name = "lingo"
version = "0.2.0"
edition = "2021"
publish = false

[dependencies]
versions = "6"
sha1 = "0.10"
url = "2"
rayon = "1"
clap = { version = "4", features = ["derive"] }
serde = { version = "1", features = ["derive"] }
serde_json = "1"
toml = "0.8"
git2 = "0.18"
which = "6"
log = "0.4"
print_logger = "*"
colored = "2"
tempfile = "3"
regex = "1"
lazy_static = "1"
crossbeam = "0.8"
