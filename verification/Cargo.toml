[package]
name = "jbx"
version = "0.1.0"
edition = "2021"
publish = false

[dependencies]
anyhow = "=1.0.104"
base64 = "=0.22.1"
clap = { version = "=4.6.7", features = ["derive"] }
dirs = "=5.0.1"
flate2 = "=1.1.10"
md-5 = "0.10"
quick-xml = "=0.37.5"
quick_html2md = "*"
regex = "=1.13.1"
serde_json = "=1.0.154"
sha1 = "=0.10.7"
sha2 = "=0.10.9"
tar = "=0.4.46"
ureq = "=2.12.1"
walkdir = "=2.5.0"
which = "=6.0.3"
zip = "=2.6.1"
