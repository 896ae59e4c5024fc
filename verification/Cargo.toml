[package]
name = "piki"
version = "0.1.0"
edition = "2021"
publish = false

[dependencies]
serde = { version = "=1.0.229", features = ["derive"] }
toml = "=1.1.8"
tdoc = "=0.12.3"
rtf-parser = "=0.4.3"
pulldown-cmark = "=0.13.6"
regex = "=1.13.1"
directories = "=6.0.0"
git2 = { version = "=0.21.0", default-features = false }
url = "=2.5.8"
clap = { version = "=4.6.7", features = ["derive"] }
tiny_http = "=0.12.0"
chrono = "=0.4.45"
crossterm = "=0.29.0"
ratatui = "=0.30.2"
webbrowser = "=1.2.6"
fuzzypicker = "*"
