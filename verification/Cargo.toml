[package]
name = "figif"
version = "0.1.0"
edition = "2021"
publish = false

[dependencies]
gif = "=0.13.3"
image = { version = "=0.25.10", default-features = false }
img_hash = "=3.2.0"
rayon = "=1.12.0"
clap = { version = "=4.6.7", features = ["derive"] }
clap_complete = "=4.6.11"
serde = { version = "=1.0.229", features = ["derive"] }
serde_json = "=1.0.154"
console = "=0.15.11"
dialoguer = "=0.11.0"
indicatif = "=0.17.11"
thiserror = "=2.0.21"
toml = "=0.8.23"
ratatui = "0.29"
crossterm = "0.28"
