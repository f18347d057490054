[package]
name = "promptr"
version = "0.1.0"
edition = "2021"
publish = false

[dependencies]
nucleo-matcher = "=0.3.1"
ratatui-textarea = { version = "=0.9.4", features = ["search"] }
regex = "=1.13.1"
ratatui = "=0.30.2"
crossterm = "=0.29.0"
clap = { version = "=4.6.7", features = ["derive", "env"] }
serde = { version = "=1.0.229", features = ["derive"] }
serde_json = "=1.0.154"
rusqlite = { version = "=0.41.1", features = ["bundled", "backup"] }
sha2 = "=0.10.9"
tempfile = "=3.27.0"
fs2 = "=0.4.3"
directories = "=6.0.0"
toml_edit = { version = "=0.25.17", features = ["serde"] }
thiserror = "=2.0.21"
bitflags = { version = "=2.13.2", features = ["serde"] }
arboard = "=3.7.0"
ctrlc = "=3.5.2"
