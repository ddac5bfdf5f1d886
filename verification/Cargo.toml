[package]
name = "minilauncher"
version = "0.1.0"
edition = "2021"
publish = false

[dependencies]
nucleo-matcher = "*"
unidecode = "*"
hex_color = "*"
rust-ini = "*"
strip-ansi-escapes = "*"
dirs-next = "*"
sys-locale = "*"
serde = { version = "1", features = ["derive"] }
serde_json = "1"
toml = "*"
rkyv = "*"
clap = { version = "4", features = ["derive"] }
anstyle = "*"
ctrlc = "*"
env_logger = "*"
log = "0.4"
notify = "*"
notify-debouncer-full = "*"
