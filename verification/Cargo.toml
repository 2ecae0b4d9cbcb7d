[package]
name = "combat_tracker"
version = "0.1.0"
edition = "2021"
publish = false

[dependencies]
clap = { version = "4", features = ["derive"] }
log = "0.4"
ratatui = "0.29"
simplelog = "0.12"
tui-textarea = "0.7"
