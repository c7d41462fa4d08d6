[package]
name = "regexplain"
version = "0.1.0"
edition = "2021"
publish = false

[dependencies]
regex = "1"
regex-syntax = "0.8"
textwrap = "0.16"
clap = { version = "4", features = ["derive"] }
crossterm = { version = "0.29", features = ["osc52"] }
ratatui = "*"
tui-textarea-2 = "*"
