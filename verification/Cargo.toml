[package]
name = "gitspark"
version = "0.1.0"
edition = "2021"
publish = false

[dependencies]
syntect = { version = "=5.3.0", default-features = false, features = ["default-syntaxes", "default-themes", "regex-fancy", "parsing"] }
rfd = { version = "=0.17.2", default-features = false, features = ["xdg-portal"] }
open = "=5.4.5"
rust-embed = "=8.13.0"
once_cell = "=1.21.4"
