[package]
name = "winbooster"
version = "1.0.2"
edition = "2021"
publish = false

[dependencies]
crossterm = "0.27"
glob = "0.3"
inquire = "0.7"
tabled = "0.15"
whoami = "1"
