[package]
name = "chess_trainer"
version = "0.1.0"
edition = "2021"
publish = false

[dependencies]
pleco = "0.5"
rand = "0.8"
ndarray = "0.15"
nevermind-neu = "*"
rusqlite = "*"
clap = "3.2"
env_logger = "0.10"
log = "0.4"
serde = "1"
