[package]
name = "markov_music"
version = "0.1.0"
edition = "2021"
publish = false

[dependencies]
rand = "0.8"
serde = { version = "1", features = ["derive"] }
rmp-serde = "1"
toml = "0.8"
clap = "2"
diesel = { version = "2", default-features = false, features = ["sqlite"] }
log = "0.4"
simple-logging = "2"
mpd = "0.1"
pancurses = "0.17"
