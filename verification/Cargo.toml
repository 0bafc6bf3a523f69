[package]
name = "music_player"
version = "0.1.0"
edition = "2021"
publish = false

[dependencies]
clap = { version = "=4.6.7", features = ["derive"] }
crossterm = "=0.29.0"
lofty = "=0.25.5"
rodio = { version = "=0.23.0", features = ["symphonia-aiff"] }
rustfft = "=6.4.1"
