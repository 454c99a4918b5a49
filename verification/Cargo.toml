[package]
name = "wavly"
version = "0.1.0"
edition = "2021"
publish = false

[dependencies]
anyhow = "=1.0.104"
clap = { version = "=4.6.7", features = ["derive"] }
crossterm = "=0.29.0"
ratatui = "=0.30.2"
rayon = "=1.12.0"
stratum-dsp = "=1.0.0"
symphonia = { version = "=0.5.5", features = ["all"] }
walkdir = "=2.5.0"
