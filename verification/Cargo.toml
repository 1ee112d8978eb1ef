[package]
name = "synth"
version = "0.1.0"
edition = "2021"
publish = false

[dependencies]
anyhow = "1"
cpal = "0.13"
ringbuf = "0.2"
