[package]
name = "ssh4"
version = "0.1.0"
edition = "2021"
publish = false

[dependencies]
unicode-width = "=0.1.14"
vt100 = "=0.15.2"
crossterm = { version = "=0.28.1", default-features = false, features = ["events", "bracketed-paste"] }
arboard = "=3.7.0"
chrono = { version = "=0.4.45", default-features = false, features = ["clock", "std"] }
clap = { version = "=4.6.7", default-features = false, features = ["std", "derive", "help", "usage", "error-context"] }
image = { version = "=0.25.10", default-features = false, features = ["png"] }
serde = { version = "=1.0.229", features = ["derive"] }
toml = "=0.8.23"
ssh-rs = { version = "=0.5.0", features = ["scp"] }
