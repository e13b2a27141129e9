[package]
name = "teleinfo_reader"
version = "0.3.0"
edition = "2021"
publish = false

[dependencies]
chrono = { version = "=0.4.45", features = ["serde"] }
chrono-tz = "=0.5.3"
clap = "=2.34.0"
cron = "=0.6.1"
csv = "=1.4.0"
diesel = { version = "=1.4.8", features = ["postgres", "chrono"] }
dotenv = "=0.15.0"
log = "=0.4.34"
rand = "=0.7.3"
regex = "=1.13.1"
serde = { version = "=1.0.229", features = ["derive"] }
serde_json = "=1.0.154"
serialport = { version = "=3.3.0", default-features = false }
