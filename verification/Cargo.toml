[package]
name = "hcxmap"
version = "0.1.0"
edition = "2021"
publish = false

[dependencies]
radiotap = "*"
pcap-file = "*"
nmea = "*"
chrono = "*"
clap = { version = "*", features = ["derive"] }
clap-help = "*"
log = "*"
pretty_env_logger = "*"
