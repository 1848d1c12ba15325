[package]
name = "gpxwrench"
version = "0.1.0"
edition = "2021"
publish = false

[dependencies]
quick-xml = "=0.38.4"
time = { version = "=0.3.55", features = ["parsing"] }
clap = { version = "=4.6.7", features = ["derive"] }

[dev-dependencies]
gpx = "=0.10.0"
