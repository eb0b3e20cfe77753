[package]
name = "openbarista"
version = "0.1.0"
edition = "2021"
publish = false

[dependencies]
anyhow = "1"
embassy-futures = "*"
embassy-sync = "*"
embedded-hal = "1"
embedded-svc = "*"
esp32-nimble = "*"
esp-idf-hal = "*"
esp-idf-svc = "*"
form_urlencoded = "1"
log = "0.4"
serde = { version = "1", features = ["derive"] }
