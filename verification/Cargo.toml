[package]
name = "async_in_embedded"
version = "0.1.0"
edition = "2021"
publish = false

[dependencies]
chrono = { version = "0.4", default-features = false }
embedded-hal = "1"
stm32f4xx-hal = { version = "*", features = ["stm32f411"] }
