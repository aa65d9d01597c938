[package]
name = "i2c_core"
version = "0.1.0"
edition = "2021"
publish = false

[dependencies]
embedded-hal = "0.2"
stm32h7 = { version = "*", default-features = false, features = ["stm32h743"] }
