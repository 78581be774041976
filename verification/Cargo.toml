[package]
name = "api_client"
version = "0.1.0"
edition = "2021"
publish = false

[dependencies]
async-trait = "*"
bytes = "*"
reqwest = { version = "*", default-features = false, features = ["multipart"] }
