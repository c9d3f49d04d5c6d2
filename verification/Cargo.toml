[package]
name = "player_store"
version = "0.1.0"
edition = "2021"
publish = false

[dependencies]
sled = "*"
chrono = "*"
sha2 = "*"
json = "*"
zip = "*"
