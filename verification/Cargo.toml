[package]
name = "belote"
version = "0.1.0"
edition = "2021"
publish = false

[dependencies]
rand = "0.8"
actix-web = { version = "4", default-features = false, features = ["macros"] }
actix-ws = "0.3"
futures-util = "0.3"
