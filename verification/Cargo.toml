[package]
name = "twitch_chat"
version = "0.1.0"
edition = "2021"
publish = false

[dependencies]
indexmap = "2"
dotenv = "0.15"
