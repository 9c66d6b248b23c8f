[package]
name = "multiagent"
version = "0.1.0"
edition = "2021"

[dependencies]
enum-iterator = "0.6"
