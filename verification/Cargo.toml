[package]
name = "animato"
version = "0.7.0"
edition = "2021"
publish = false

[dependencies]
palette = "0.7"
