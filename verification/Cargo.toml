[package]
name = "am4"
version = "0.1.0"
edition = "2021"
publish = false

[dependencies]
jaro_winkler = "0.1"
csv = "1"
serde = { version = "1", features = ["derive"] }
thiserror = "1"
leptos = "0.6"
