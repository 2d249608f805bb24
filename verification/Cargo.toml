[package]
name = "mplz_core"
version = "0.1.0"
edition = "2021"
publish = false

[dependencies]
rand = "0.8"
serde = { version = "1", features = ["derive"] }
serde_json = "1"
calamine = "0.22"
tui = "0.19"
crossterm = "0.25"
actix-web = { version = "4", default-features = false, features = ["macros"] }
actix-cors = "0.6"
actix-files = "0.6"
