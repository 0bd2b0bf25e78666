[package]
name = "laser_tank"
version = "0.1.0"
edition = "2021"
publish = false

[dependencies]
postcard = "=1.1.3"
tokio = { version = "=1.54.1", features = ["macros", "net", "rt", "sync", "time"] }
gilrs = "=0.11.2"
rodio = "=0.23.0"
dioxus = { version = "=0.7.10", default-features = false, features = ["macro", "html", "hooks", "signals", "launch", "document", "asset"] }
