[package]
name = "forest"
version = "0.1.0"
edition = "2021"
publish = false

[dependencies]
bcrypt = "=0.19.3"
diesel = { version = "=2.3.14", features = ["postgres", "r2d2"] }
rocket = { version = "=0.5.2", features = ["json", "secrets"] }
serde = { version = "=1.0.229", features = ["derive"] }
serde_derive = "=1.0.229"
hyper = "=0.11.27"
futures = "=0.1.31"
