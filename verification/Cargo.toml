[package]
name = "living_edit"
version = "0.1.0"
edition = "2021"
publish = false

[dependencies]
diamond-types = "=1.0.0"
tokio = { version = "=1.54.1", features = ["sync"] }
actix = "=0.13.5"
# Nothing here calls actix-web. actix-web-actors is built against its
# websocket support, which is off unless some crate of the build asks for it.
actix-web = { version = "=4.18.1", default-features = false, features = ["ws"] }
actix-web-actors = "4"
log = "=0.4.34"
serde = { version = "=1.0.229", features = ["derive"] }
