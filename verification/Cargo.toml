[package]
name = "distributed_doc_system"
version = "0.1.0"
edition = "2021"
publish = false

[dependencies]
uuid = { version = "1", features = ["v4"] }
serde = { version = "1", features = ["derive"] }
serde_json = "1"
actix = "0.13"
actix-web = "4"
actix-files = "0.6"
tokio = { version = "1", features = ["full"] }
zenoh = { version = "1", default-features = false, features = ["transport_tcp"] }
