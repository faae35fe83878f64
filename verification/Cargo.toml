[package]
name = "tremor-runtime"
version = "0.1.0"
edition = "2021"
publish = false

[dependencies]
actix-web = { version = "4", default-features = false }
async-std = "1"
chrono = { version = "0.4", default-features = false, features = ["clock"] }
hashbrown = "0.14"
hostname = "0.1"
http-types = "2"
libflate = "1"
log = "0.4"
serde = { version = "1", features = ["derive"] }
serde_json = "1"
serde_yaml = "0.8"
simd-json = "0.13"
surf = { version = "2", default-features = false, features = ["h1-client"] }
threadpool = "1"
