[package]
name = "daw_engine"
version = "0.1.0"
edition = "2021"
publish = false

[dependencies]
rtrb = "0.3"
cpal = "0.15"
symphonia = { version = "0.5", default-features = false, features = ["wav", "pcm"] }
serde = { version = "1", features = ["derive"] }
serde_json = "1"
flutter_rust_bridge = "2"

[dev-dependencies]
assert_no_alloc = "1"
