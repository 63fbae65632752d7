[package]
name = "luasys"
version = "0.1.0"
edition = "2021"
publish = false

[dependencies]
rlua = "=0.17.1"
rlua_serde = "=0.4.0"
sdl2 = { version = "=0.38.0", features = ["unsafe_textures"] }
serde = { version = "=1.0.229", features = ["derive"] }
serde_json = "=1.0.154"
