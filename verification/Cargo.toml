[package]
name = "vitric"
version = "0.1.0"
edition = "2021"
publish = false

[dependencies]
serde = { version = "1", features = ["derive"] }
serde_json = "1"
png = "*"
ab_glyph = "*"
font8x8 = "*"
rquickjs = "*"
