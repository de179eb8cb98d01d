[package]
name = "ratex-canvas"
version = "0.1.0"
edition = "2021"
publish = false

[dependencies]
ab_glyph = "0.2"
ratex-font = "0.1"
ratex-font-loader = { version = "0.1", features = ["embed-fonts"] }
ratex-layout = "0.1.14"
ratex-parser = "0.1.14"
ratex-types = "0.1"
