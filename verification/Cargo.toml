[package]
name = "oapi_codegen"
version = "0.1.0"
edition = "2021"
publish = false

[dependencies]
anyhow = "1"
clap = { version = "4", features = ["derive"] }
heck = "0.5"
openapiv3 = "2"
prettyplease = "0.2"
quote = "1"
serde_yaml = "0.9"
syn = { version = "2", features = ["full"] }
textwrap = "0.16"
