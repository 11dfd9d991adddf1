[package]
name = "har2openapi"
version = "0.1.0"
edition = "2021"
publish = false

[dependencies]
anyhow = "*"
clap = { version = "*", features = ["derive"] }
convert_case = "*"
har = "*"
indexmap = "*"
openapiv3-extended = "*"
serde_json = "*"
serde_yaml = "*"
url = "*"
urlparse = "*"
