[package]
name = "ddv"
version = "0.1.0"
edition = "2021"
publish = false

[dependencies]
serde_json = { version = "1", features = ["arbitrary_precision"] }
rust_decimal = "1"
base64 = "0.22"
serde = { version = "1", features = ["derive"] }
toml = "*"
smart-default = "0.7"
umbra = "*"
chrono = "0.4"
clap = { version = "4", features = ["derive"] }
tokio = { version = "1", features = ["full"] }
ratatui = "0.29"
tui-input = "*"
tui-textarea = "0.7"
arboard = "3"
aws-config = "1"
aws-sdk-dynamodb = "1"
aws-smithy-types = "1"
