[package]
name = "nimbus_rendezvous"
version = "0.1.0"
edition = "2021"
publish = false

[dependencies]
sodiumoxide = "*"
zstd = "*"
tokio = { version = "*", features = ["full"] }
tokio-util = { version = "*", features = ["codec", "net"] }
tokio-tungstenite = "*"
bytes = "*"
futures-util = "*"
anyhow = "*"
socket2 = "*"
local-ip-address = "*"
