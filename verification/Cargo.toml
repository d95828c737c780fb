[package]
name = "localdrop"
version = "1.0.0"
edition = "2021"
publish = false

[dependencies]
whoami = "1"
uuid = { version = "1", features = ["v4"] }
url = "2"
if-addrs = "*"
local-ip-address = "*"
sysinfo = "*"
serde = { version = "1", features = ["derive"] }
serde_json = "1"
tokio = { version = "1", features = ["full"] }
tokio-util = "0.7"
thiserror = "2"
tracing = "0.1"
tracing-subscriber = { version = "0.3", features = ["env-filter"] }
async-walkdir = "*"
futures-lite = "2"
