[package]
name = "uchat"
version = "0.1.0"
edition = "2021"
publish = false

[dependencies]
bytes = "1"
md5 = "0.7"
rand = "0.8"
tokio = { version = "1", features = ["rt-multi-thread", "macros", "net", "time", "sync"] }
tokio-tungstenite = "0.20"
tokio-native-tls = "0.3"
native-tls = "0.2"
url = "2"
futures = "0.3"
futures-util = "0.3"
async-trait = "0.1"
log = "0.4"
simple-logging = "2"
