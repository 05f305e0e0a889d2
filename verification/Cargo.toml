[package]
name = "geo_server"
version = "0.1.0"
edition = "2021"
publish = false

[dependencies]
fnv = "1"
itoa = "1"
serde_json = "1"
form_urlencoded = "1"
hyper = { version = "1", features = ["server", "http1"] }
hyper-util = { version = "0.1", features = ["tokio"] }
http-body-util = "0.1"
tokio = { version = "1", features = ["rt", "rt-multi-thread", "net", "signal", "macros"] }
async-trait = "0.1"
serde = { version = "1", features = ["derive"] }
log = "0.4"
anyhow = "1"
thiserror = "1"
compact_str = "0.7"
smallstr = "0.3"
memmap = "0.7"
persy = "1"
geo = "0.28"
localtime = "*"
appconfig = "*"
asynclog = "*"
