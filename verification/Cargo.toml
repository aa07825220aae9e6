[package]
name = "clickhouse"
version = "0.1.0"
edition = "2021"
publish = false

[dependencies]
bstr = { version = "1", default-features = false, features = ["std"] }
bytes = "1"
futures-util = { version = "0.3", default-features = false, features = ["std"] }
http-body-util = "0.1"
hyper = { version = "1", features = ["client", "http1"] }
hyper-rustls = { version = "0.27", default-features = false, features = ["http1", "ring", "webpki-roots"] }
hyper-util = { version = "0.1", features = ["client", "client-legacy", "http1", "tokio"] }
rustls = { version = "0.23", default-features = false, features = ["ring", "std", "tls12"] }
thiserror = "2"
tokio = { version = "1", features = ["io-util", "macros", "net", "rt", "rt-multi-thread", "sync", "time"] }
tracing = "0.1"
url = "2"
uuid = { version = "1", features = ["v7"] }
