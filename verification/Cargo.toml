[package]
name = "hatrack"
version = "0.1.0"
edition = "2021"
publish = false

[dependencies]
axum = "=0.8.9"
clap = { version = "=4.6.7", features = ["derive"] }
dashmap = "=6.2.1"
futures-util = "=0.3.34"
http-body-util = "=0.1.5"
hyper = "=1.12.0"
hyper-util = { version = "=0.1.21", features = ["client", "client-legacy", "http1", "tokio"] }
jemalloc_pprof = "=0.9.0"
kubert-prometheus-process = "=0.2.3"
pprof = { version = "=0.15.0", features = ["protobuf-codec"] }
prometheus-client = "=0.23.1"
serde = { version = "1", features = ["derive"] }
tikv-jemallocator = { version = "=0.7.0", features = ["profiling", "unprefixed_malloc_on_supported_platforms"] }
tokio = { version = "1", features = ["full"] }
tracing = "0.1"
tracing-logfmt = "=0.3.7"
tracing-subscriber = { version = "0.3", features = ["env-filter"] }
url = "=2.5.8"
xxhash-rust = { version = "=0.8.19", features = ["xxh3"] }
