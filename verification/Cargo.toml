[package]
name = "liquidation_bot"
version = "0.1.0"
edition = "2021"
publish = false

[dependencies]
alloy-primitives = { version = "=1.7.3", default-features = false, features = ["std"] }
async-trait = "0.1"
axum = { version = "0.8", default-features = false, features = ["http1", "json", "tokio"] }
bitvec = "=1.1.1"
chrono = { version = "0.4", default-features = false, features = ["now", "std"] }
clap = { version = "4", default-features = false, features = ["std", "derive", "help", "usage"] }
dashmap = "=6.2.1"
eyre = "0.6"
futures = { version = "0.3", default-features = false, features = ["std"] }
itertools = "=0.14.0"
ndarray = "=0.16.1"
rand = { version = "=0.9.5", default-features = false, features = ["std", "thread_rng", "std_rng"] }
serde = { version = "1", features = ["derive"] }
tokio = { version = "1", default-features = false, features = ["macros", "net", "rt-multi-thread", "sync", "time"] }
tracing = { version = "0.1", default-features = false, features = ["std"] }
tracing-appender = "0.2"
tracing-subscriber = { version = "0.3", default-features = false, features = ["ansi", "std", "fmt", "env-filter", "json", "registry"] }
