[package]
name = "nginx_rtmp_exporter"
version = "0.1.0"
edition = "2021"
publish = false

[dependencies]
anyhow = "=1.0.104"
clap = { version = "=4.6.7", features = ["derive"] }
dotenv = "=0.15.0"
prometheus = "=0.14.0"
quick-xml = { version = "=0.42.0", features = ["serialize"] }
reqwest = { version = "=0.13.5", default-features = false }
serde = { version = "=1.0.229", features = ["derive"] }
serde_json = "=1.0.151"
serde_path_to_error = "=0.1.20"
tokio = { version = "=1.53.2", features = ["macros", "rt-multi-thread", "sync"] }
toml = "=1.1.7"
tracing = "=0.1.44"
tracing-subscriber = { version = "=0.3.23", features = ["env-filter", "fmt"] }
warp = { version = "=0.4.3", default-features = false, features = ["server"] }
