[package]
name = "rustbin"
version = "0.1.0"
edition = "2021"
publish = false
rust-version = "1.95"

[dependencies]
axum = { version = "=0.8.9", features = ["multipart"] }
bytecount = "=0.6.9"
bytes = "=1.12.1"
fontdue = "=0.9.5"
itoa = "=1.0.18"
lru = "=0.19.0"
maud = "=0.27.0"
nanoid = "=0.4.0"
parking_lot = "=0.12.5"
png = "=0.18.1"
pulldown-cmark = "=0.13.6"
sqlx = { version = "=0.8.6", default-features = false, features = ["runtime-tokio", "sqlite", "migrate"] }
sublime-color-scheme = "=0.1.5"
syntect = { version = "=5.3.0", default-features = false, features = ["default-fancy"] }
time = "=0.3.55"
tokio = { version = "=1.54.1", features = ["rt-multi-thread", "macros", "net", "signal", "time", "sync"] }
tower-http = { version = "=0.6.11", features = ["compression-gzip"] }
tracing = "=0.1.44"
tracing-subscriber = { version = "=0.3.23", features = ["env-filter"] }

[dev-dependencies]
bincode = "=1.3.3"
