[package]
name = "poshgre"
version = "0.1.0"
edition = "2021"
publish = false

[dependencies]
unicode-width = "*"
sqlx = { version = "*", default-features = false, features = ["postgres", "runtime-tokio", "chrono"] }
tokio = { version = "*", features = ["rt-multi-thread", "time", "sync", "process", "io-std"] }
futures = "*"
chrono = "*"
tracing = "*"
crossterm = "*"
ratatui = "*"
skim = { version = "*", default-features = false }
