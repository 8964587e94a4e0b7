[package]
name = "pg_tenant_monitor"
version = "0.1.0"
edition = "2021"
publish = false

[dependencies]
regex = "=1.13.1"
dashmap = "=6.2.1"
bytes = "=1.12.1"
log = "=0.4.34"
libc = "=0.2.191"
tokio = { version = "=1.54.1", features = ["rt-multi-thread", "macros", "sync", "time", "signal"] }
aya = { version = "=0.13.1", features = ["async_tokio"] }
aya-log = "=0.2.1"
ratatui = "=0.29.0"
