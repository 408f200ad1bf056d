[package]
name = "perf_event_block"
version = "0.1.0"
edition = "2021"
publish = false

[dependencies]
perfcnt = "*"
