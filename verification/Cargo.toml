[package]
name = "bench_suite"
version = "0.1.0"
edition = "2021"
publish = false

[dependencies]
sysinfo = "*"
chrono = "0.4"
libc = "0.2"
