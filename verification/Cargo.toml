[package]
name = "compio-h2"
version = "0.1.0"
edition = "2021"
publish = false

[dependencies]
bytes = "1"
http = "1"
flume = "*"
compio-buf = "*"
compio-io = "*"
compio-log = "*"
compio-runtime = "*"
