[package]
name = "graph_store"
version = "0.1.0"
edition = "2021"
publish = false

[dependencies]
rusqlite = { version = "=0.40.2", features = ["bundled", "fallible_uint"] }
rand = "=0.8.8"
rand_distr = "=0.4.3"
