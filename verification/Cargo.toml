[package]
name = "crawler_rs"
version = "0.1.0"
edition = "2021"
publish = false

[dependencies]
reqwest = { version = "=0.13.5", default-features = false }
scraper = "=0.29.0"
html-to-markdown-rs = "=3.19.1"
tokio = { version = "=1.54.1", features = ["rt-multi-thread", "macros", "sync", "time"] }
flume = "=0.12.0"
crossbeam-channel = "=0.5.17"
rand = "=0.10.3"
petgraph = "=0.8.3"
eframe = { version = "=0.35.0", default-features = false, features = ["glow", "x11"] }
egui = "=0.35.0"
egui_graphs = { version = "=0.31.0", features = ["events"] }
