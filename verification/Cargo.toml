[package]
name = "scrape_batch"
version = "0.1.0"
edition = "2021"
publish = false

[dependencies]
anyhow = "1"
futures = "0.3"
thirtyfour = "*"
tokio = { version = "1", features = ["macros", "rt-multi-thread", "time"] }
which = "*"
