[package]
name = "stock_bayes"
version = "0.1.0"
edition = "2021"
publish = false

[dependencies]
serde_json = "1"
linfa = "0.7"
linfa-bayes = "0.7"
ndarray = "0.15"
plotters = "0.3"
reqwest = { version = "0.11", features = ["json"] }
tokio = { version = "1", features = ["macros", "rt-multi-thread"] }
