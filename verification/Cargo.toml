[package]
name = "dhcpctl"
version = "0.1.0"
edition = "2021"
publish = false

[dependencies]
serde = { version = "*", features = ["derive"] }
tokio = { version = "*", features = ["macros", "rt-multi-thread"] }
reqwest = { version = "*", default-features = false, features = ["json", "rustls-tls"] }
futures = "0.3"
structopt = "0.3"
confy = "*"
colored = "*"
prettytable-rs = "*"
