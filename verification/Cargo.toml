[package]
name = "dse"
version = "0.1.0"
edition = "2021"
publish = false

[dependencies]
byteorder = "1"
serde = { version = "1", features = ["derive"] }
quick-xml = { version = "*", features = ["serialize"] }
clap = { version = "4", features = ["derive"] }
glob = "0.3"
colored = "2"
midly = "0.5"
soundfont = "*"
base64 = "0.21"
thiserror = "1"
indexmap = "2"
