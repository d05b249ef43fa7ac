[package]
name = "smdr"
version = "0.1.2"
edition = "2021"
publish = false

[dependencies]
pulldown-cmark = { version = "=0.13.6", default-features = false }
urlencoding = "=2.1.3"
serde = { version = "1", features = ["derive"] }
serde_json = "1"
clap = { version = "4", features = ["derive"] }
libc = "0.2"
tokio = { version = "1", default-features = false, features = ["rt", "time", "net", "io-util"] }
iced = { version = "0.14", default-features = false, features = ["tiny-skia", "markdown", "svg", "image", "tokio", "x11"] }
