[package]
name = "tonic"
version = "0.3.0"
edition = "2021"
publish = false

[dependencies]
uuid = { version = "*", features = ["v4"] }
ariadne = "*"
quick-js = "*"
rquickjs = "*"
rustyline = "*"
structopt = "*"
tiny_http = "*"
