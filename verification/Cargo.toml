[package]
name = "dbexport"
version = "0.1.0"
edition = "2021"
publish = false

[dependencies]
chrono = { version = "0.4", default-features = false }
fallible-iterator = "0.2"
mysql = { version = "*", default-features = false, features = ["minimal"] }
postgres = "0.19"
regex = "1"
urlencoding = "2"

[dev-dependencies]
id_tree = "1"
