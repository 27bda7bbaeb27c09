[package]
name = "ldap_client"
version = "0.1.0"
edition = "2021"
publish = false

[dependencies]
rand = "*"
ldap3 = { version = "*", default-features = false }
deadpool = "*"
trust-dns-resolver = "*"
async-trait = "*"
serde = { version = "*", features = ["derive"] }
tokio = { version = "*", features = ["rt"] }

[dev-dependencies]
regex = "*"
