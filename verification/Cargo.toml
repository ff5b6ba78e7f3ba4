[package]
name = "translators"
version = "0.1.0"
edition = "2021"
publish = false

[dependencies]
anyhow = "=1.0.104"
ariadne = "=0.6.0"
clap = { version = "=4.6.7", features = ["derive"] }
thiserror = "=2.0.21"

[dev-dependencies]
chumsky = "*"
regex = "1"
