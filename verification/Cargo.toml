[package]
name = "greg"
version = "0.1.0"
edition = "2021"
publish = false

[dependencies]
csv = "=1.4.0"
ncurses = "=5.101.0"
pancurses = "=0.17.0"
paw = "=1.0.0"
structopt = { version = "=0.3.26", features = ["paw"] }
