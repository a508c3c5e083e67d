[package]
name = "notesock"
version = "0.1.0"
edition = "2021"
publish = false

[dependencies]
clap = { version = "=4.6.7", features = ["derive"] }
clap-verbosity-flag = "=2.2.3"
emojis = "=0.9.1"
itertools = "=0.12.1"
proxy-protocol = "=0.5.0"
radix_fmt = "=1.0.0"
rand = "=0.8.8"
simplelog = { version = "=0.12.2", features = ["paris"] }
socket2 = "=0.5.10"
spmc = "=0.3.0"
