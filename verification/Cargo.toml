[package]
name = "armerge"
version = "0.1.0"
edition = "2021"
publish = false

[dependencies]
regex = "*"
object = { version = "*", features = ["write"] }
goblin = "*"
objpoke = "*"
ar = "*"
tempfile = "*"
rand = "*"
rayon = "*"
clap = { version = "*", features = ["derive"] }
tracing = "*"
tracing-subscriber = { version = "*", features = ["env-filter", "time"] }
time = { version = "*", features = ["formatting", "macros"] }
