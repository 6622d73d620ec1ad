[package]
name = "tracey"
version = "0.1.0"
edition = "2021"
publish = false

[dependencies]
asciidork-ast = "=0.38.0"
asciidork-core = "=0.37.0"
asciidork-parser = "=0.38.2"
asciidork-dr-html-backend = "=0.39.0"
arborium = { version = "=2.18.2", default-features = false, features = ["lang-rust"] }
blake3 = "=1.8.7"
bumpalo = "=3.20.3"
globset = "=0.4.21"
html-escape = "=0.3.0"
ignore = "=0.4.34"
marq = { version = "=4.0.1", default-features = false }
rayon = "=1.12.0"
tokio = { version = "=1.54.1", features = ["rt", "rt-multi-thread", "fs", "process", "sync", "time"] }
eyre = "=0.6.14"
