[package]
name = "hydroflow"
version = "0.1.0"
edition = "2021"
publish = false

[dependencies]
serde = { version = "=1.0.229", features = ["derive"] }
slotmap = "=1.1.1"
convert_case = "=0.12.0"
tokio = { version = "=1.54.1", features = ["sync", "rt"] }
graphviz-rust = "=0.9.9"
cc-traits = "=2.0.0"
proc-macro2 = "=1.0.107"
quote = "=1.0.47"
ref-cast = "=1.0.27"
pusherator = "=0.0.12"
variadics = "=0.1.0"
syn = { version = "=2.0.119", features = ["full"] }
proc-macro-crate = "*"
