[package]
name = "stwo_cairo"
version = "0.1.0"
edition = "2021"
publish = false

[dependencies]
stwo = "=2.3.0"
stwo-constraint-framework = "=2.3.0"
starknet-ff = "=0.3.7"
num-traits = "=0.2.19"
itertools = "0.14"
bytemuck = "1"
serde = { version = "1", features = ["derive"] }
serde_json = "1"
clap = { version = "4", features = ["derive"] }
anyhow = "1"
thiserror = "2"
log = "0.4"
tracing = "0.1"
cairo-vm = "=2.5.0"
cairo-lang-casm = "=2.14.0"
cairo-lang-executable = "=2.14.0"
cairo-lang-runner = "=2.14.0"
cairo-lang-filesystem = "=2.14.0"
cairo-lang-macro = "=0.1.1"
cairo-lang-parser = "=2.14.0"
cairo-lang-syntax = "=2.14.0"
cairo-lang-utils = "=2.14.0"
