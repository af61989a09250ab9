[package]
name = "tsc_core"
version = "0.1.0"
edition = "2021"
rust-version = "1.95"
publish = false

[dependencies]
bumpalo = "=3.20.3"
clap = "=4.6.7"
oxc_allocator = "=0.139.0"
oxc_ast = "=0.139.0"
oxc_parser = "=0.139.0"
oxc_resolver = "=11.24.3"
oxc_span = "=0.139.0"
