[package]
name = "blockorder"
version = "0.1.0"
edition = "2021"
publish = false

[dependencies]
simhash = "=0.3.0"
rand = "=0.8.8"
brotli = "=9.0.0"
metaheuristics = "=1.1.22"
time = "=0.3.55"
swc_common = "=26.0.0"
swc_ecma_ast = "=29.0.2"
swc_ecma_codegen = "=32.0.3"
swc_ecma_parser = "=46.0.0"
swc_ecma_visit = "=29.0.0"
