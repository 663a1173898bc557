[package]
name = "gluon_core"
version = "0.1.0"
edition = "2021"
publish = false

[dependencies]
codespan = "0.3"
gluon-salsa = "0.15"
