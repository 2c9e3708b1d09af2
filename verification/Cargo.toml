[package]
name = "cairo_defs"
version = "0.1.0"
edition = "2021"
publish = false

[dependencies]
num-bigint = "=0.4.8"
cairo-lang-utils = "=2.2.0"
cairo-lang-syntax = "=2.2.0"
cairo-lang-filesystem = "=2.2.0"
cairo-lang-parser = "=2.2.0"
