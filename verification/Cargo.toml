[package]
name = "frag_compiler"
version = "0.1.0"
edition = "2021"
publish = false

[dependencies]
cranelift = "*"
cranelift-codegen = "*"
cranelift-jit = "*"
cranelift-module = "*"
cranelift-native = "*"
