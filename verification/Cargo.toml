[package]
name = "l1_ir"
version = "0.1.0"
edition = "2021"
publish = false

[dependencies]
num-bigint = "0.4"
num-traits = "0.2"
cranelift = "0.92"
cranelift-codegen = "0.92"
cranelift-jit = "0.92"
cranelift-module = "0.92"
cranelift-native = "0.92"
