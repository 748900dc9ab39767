//! Runtime support for compiled programs.

pub mod cranelift;
pub mod cranelift_impl;
