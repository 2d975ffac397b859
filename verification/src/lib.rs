//! Verified core of the Stainless compiler and its Cargo build integration.

pub mod ast;
pub mod codegen;
pub mod cargo_build;
pub mod diagnostic;
pub mod hir;
pub mod hir_lowering;
pub mod interop;
pub mod last_uses;
pub mod lowering;
pub mod ownership;
pub mod resolution;
pub mod text;

pub use diagnostic::{Diagnostic, DiagnosticPhase};

use vstd::prelude::*;

verus! {

/// Rust major/minor release described by the compiler-provided native bindings.
pub const SUPPORTED_RUST_MINOR: &'static str = "1.97";

} // verus!
