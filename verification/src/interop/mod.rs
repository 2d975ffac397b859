//! Native Rust API metadata used by Stainless name and type resolution.

pub mod builtin;
pub mod manifest;
pub mod model;

use vstd::prelude::*;

verus! {

/// Package-root filename containing user-authored Rust bindings.
pub const BINDINGS_MANIFEST_FILENAME: &'static str = "stainless-bindings.toml";

} // verus!
