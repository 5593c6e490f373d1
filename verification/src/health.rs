//! Build-health measurements recorded per example or package.

use vstd::prelude::*;

verus! {

/// Compiled-artifact sizes of one build target.
#[derive(Debug, Clone, PartialEq, Eq)]
pub struct CompileSizeStats {
    pub name: String,
    /// Size of the artifact built without optimizations.
    pub raw_debug_wasm_size: u64,
    /// Size of the artifact built with optimizations.
    pub optimized_wasm_size: u64,
}

/// Compile-time measurements of one build target.
#[derive(Debug, Clone, PartialEq, Eq)]
pub struct CompiletimeStats {
    pub name: String,
    /// The report page that the timed build generated.
    pub timing_page: String,
}

} // verus!
