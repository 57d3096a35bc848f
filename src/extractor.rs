//! The extractor value through which hosts drive the extraction.

use vstd::prelude::*;

verus! {

/// The Rust extractor. It carries no state.
#[derive(Debug, Clone, Copy)]
pub struct RustExtractor;

impl RustExtractor {
    /// A new extractor.
    pub fn new() -> (r: Self)
        ensures
            r == RustExtractor,
    {
        RustExtractor
    }
}

impl Default for RustExtractor {
    fn default() -> (r: Self)
        ensures
            r == RustExtractor,
    {
        RustExtractor::new()
    }
}

/// The entry point of a package relative to its root: the manifest's library
/// path when it names one, else `src/lib.rs`.
pub fn entry_point_path(lib_path: Option<&str>) -> (r: String)
    ensures
        lib_path matches Some(p) ==> r@ == p@,
        lib_path is None ==> r@ == "src/lib.rs"@,
{
    match lib_path {
        Some(p) => p.to_owned(),
        None => "src/lib.rs".to_owned(),
    }
}

} // verus!
