//! Extraction of the public API surface of a Rust package: the modules that are
//! reachable from the package root, and the symbols visible at each of them.

pub mod api;
pub mod extractor;
pub mod files;
pub mod laws;
pub mod module_directory;
pub mod namespace_construction;
pub mod parsing;
pub mod symbol_collection;
pub mod symbol_resolution;
pub mod syntax;
pub mod text;
pub mod types;

pub use api::{build_public_api, public_api_from_sources};
pub use extractor::RustExtractor;
pub use files::{ImportType, RustFile, RustSymbol};
pub use module_directory::{extract_modules, InternalFiles, Module, ModuleDirectory, ModuleItem};
pub use namespace_construction::construct_namespaces;
pub use parsing::{file_model_from_tree, parse_rust_file};
pub use symbol_collection::{collect_module_directories, parse_sources, ParsedSources, SourceFile, SourceTree};
pub use symbol_resolution::{resolve_symbols, ModuleDocs, SymbolDeclaration, SymbolResolution};
pub use types::{ExtractionError, Namespace, Symbol};
