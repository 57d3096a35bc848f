use daipendency_extractor_rust::{
    collect_module_directories, parse_sources, ExtractionError, ImportType, ModuleDirectory,
    RustSymbol, SourceFile, SourceTree,
};

fn setup_parser() -> tree_sitter::Parser {
    let mut parser = tree_sitter::Parser::new();
    parser
        .set_language(&tree_sitter_rust::LANGUAGE.into())
        .unwrap();
    parser
}

fn tree(files: &[(&str, &str)], directories: &[&str]) -> SourceTree {
    SourceTree {
        files: files
            .iter()
            .map(|(path, content)| SourceFile {
                path: path.to_string(),
                content: Some(content.to_string()),
            })
            .collect(),
        directories: directories.iter().map(|d| d.to_string()).collect(),
    }
}

fn collect(entry: &str, sources: &SourceTree) -> Result<Vec<ModuleDirectory>, ExtractionError> {
    let mut parser = setup_parser();
    let parsed = parse_sources(sources, &mut parser);
    collect_module_directories(entry, &parsed)
}

fn get_module_directory<'a>(name: &str, directories: &'a [ModuleDirectory]) -> Option<&'a ModuleDirectory> {
    directories.iter().find(|m| m.name == name)
}

#[test]
fn non_existing_file() {
    let sources = tree(&[], &[]);

    let result = collect("non-existing.rs", &sources);

    assert!(matches!(result, Err(ExtractionError::Io(_))))
}

#[test]
fn unreadable_entry_point() {
    let sources = SourceTree {
        files: vec![SourceFile {
            path: "src/lib.rs".to_string(),
            content: None,
        }],
        directories: vec!["src".to_string()],
    };

    let result = collect("src/lib.rs", &sources);

    assert!(matches!(result, Err(ExtractionError::Io(_))))
}

#[test]
fn missing_module_file() {
    let sources = tree(&[("src/lib.rs", "mod missing;")], &["src"]);

    let result = collect("src/lib.rs", &sources);

    assert!(matches!(result, Err(ExtractionError::Malformed(_))))
}

#[test]
fn cyclic_modules() {
    let sources = tree(
        &[
            (
                "src/module_a.rs",
                r#"
pub mod module_b;
pub fn module_a_function() {}
"#,
            ),
            (
                "src/module_b.rs",
                r#"
pub mod module_a;  // This creates a cycle
pub fn module_b_function() {}
"#,
            ),
        ],
        &["src"],
    );

    let directories = collect("src/module_a.rs", &sources).unwrap();

    assert!(!directories.is_empty())
}

#[test]
fn cyclic_directories() {
    let sources = tree(
        &[
            ("src/lib.rs", "pub mod a;"),
            ("src/a.rs", "pub mod b;"),
            ("src/a/b.rs", "pub struct B;"),
        ],
        &["src", "src/a"],
    );

    let directories = collect("src/lib.rs", &sources).unwrap();

    assert_eq!(directories.len(), 2);
    assert_eq!(directories[1].name, "a");
    assert!(directories[1].internal_files.contains_key("b"));
}

#[test]
fn root_module_directory_visibility() {
    let sources = tree(&[("src/lib.rs", "\npub fn public_function() {}\n")], &["src"]);

    let directories = collect("src/lib.rs", &sources).unwrap();

    assert_eq!(directories.len(), 1);
    assert!(directories[0].is_public)
}

#[test]
fn public_symbol() {
    let sources = tree(&[("src/lib.rs", "\npub fn public_function() {}\n")], &["src"]);

    let directories = collect("src/lib.rs", &sources).unwrap();

    assert_eq!(directories.len(), 1);
    assert_eq!(directories[0].name, "");
    assert_eq!(directories[0].entry_point.symbols.len(), 1);
    let definitions = &directories[0].entry_point.symbols;
    assert!(matches!(
        &definitions[0],
        RustSymbol::Symbol { symbol } if symbol.name == "public_function"
    ))
}

#[test]
fn private_symbol() {
    let sources = tree(&[("src/lib.rs", "\nfn private_function() {}\n")], &["src"]);

    let directories = collect("src/lib.rs", &sources).unwrap();

    assert_eq!(directories.len(), 1);
    assert_eq!(directories[0].name, "");
    assert_eq!(directories[0].entry_point.symbols.len(), 0)
}

#[test]
fn public_module() {
    let sources = tree(&[("src/lib.rs", "\npub mod public_module {}\n")], &["src"]);

    let directories = collect("src/lib.rs", &sources).unwrap();

    assert_eq!(directories.len(), 1);
    let root = directories.get(0).unwrap();
    assert_eq!(root.name, "");
    assert_eq!(root.entry_point.symbols.len(), 1);
    assert!(matches!(
        &root.entry_point.symbols[0],
        RustSymbol::ModuleBlock { name, is_public: true, doc_comment: None, .. }
        if name == "public_module"
    ))
}

#[test]
fn private_module() {
    let sources = tree(&[("src/lib.rs", "\nmod private_module {}\n")], &["src"]);

    let directories = collect("src/lib.rs", &sources).unwrap();

    assert_eq!(directories.len(), 1);
    let root = directories.get(0).unwrap();
    assert_eq!(root.name, "");
    assert_eq!(root.entry_point.symbols.len(), 1);
    assert!(matches!(
        &root.entry_point.symbols[0],
        RustSymbol::ModuleBlock {
            is_public: false,
            ..
        }
    ))
}

#[test]
fn symbol_collection_module_reexport() {
    let sources = tree(
        &[
            ("src/lib.rs", "\npub mod module;\n"),
            ("src/module.rs", "\npub struct InnerStruct;\n"),
        ],
        &["src"],
    );

    let directories = collect("src/lib.rs", &sources).unwrap();

    assert_eq!(directories.len(), 1);
    let root = get_module_directory("", &directories).unwrap();
    assert_eq!(root.entry_point.symbols.len(), 1);
    assert!(matches!(
        &root.entry_point.symbols[0],
        RustSymbol::ModuleImport { name, is_reexported: true }
        if name == "module"
    ));
    let module_file = root.internal_files.get("module").unwrap();
    assert_eq!(module_file.symbols.len(), 1);
    assert!(matches!(
        &module_file.symbols[0],
        RustSymbol::Symbol { symbol } if symbol.name == "InnerStruct"
    ))
}

#[test]
fn direct_symbol_reexport() {
    let sources = tree(
        &[
            ("src/lib.rs", "\nmod formatter;\npub use formatter::Format;\n"),
            ("src/formatter.rs", "\npub enum Format {\n    Plain,\n    Rich,\n}\n"),
        ],
        &["src"],
    );

    let directories = collect("src/lib.rs", &sources).unwrap();

    assert_eq!(directories.len(), 1);
    let root = get_module_directory("", &directories).unwrap();
    assert_eq!(root.entry_point.symbols.len(), 2);
    assert!(matches!(
        &root.entry_point.symbols[0],
        RustSymbol::ModuleImport { name, is_reexported: false }
        if name == "formatter"
    ));
    assert!(matches!(
        &root.entry_point.symbols[1],
        RustSymbol::Reexport { source_path, import_type }
        if source_path == "formatter::Format" && matches!(import_type, ImportType::Simple)
    ));
    let formatter_file = root.internal_files.get("formatter").unwrap();
    assert_eq!(formatter_file.symbols.len(), 1);
    assert!(matches!(
        &formatter_file.symbols[0],
        RustSymbol::Symbol { symbol } if symbol.name == "Format"
    ))
}

#[test]
fn indirect_symbol_reexport() {
    let sources = tree(
        &[
            ("src/lib.rs", "\n    mod formatting;\n    pub use formatting::Format;\n    "),
            ("src/formatting/mod.rs", "\n    mod format;\n    pub use format::Format;\n    "),
            ("src/formatting/format.rs", "\n    pub enum Format { Markdown, Html }\n    "),
        ],
        &["src", "src/formatting"],
    );

    let directories = collect("src/lib.rs", &sources).unwrap();

    assert_eq!(directories.len(), 2);
    let root = get_module_directory("", &directories).unwrap();
    assert_eq!(root.entry_point.symbols.len(), 2);
    assert!(matches!(
        &root.entry_point.symbols[0],
        RustSymbol::ModuleImport { name, is_reexported: false }
        if name == "formatting"
    ));
    assert!(matches!(
        &root.entry_point.symbols[1],
        RustSymbol::Reexport { source_path, import_type }
        if source_path == "formatting::Format" && matches!(import_type, ImportType::Simple)
    ));
    let formatting = get_module_directory("formatting", &directories).unwrap();
    assert!(!formatting.is_public);
    assert_eq!(formatting.entry_point.symbols.len(), 2);
    assert!(matches!(
        &formatting.entry_point.symbols[0],
        RustSymbol::ModuleImport { name, is_reexported: false }
        if name == "format"
    ));
    assert!(matches!(
        &formatting.entry_point.symbols[1],
        RustSymbol::Reexport { source_path, import_type }
        if source_path == "format::Format" && matches!(import_type, ImportType::Simple)
    ));
    let format_file = formatting.internal_files.get("format").unwrap();
    assert_eq!(format_file.symbols.len(), 1);
    assert!(matches!(
        &format_file.symbols[0],
        RustSymbol::Symbol { symbol } if symbol.name == "Format"
    ));
}

#[test]
fn nested_modules_symbol_reexport() {
    let sources = tree(
        &[(
            "src/lib.rs",
            r#"
pub mod child {
    pub mod grandchild {
        pub enum Format { Plain, Rich }
    }
}

pub use child::grandchild::Format;
"#,
        )],
        &["src"],
    );

    let directories = collect("src/lib.rs", &sources).unwrap();

    assert_eq!(directories.len(), 1);
    let root = &directories[0];
    assert_eq!(root.entry_point.symbols.len(), 2);
    assert!(matches!(
        &root.entry_point.symbols[0],
        RustSymbol::ModuleBlock { name, is_public: true, content: child_content, doc_comment: None }
        if name == "child" &&
        matches!(&child_content[0], RustSymbol::ModuleBlock { name, is_public: true, content: grandchild_content, doc_comment: None } if name == "grandchild" &&
          matches!(&grandchild_content[0], RustSymbol::Symbol { symbol } if symbol.name == "Format")
          )
    ));
    assert!(matches!(
        &root.entry_point.symbols[1],
        RustSymbol::Reexport { source_path, import_type: ImportType::Simple }
        if source_path == "child::grandchild::Format"
    ))
}

#[test]
fn symbol_collection_wildcard_reexport() {
    let sources = tree(
        &[
            ("src/lib.rs", "\n    mod module;\n    pub use module::*;\n    "),
            ("src/module.rs", "\n    pub struct InnerStruct;\n    "),
        ],
        &["src"],
    );

    let directories = collect("src/lib.rs", &sources).unwrap();

    assert_eq!(directories.len(), 1);
    let root = get_module_directory("", &directories).unwrap();
    assert_eq!(root.entry_point.symbols.len(), 2);
    assert!(matches!(
        &root.entry_point.symbols[0],
        RustSymbol::ModuleImport { name, is_reexported: false }
        if name == "module"
    ));
    assert!(matches!(
        &root.entry_point.symbols[1],
        RustSymbol::Reexport { source_path, import_type }
        if source_path == "module" && matches!(import_type, ImportType::Wildcard)
    ));
    let module_file = root.internal_files.get("module").unwrap();
    assert_eq!(module_file.symbols.len(), 1);
    assert!(matches!(
        &module_file.symbols[0],
        RustSymbol::Symbol { symbol } if symbol.name == "InnerStruct"
    ))
}

#[test]
fn aliased_reexport() {
    let sources = tree(
        &[
            ("src/lib.rs", "\n    mod submodule;\n    pub use submodule::Foo as Bar;\n    "),
            ("src/submodule.rs", "\n    pub struct Foo;\n    "),
        ],
        &["src"],
    );

    let directories = collect("src/lib.rs", &sources).unwrap();

    assert_eq!(directories.len(), 1);
    let root = get_module_directory("", &directories).unwrap();
    assert_eq!(root.entry_point.symbols.len(), 2);
    assert!(matches!(
        &root.entry_point.symbols[0],
        RustSymbol::ModuleImport { name, is_reexported: false }
        if name == "submodule"
    ));
    assert!(matches!(
        &root.entry_point.symbols[1],
        RustSymbol::Reexport { source_path, import_type }
        if source_path == "submodule::Foo" && matches!(import_type, ImportType::Aliased(alias) if alias == "Bar")
    ));
    let submodule_file = root.internal_files.get("submodule").unwrap();
    assert_eq!(submodule_file.symbols.len(), 1);
    assert!(matches!(
        &submodule_file.symbols[0],
        RustSymbol::Symbol { symbol } if symbol.name == "Foo"
    ))
}

#[test]
fn file_with_mod_in_name() {
    let sources = tree(
        &[
            ("src/lib.rs", "\n    mod my_mod;\n    pub use my_mod::MyStruct;\n    "),
            ("src/my_mod.rs", "\n    pub struct MyStruct;\n    "),
        ],
        &["src"],
    );

    let directories = collect("src/lib.rs", &sources).unwrap();

    assert_eq!(directories.len(), 1);
    let root = get_module_directory("", &directories).unwrap();
    assert_eq!(root.entry_point.symbols.len(), 2);
    assert!(matches!(
        &root.entry_point.symbols[0],
        RustSymbol::ModuleImport { name, is_reexported: false } if name == "my_mod"
    ));
    assert!(matches!(
        &root.entry_point.symbols[1],
        RustSymbol::Reexport { source_path, import_type }
        if source_path == "my_mod::MyStruct" && matches!(import_type, ImportType::Simple)
    ));
    let my_mod_file = root.internal_files.get("my_mod").unwrap();
    assert_eq!(my_mod_file.symbols.len(), 1);
    assert!(matches!(
        &my_mod_file.symbols[0],
        RustSymbol::Symbol { symbol } if symbol.name == "MyStruct"
    ))
}

#[test]
fn file_with_doc_comment() {
    let sources = tree(
        &[(
            "src/lib.rs",
            "//! This is a file-level doc comment.\n//! It can span multiple lines.\n\npub struct Test {}\n",
        )],
        &["src"],
    );

    let directories = collect("src/lib.rs", &sources).unwrap();

    assert_eq!(directories.len(), 1);
    assert_eq!(directories[0].name, "");
    assert_eq!(
        directories[0].entry_point.doc_comment,
        Some("//! This is a file-level doc comment.\n//! It can span multiple lines.\n".to_string())
    )
}

#[test]
fn module_with_inner_doc_comment() {
    let sources = tree(
        &[(
            "src/lib.rs",
            "\npub mod inner {\n    //! This is the inner doc comment\n}\n",
        )],
        &["src"],
    );

    let directories = collect("src/lib.rs", &sources).unwrap();

    assert_eq!(directories.len(), 1);
    let root = directories.get(0).unwrap();
    assert_eq!(root.name, "");
    assert_eq!(root.entry_point.symbols.len(), 1);
    assert!(matches!(
        &root.entry_point.symbols[0],
        RustSymbol::ModuleBlock { name, is_public: true, doc_comment, .. }
        if name == "inner" && *doc_comment == Some("//! This is the inner doc comment\n".to_string())
    ))
}

#[test]
fn old_style() {
    let sources = tree(
        &[
            ("src/lib.rs", "mod module;"),
            ("src/module/mod.rs", "mod submodule;"),
            ("src/module/submodule.rs", "pub struct SubStruct;"),
        ],
        &["src", "src/module"],
    );

    let directories = collect("src/lib.rs", &sources).unwrap();

    assert_eq!(directories.len(), 2);
    assert!(get_module_directory("", &directories).is_some());
    let module = get_module_directory("module", &directories).unwrap();
    assert!(module.internal_files.contains_key("submodule"));
    let submodule = module.internal_files.get("submodule").unwrap();
    assert_eq!(submodule.symbols.len(), 1);
    assert!(matches!(
        &submodule.symbols[0],
        RustSymbol::Symbol { symbol } if symbol.name == "SubStruct"
    ))
}

#[test]
fn new_style() {
    let sources = tree(
        &[
            ("src/lib.rs", "mod module;"),
            ("src/module.rs", "mod submodule;"),
            ("src/module/submodule.rs", "pub struct SubStruct;"),
        ],
        &["src", "src/module"],
    );

    let directories = collect("src/lib.rs", &sources).unwrap();

    assert_eq!(directories.len(), 2);
    assert!(get_module_directory("", &directories).is_some());
    let module = get_module_directory("module", &directories).unwrap();
    assert!(module.internal_files.contains_key("submodule"));
    let submodule = module.internal_files.get("submodule").unwrap();
    assert_eq!(submodule.symbols.len(), 1);
    assert!(matches!(
        &submodule.symbols[0],
        RustSymbol::Symbol { symbol } if symbol.name == "SubStruct"
    ))
}

#[test]
fn repeated_declaration_is_collected_once() {
    let sources = tree(
        &[
            ("src/lib.rs", "pub mod a;\npub mod a;"),
            ("src/a.rs", "pub mod b;"),
            ("src/a/b.rs", "pub struct B;"),
        ],
        &["src", "src/a"],
    );

    let directories = collect("src/lib.rs", &sources).unwrap();

    assert_eq!(directories.len(), 2);
    assert_eq!(directories[1].name, "a");
}
