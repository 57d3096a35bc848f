use daipendency_extractor_rust::{
    extract_modules, ImportType, InternalFiles, Module, ModuleDirectory, ModuleItem, RustFile,
    RustSymbol, Symbol,
};

const STUB_SYMBOL_NAME: &str = "test";

fn stub_symbol_with_name(name: &str) -> Symbol {
    Symbol {
        name: name.to_string(),
        source_code: format!("pub fn {}() {{}}", name),
    }
}

fn stub_rust_symbol(symbol: Symbol) -> RustSymbol {
    RustSymbol::Symbol { symbol }
}

fn stub_module_item(symbol: Symbol) -> ModuleItem {
    ModuleItem::Symbol { symbol }
}

fn empty_file() -> RustFile {
    RustFile {
        doc_comment: None,
        symbols: vec![],
    }
}

fn directory(name: &str, is_public: bool, entry_point: RustFile, files: Vec<(&str, RustFile)>) -> ModuleDirectory {
    ModuleDirectory {
        name: name.to_string(),
        is_public,
        entry_point,
        internal_files: InternalFiles {
            entries: files.into_iter().map(|(n, f)| (n.to_string(), f)).collect(),
        },
    }
}

#[test]
fn name() {
    let name = "src".to_string();
    let directory = directory(&name, true, empty_file(), vec![]);

    let modules = directory.extract_modules().unwrap();

    assert_eq!(modules.len(), 1);
    assert_eq!(modules[0].name, name);
}

#[test]
fn module_directory_doc_comment() {
    let doc_comment = Some("This is a doc comment".to_string());
    let directory = directory(
        "",
        true,
        RustFile {
            doc_comment: doc_comment.clone(),
            symbols: vec![],
        },
        vec![],
    );

    let modules = directory.extract_modules().unwrap();

    assert_eq!(modules.len(), 1);
    assert_eq!(modules[0].doc_comment, doc_comment);
}

#[test]
fn symbol() {
    let symbol = stub_symbol_with_name(STUB_SYMBOL_NAME);
    let directory = directory(
        "",
        true,
        RustFile {
            doc_comment: None,
            symbols: vec![stub_rust_symbol(symbol.clone())],
        },
        vec![],
    );

    let modules = directory.extract_modules().unwrap();

    assert_eq!(modules.len(), 1);
    let module = &modules[0];
    assert_eq!(module.name, "");
    assert_eq!(module.symbols.len(), 1);
    assert_eq!(module.symbols[0], stub_module_item(symbol));
}

#[test]
fn symbol_reexport() {
    let original_symbol = stub_symbol_with_name("test");
    let directory = directory(
        "",
        true,
        RustFile {
            symbols: vec![
                RustSymbol::ModuleImport {
                    name: "submodule".to_string(),
                    is_reexported: false,
                },
                RustSymbol::Reexport {
                    source_path: "submodule::test".to_string(),
                    import_type: ImportType::Simple,
                },
            ],
            doc_comment: None,
        },
        vec![(
            "submodule",
            RustFile {
                symbols: vec![stub_rust_symbol(original_symbol.clone())],
                doc_comment: None,
            },
        )],
    );

    let modules = directory.extract_modules().unwrap();

    assert_eq!(modules.len(), 2);
    let root = &modules[0];
    assert_eq!(root.symbols.len(), 1);
    assert!(matches!(
        &root.symbols[0],
        ModuleItem::SymbolReexport {
            source_path,
            import_type: ImportType::Simple
        } if source_path == "submodule::test"
    ));
    let submodule = &modules[1];
    assert_eq!(submodule.name, "submodule");
    assert_eq!(submodule.symbols.len(), 1);
    assert!(matches!(
        &submodule.symbols[0],
        ModuleItem::Symbol { symbol } if symbol.name == original_symbol.name
    ));
}

#[test]
fn public_module_directory() {
    let directory = directory("", true, empty_file(), vec![]);

    let modules = directory.extract_modules().unwrap();

    assert_eq!(modules.len(), 1);
    assert!(modules[0].is_public);
}

#[test]
fn private_module_directory() {
    let directory = directory("", false, empty_file(), vec![]);

    let modules = directory.extract_modules().unwrap();

    assert_eq!(modules.len(), 1);
    assert!(!modules[0].is_public);
}

#[test]
fn public_module_block() {
    let symbol = stub_symbol_with_name(STUB_SYMBOL_NAME);
    let directory = directory(
        "",
        true,
        RustFile {
            doc_comment: None,
            symbols: vec![RustSymbol::ModuleBlock {
                name: "public_mod".to_string(),
                content: vec![stub_rust_symbol(symbol.clone())],
                doc_comment: None,
                is_public: true,
            }],
        },
        vec![],
    );

    let modules = directory.extract_modules().unwrap();

    assert_eq!(modules.len(), 2);
    let submodule = &modules[1];
    assert_eq!(submodule.name, "public_mod");
    assert!(submodule.is_public);
    assert_eq!(submodule.symbols.len(), 1);
    assert_eq!(submodule.symbols[0], stub_module_item(symbol));
}

#[test]
fn public_nested_module_block() {
    let symbol = stub_symbol_with_name(STUB_SYMBOL_NAME);
    let directory = directory(
        "",
        true,
        RustFile {
            doc_comment: None,
            symbols: vec![RustSymbol::ModuleBlock {
                name: "parent".to_string(),
                content: vec![RustSymbol::ModuleBlock {
                    name: "child".to_string(),
                    content: vec![stub_rust_symbol(symbol.clone())],
                    doc_comment: None,
                    is_public: true,
                }],
                doc_comment: None,
                is_public: true,
            }],
        },
        vec![],
    );

    let modules = directory.extract_modules().unwrap();

    assert_eq!(modules.len(), 3);
    assert!(matches!(&modules[0], Module { name, .. } if name == ""));
    assert!(matches!(&modules[1], Module { name, .. } if name == "parent"));
    assert!(matches!(
        &modules[2],
        Module { name, symbols, .. } if name == "parent::child" && symbols.len() == 1 && symbols[0] == stub_module_item(symbol.clone())
    ));
}

#[test]
fn private_module_block() {
    let symbol = stub_symbol_with_name(STUB_SYMBOL_NAME);
    let directory = directory(
        "",
        true,
        RustFile {
            doc_comment: None,
            symbols: vec![RustSymbol::ModuleBlock {
                name: "private_mod".to_string(),
                content: vec![stub_rust_symbol(symbol.clone())],
                doc_comment: None,
                is_public: false,
            }],
        },
        vec![],
    );

    let modules = directory.extract_modules().unwrap();

    assert_eq!(modules.len(), 2);
    let submodule = &modules[1];
    assert_eq!(submodule.name, "private_mod");
    assert!(!submodule.is_public);
    assert_eq!(submodule.symbols.len(), 1);
    assert_eq!(submodule.symbols[0], stub_module_item(symbol));
}

#[test]
fn module_directory_module_reexport() {
    let symbol = stub_symbol_with_name(STUB_SYMBOL_NAME);
    let directory = directory(
        "",
        true,
        RustFile {
            doc_comment: None,
            symbols: vec![RustSymbol::ModuleImport {
                name: "submodule".to_string(),
                is_reexported: true,
            }],
        },
        vec![(
            "submodule",
            RustFile {
                doc_comment: None,
                symbols: vec![stub_rust_symbol(symbol.clone())],
            },
        )],
    );

    let modules = directory.extract_modules().unwrap();

    assert_eq!(modules.len(), 2);
    let module = &modules[1];
    assert_eq!(module.name, "submodule");
    assert!(module.is_public);
    assert_eq!(module.symbols.len(), 1);
    assert_eq!(module.symbols[0], stub_module_item(symbol));
}

#[test]
fn module_imported_but_not_reexported() {
    let symbol = stub_symbol_with_name(STUB_SYMBOL_NAME);
    let directory = directory(
        "",
        true,
        RustFile {
            doc_comment: None,
            symbols: vec![RustSymbol::ModuleImport {
                name: "submodule".to_string(),
                is_reexported: false,
            }],
        },
        vec![(
            "submodule",
            RustFile {
                doc_comment: None,
                symbols: vec![stub_rust_symbol(symbol.clone())],
            },
        )],
    );

    let modules = directory.extract_modules().unwrap();

    assert_eq!(modules.len(), 2);
    let root = &modules[0];
    assert_eq!(root.name, "");
    assert!(root.is_public);
    assert_eq!(root.symbols.len(), 0);
    let submodule = &modules[1];
    assert_eq!(submodule.name, "submodule");
    assert!(!submodule.is_public);
    assert_eq!(submodule.symbols.len(), 1);
    assert_eq!(submodule.symbols[0], stub_module_item(symbol));
}

#[test]
fn missing_internal_file() {
    let directory = directory(
        "",
        true,
        RustFile {
            doc_comment: None,
            symbols: vec![RustSymbol::ModuleImport {
                name: "missing_module".to_string(),
                is_reexported: true,
            }],
        },
        vec![],
    );

    let modules = directory.extract_modules().unwrap();

    assert_eq!(modules.len(), 1);
    let root = &modules[0];
    assert_eq!(root.name, "");
    assert!(root.is_public);
    assert_eq!(root.symbols.len(), 0);
}

#[test]
fn modules_of_several_directories() {
    let symbol = stub_symbol_with_name(STUB_SYMBOL_NAME);
    let directories = vec![
        directory("", true, empty_file(), vec![]),
        directory(
            "nested",
            false,
            RustFile {
                doc_comment: None,
                symbols: vec![stub_rust_symbol(symbol.clone())],
            },
            vec![],
        ),
    ];

    let modules = extract_modules(&directories).unwrap();

    assert_eq!(modules.len(), 2);
    assert_eq!(modules[0].name, "");
    assert_eq!(modules[1].name, "nested");
    assert_eq!(modules[1].symbols, vec![stub_module_item(symbol)]);
}

#[test]
fn blocks_before_internal_files() {
    let directory = directory(
        "",
        true,
        RustFile {
            doc_comment: None,
            symbols: vec![
                RustSymbol::ModuleImport {
                    name: "a".to_string(),
                    is_reexported: true,
                },
                RustSymbol::ModuleBlock {
                    name: "b".to_string(),
                    content: vec![RustSymbol::ModuleBlock {
                        name: "c".to_string(),
                        content: vec![],
                        doc_comment: None,
                        is_public: true,
                    }],
                    doc_comment: None,
                    is_public: true,
                },
            ],
        },
        vec![("a", empty_file())],
    );

    let modules = directory.extract_modules().unwrap();

    let names: Vec<_> = modules.iter().map(|m| m.name.as_str()).collect();
    assert_eq!(names, vec!["", "b", "b::c", "a"]);
}
