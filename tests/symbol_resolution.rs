use daipendency_extractor_rust::{
    resolve_symbols, ExtractionError, ImportType, Module, ModuleItem, Symbol, SymbolResolution,
};

fn stub_symbol_with_name(name: &str) -> Symbol {
    Symbol {
        name: name.to_string(),
        source_code: format!("pub fn {}() {{}}", name),
    }
}

fn stub_symbol() -> Symbol {
    stub_symbol_with_name("test")
}

fn module(name: &str, is_public: bool, symbols: Vec<ModuleItem>) -> Module {
    Module {
        name: name.to_string(),
        is_public,
        doc_comment: None,
        symbols,
    }
}

fn def(symbol: &Symbol) -> ModuleItem {
    ModuleItem::Symbol {
        symbol: symbol.clone(),
    }
}

fn reexport(path: &str, import_type: ImportType) -> ModuleItem {
    ModuleItem::SymbolReexport {
        source_path: path.to_string(),
        import_type,
    }
}

fn symbol_modules(resolution: &SymbolResolution, symbol: &Symbol) -> Vec<String> {
    let mut modules = resolution
        .symbols
        .iter()
        .find(|s| &s.symbol == symbol)
        .expect("no matching symbol")
        .modules
        .clone();
    modules.sort();
    modules
}

fn sorted(mut v: Vec<String>) -> Vec<String> {
    v.sort();
    v
}

#[test]
fn at_root() {
    let symbol = stub_symbol();
    let modules = vec![module("", true, vec![def(&symbol)])];

    let resolution = resolve_symbols(&modules).unwrap();

    assert_eq!(resolution.symbols.len(), 1);
    assert_eq!(symbol_modules(&resolution, &symbol), vec![String::new()]);
}

#[test]
fn at_submodule() {
    let symbol = stub_symbol();
    let modules = vec![module("outer::inner", true, vec![def(&symbol)])];

    let resolution = resolve_symbols(&modules).unwrap();

    assert_eq!(resolution.symbols.len(), 1);
    assert_eq!(
        symbol_modules(&resolution, &symbol),
        vec!["outer::inner".to_string()]
    );
}

#[test]
fn module_via_submodule() {
    let symbol = stub_symbol();
    let modules = vec![
        module("", true, vec![reexport("module::test", ImportType::Simple)]),
        module("module", false, vec![def(&symbol)]),
    ];

    let resolution = resolve_symbols(&modules).unwrap();

    assert_eq!(resolution.symbols.len(), 1);
    assert_eq!(symbol_modules(&resolution, &symbol), vec![String::new()]);
}

#[test]
fn symbol_via_private_module_block() {
    let symbol = stub_symbol();
    let modules = vec![
        module("", true, vec![reexport("priv::test", ImportType::Simple)]),
        module("priv", false, vec![def(&symbol)]),
    ];

    let resolution = resolve_symbols(&modules).unwrap();

    assert_eq!(resolution.symbols.len(), 1);
    assert_eq!(symbol_modules(&resolution, &symbol), vec![String::new()]);
}

#[test]
fn partial_private_module_reexport() {
    let reexported_symbol = stub_symbol_with_name("reexported");
    let non_reexported_symbol = stub_symbol_with_name("non_reexported");
    let modules = vec![
        module(
            "",
            true,
            vec![reexport(
                &format!("inner::{}", reexported_symbol.name),
                ImportType::Simple,
            )],
        ),
        module(
            "inner",
            false,
            vec![def(&reexported_symbol), def(&non_reexported_symbol)],
        ),
    ];

    let resolution = resolve_symbols(&modules).unwrap();

    assert_eq!(resolution.symbols.len(), 1);
    assert_eq!(
        symbol_modules(&resolution, &reexported_symbol),
        vec![String::new()]
    );
}

#[test]
fn clashing_reexports() {
    let foo_symbol = stub_symbol_with_name("test");
    let bar_symbol = Symbol {
        name: "test".to_string(),
        source_code: "pub fn test() -> i32;".to_string(),
    };
    let modules = vec![
        module("foo", true, vec![def(&foo_symbol)]),
        module("bar", true, vec![def(&bar_symbol)]),
        module("reexporter1", true, vec![reexport("foo::test", ImportType::Simple)]),
        module("reexporter2", true, vec![reexport("bar::test", ImportType::Simple)]),
    ];

    let resolution = resolve_symbols(&modules).unwrap();

    assert_eq!(resolution.symbols.len(), 2);
    assert_eq!(
        symbol_modules(&resolution, &foo_symbol),
        sorted(vec!["foo".to_string(), "reexporter1".to_string()])
    );
    assert_eq!(
        symbol_modules(&resolution, &bar_symbol),
        sorted(vec!["bar".to_string(), "reexporter2".to_string()])
    );
}

#[test]
fn clashing_reexports_in_one_module() {
    let foo_symbol = stub_symbol_with_name("test");
    let bar_symbol = Symbol {
        name: "test".to_string(),
        source_code: "pub fn test() -> i32;".to_string(),
    };
    let modules = vec![
        module("foo", true, vec![def(&foo_symbol)]),
        module("bar", true, vec![def(&bar_symbol)]),
        module(
            "reexporter",
            true,
            vec![
                reexport("foo::test", ImportType::Simple),
                reexport("bar::test", ImportType::Simple),
            ],
        ),
    ];

    let resolution = resolve_symbols(&modules).unwrap();

    assert_eq!(resolution.symbols.len(), 2);
    assert_eq!(
        symbol_modules(&resolution, &foo_symbol),
        sorted(vec!["foo".to_string(), "reexporter".to_string()])
    );
    assert_eq!(
        symbol_modules(&resolution, &bar_symbol),
        sorted(vec!["bar".to_string(), "reexporter".to_string()])
    );
}

#[test]
fn crate_path_reference() {
    let symbol = stub_symbol();
    let modules = vec![
        module("", true, vec![reexport("crate::inner::test", ImportType::Simple)]),
        module("inner", false, vec![def(&symbol)]),
    ];

    let resolution = resolve_symbols(&modules).unwrap();

    assert_eq!(resolution.symbols.len(), 1);
    assert_eq!(symbol_modules(&resolution, &symbol), vec![String::new()]);
}

#[test]
fn super_path_from_root() {
    let modules = vec![module("", true, vec![reexport("super::test", ImportType::Simple)])];

    let result = resolve_symbols(&modules);

    assert!(matches!(
        result,
        Err(ExtractionError::Malformed(msg)) if msg == "Cannot use super from the root module (super::test)"
    ));
}

#[test]
fn super_path_from_child() {
    let symbol = stub_symbol();
    let modules = vec![
        module("", true, vec![def(&symbol)]),
        module("child", false, vec![reexport("super::test", ImportType::Simple)]),
    ];

    let resolution = resolve_symbols(&modules).unwrap();

    assert_eq!(resolution.symbols.len(), 1);
    assert_eq!(symbol_modules(&resolution, &symbol), vec!["".to_string()]);
}

#[test]
fn super_path_from_grandchild() {
    let symbol = stub_symbol();
    let modules = vec![
        module("parent", true, vec![def(&symbol)]),
        module("parent::child", false, vec![reexport("super::test", ImportType::Simple)]),
    ];

    let resolution = resolve_symbols(&modules).unwrap();

    assert_eq!(resolution.symbols.len(), 1);
    assert_eq!(
        symbol_modules(&resolution, &symbol),
        vec!["parent".to_string()]
    );
}

#[test]
fn self_path_from_root() {
    let symbol = stub_symbol();
    let modules = vec![
        module("", true, vec![reexport("self::child::test", ImportType::Simple)]),
        module("child", false, vec![def(&symbol)]),
    ];

    let resolution = resolve_symbols(&modules).unwrap();

    assert_eq!(resolution.symbols.len(), 1);
    assert_eq!(symbol_modules(&resolution, &symbol), vec!["".to_string()]);
}

#[test]
fn self_path_from_child() {
    let symbol = stub_symbol();
    let modules = vec![
        module("module", true, vec![reexport("self::inner::test", ImportType::Simple)]),
        module("module::inner", false, vec![def(&symbol)]),
    ];

    let resolution = resolve_symbols(&modules).unwrap();

    assert_eq!(resolution.symbols.len(), 1);
    assert_eq!(
        symbol_modules(&resolution, &symbol),
        vec!["module".to_string()]
    );
}

#[test]
fn simple_nested() {
    let symbol = stub_symbol_with_name("Foo");
    let modules = vec![
        module("", true, vec![reexport("child::Foo", ImportType::Simple)]),
        module("child", false, vec![reexport("grandchild::Foo", ImportType::Simple)]),
        module("child::grandchild", false, vec![def(&symbol)]),
    ];

    let resolution = resolve_symbols(&modules).unwrap();

    assert_eq!(resolution.symbols.len(), 1);
    assert_eq!(symbol_modules(&resolution, &symbol), vec![String::new()]);
}

#[test]
fn simple_missing() {
    let reference_source_code = "missing::test";
    let modules = vec![module(
        "outer",
        true,
        vec![reexport(reference_source_code, ImportType::Simple)],
    )];

    let result = resolve_symbols(&modules).unwrap();

    assert_eq!(result.symbols.len(), 1);
    let resolved_symbol = result.symbols[0].clone();
    assert_eq!(
        resolved_symbol.symbol.source_code,
        format!("pub use {};", reference_source_code)
    );
    assert_eq!(resolved_symbol.symbol.name, "test");
    assert_eq!(resolved_symbol.modules, vec!["outer".to_string()]);
}

#[test]
fn aliased_direct() {
    let original_symbol = stub_symbol_with_name("test");
    let modules = vec![
        module(
            "reexporter",
            true,
            vec![reexport(
                "inner::test",
                ImportType::Aliased("aliased_test".to_string()),
            )],
        ),
        module("inner", true, vec![def(&original_symbol)]),
    ];

    let resolution = resolve_symbols(&modules).unwrap();

    assert_eq!(resolution.symbols.len(), 2);
    let original = resolution
        .symbols
        .iter()
        .find(|s| s.symbol.name == "test")
        .unwrap();
    let aliased = resolution
        .symbols
        .iter()
        .find(|s| s.symbol.name == "aliased_test")
        .unwrap();
    assert_eq!(original.symbol, original_symbol);
    assert_eq!(
        aliased.symbol.source_code,
        "pub use inner::test as aliased_test;"
    );
    assert_eq!(original.modules, vec!["inner".to_string()]);
    assert_eq!(aliased.modules, vec!["reexporter".to_string()]);
}

#[test]
fn aliased_twice() {
    let original_symbol = stub_symbol_with_name("test");
    let modules = vec![
        module(
            "reexporter",
            true,
            vec![
                reexport("inner::test", ImportType::Aliased("first".to_string())),
                reexport("inner::test", ImportType::Aliased("second".to_string())),
            ],
        ),
        module("inner", true, vec![def(&original_symbol)]),
    ];

    let resolution = resolve_symbols(&modules).unwrap();

    assert_eq!(resolution.symbols.len(), 3);
    let original = resolution
        .symbols
        .iter()
        .find(|s| s.symbol.name == "test")
        .unwrap();
    assert_eq!(original.symbol, original_symbol);
    assert_eq!(original.modules, vec!["inner".to_string()]);
    for alias in ["first", "second"] {
        let aliased = resolution
            .symbols
            .iter()
            .find(|s| s.symbol.name == alias)
            .unwrap();
        assert_eq!(
            aliased.symbol.source_code,
            format!("pub use inner::test as {};", alias)
        );
        assert_eq!(aliased.modules, vec!["reexporter".to_string()]);
    }
}

#[test]
fn aliased_nested() {
    let symbol = stub_symbol_with_name("Baz");
    let modules = vec![
        module(
            "",
            true,
            vec![reexport("child::Bar", ImportType::Aliased("Foo".to_string()))],
        ),
        module(
            "child",
            true,
            vec![reexport(
                "grandchild::Baz",
                ImportType::Aliased("Bar".to_string()),
            )],
        ),
        module("child::grandchild", true, vec![def(&symbol)]),
    ];

    let resolution = resolve_symbols(&modules).unwrap();

    assert_eq!(resolution.symbols.len(), 3);
    let original = resolution
        .symbols
        .iter()
        .find(|s| s.symbol.name == "Baz")
        .unwrap();
    assert_eq!(original.symbol, symbol);
    assert_eq!(original.modules, vec!["child::grandchild".to_string()]);
    let first_reexport = resolution
        .symbols
        .iter()
        .find(|s| s.symbol.name == "Bar")
        .unwrap();
    assert_eq!(
        first_reexport.symbol.source_code,
        "pub use grandchild::Baz as Bar;"
    );
    assert_eq!(first_reexport.modules, vec!["child".to_string()]);
    let second_reexport = resolution
        .symbols
        .iter()
        .find(|s| s.symbol.name == "Foo")
        .unwrap();
    assert_eq!(
        second_reexport.symbol.source_code,
        "pub use child::Bar as Foo;"
    );
    assert_eq!(second_reexport.modules, vec![String::new()]);
}

#[test]
fn aliased_via_private_module() {
    let original_symbol = stub_symbol_with_name("Bar");
    let modules = vec![
        module(
            "",
            true,
            vec![reexport("child::Bar", ImportType::Aliased("Foo".to_string()))],
        ),
        module("child", false, vec![def(&original_symbol)]),
    ];

    let resolution = resolve_symbols(&modules).unwrap();

    assert_eq!(resolution.symbols.len(), 1);
    let expected_symbol = stub_symbol_with_name("Foo");
    assert_eq!(
        symbol_modules(&resolution, &expected_symbol),
        vec![String::new()]
    );
}

#[test]
fn aliased_renames_whole_words_only() {
    let original_symbol = Symbol {
        name: "Bar".to_string(),
        source_code: "pub struct Bar(BarInner);".to_string(),
    };
    let modules = vec![
        module(
            "",
            true,
            vec![reexport("child::Bar", ImportType::Aliased("Foo".to_string()))],
        ),
        module("child", false, vec![def(&original_symbol)]),
    ];

    let resolution = resolve_symbols(&modules).unwrap();

    assert_eq!(resolution.symbols.len(), 1);
    assert_eq!(
        resolution.symbols[0].symbol.source_code,
        "pub struct Foo(BarInner);"
    );
}

#[test]
fn aliased_missing() {
    let reference_source_code = "missing::test";
    let alias = "aliased_test";
    let modules = vec![module(
        "outer",
        true,
        vec![reexport(
            reference_source_code,
            ImportType::Aliased(alias.to_string()),
        )],
    )];

    let result = resolve_symbols(&modules).unwrap();

    assert_eq!(result.symbols.len(), 1);
    let resolved_symbol = result.symbols[0].clone();
    assert_eq!(
        resolved_symbol.symbol.source_code,
        format!("pub use {} as {};", reference_source_code, alias)
    );
    assert_eq!(resolved_symbol.modules, vec!["outer".to_string()]);
}

#[test]
fn wildcard_direct() {
    let symbol1 = stub_symbol_with_name("one");
    let symbol2 = stub_symbol_with_name("two");
    let modules = vec![
        module("", true, vec![reexport("inner", ImportType::Wildcard)]),
        module("inner", false, vec![def(&symbol1), def(&symbol2)]),
    ];

    let resolution = resolve_symbols(&modules).unwrap();

    assert_eq!(resolution.symbols.len(), 2);
    assert_eq!(symbol_modules(&resolution, &symbol1), vec![String::new()]);
    assert_eq!(symbol_modules(&resolution, &symbol2), vec![String::new()]);
}

#[test]
fn wildcard_nested() {
    let symbol1 = stub_symbol_with_name("One");
    let symbol2 = stub_symbol_with_name("Two");
    let modules = vec![
        module("", true, vec![reexport("child", ImportType::Wildcard)]),
        module("child", false, vec![reexport("grandchild", ImportType::Wildcard)]),
        module("child::grandchild", false, vec![def(&symbol1), def(&symbol2)]),
    ];

    let resolution = resolve_symbols(&modules).unwrap();

    assert_eq!(resolution.symbols.len(), 2);
    assert_eq!(symbol_modules(&resolution, &symbol1), vec![String::new()]);
    assert_eq!(symbol_modules(&resolution, &symbol2), vec![String::new()]);
}

#[test]
fn wildcard_missing() {
    let reference_source_code = "missing";
    let modules = vec![module(
        "outer",
        true,
        vec![reexport(reference_source_code, ImportType::Wildcard)],
    )];

    let result = resolve_symbols(&modules).unwrap();

    assert_eq!(result.symbols.len(), 1);
    let resolved_symbol = result.symbols[0].clone();
    assert_eq!(
        resolved_symbol.symbol.source_code,
        format!("pub use {}::*;", reference_source_code)
    );
    assert_eq!(resolved_symbol.modules, vec!["outer".to_string()]);
}

#[test]
fn reexport_cycle_terminates() {
    let modules = vec![
        module("", true, vec![reexport("a::X", ImportType::Simple)]),
        module("a", false, vec![reexport("b::X", ImportType::Simple)]),
        module("b", false, vec![reexport("a::X", ImportType::Simple)]),
    ];

    let result = resolve_symbols(&modules).unwrap();

    assert_eq!(result.symbols.len(), 1);
    assert_eq!(result.symbols[0].symbol.source_code, "pub use a::X;");
    assert_eq!(result.symbols[0].modules, vec![String::new()]);
}

#[test]
fn namespace_without_doc_comment() {
    let modules = vec![module("text", true, Vec::new())];

    let resolution = resolve_symbols(&modules).unwrap();

    assert!(resolution.doc_comments.is_empty());
}

#[test]
fn namespace_with_doc_comment() {
    let modules = vec![Module {
        name: "text".to_string(),
        is_public: true,
        doc_comment: Some("Module for text processing".to_string()),
        symbols: Vec::new(),
    }];

    let resolution = resolve_symbols(&modules).unwrap();
    assert_eq!(resolution.doc_comments.len(), 1);
    assert_eq!(
        resolution.doc_comments.get("text"),
        Some(&"Module for text processing".to_string())
    );
}

#[test]
fn aliased_declaration_uses_renamed_source_when_chain_is_private() {
    let declaration = daipendency_extractor_rust::symbol_resolution::aliased_declaration(
        "child::Bar",
        "",
        "Foo",
        false,
        "pub struct Foo;",
    );

    assert_eq!(declaration.symbol.name, "Foo");
    assert_eq!(declaration.symbol.source_code, "pub struct Foo;");
    assert_eq!(declaration.modules, vec![String::new()]);
}

#[test]
fn aliased_declaration_is_a_use_when_chain_is_public() {
    let declaration = daipendency_extractor_rust::symbol_resolution::aliased_declaration(
        "child::Bar",
        "outer",
        "Foo",
        true,
        "pub struct Foo;",
    );

    assert_eq!(declaration.symbol.source_code, "pub use child::Bar as Foo;");
    assert_eq!(declaration.modules, vec!["outer".to_string()]);
}

#[test]
fn empty_doc_comment_is_not_recorded() {
    let modules = vec![Module {
        name: String::new(),
        is_public: true,
        doc_comment: Some(String::new()),
        symbols: Vec::new(),
    }];

    let resolution = resolve_symbols(&modules).unwrap();

    assert!(resolution.doc_comments.is_empty());
}
