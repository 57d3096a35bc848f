use daipendency_extractor_rust::{build_public_api, ExtractionError, SourceFile, SourceTree};

const STUB_CRATE_NAME: &str = "test_crate";

fn setup_parser() -> tree_sitter::Parser {
    let mut parser = tree_sitter::Parser::new();
    parser
        .set_language(&tree_sitter_rust::LANGUAGE.into())
        .unwrap();
    parser
}

fn tree(files: &[(&str, &str)], directories: &[&str]) -> SourceTree {
    SourceTree {
        files: files
            .iter()
            .map(|(path, content)| SourceFile {
                path: path.to_string(),
                content: Some(content.to_string()),
            })
            .collect(),
        directories: directories.iter().map(|d| d.to_string()).collect(),
    }
}

#[test]
fn nonexistent_file() {
    let mut parser = setup_parser();
    let sources = tree(&[], &[]);

    let result = build_public_api("nonexistent.rs", STUB_CRATE_NAME, &sources, &mut parser);

    assert!(matches!(result, Err(ExtractionError::Io(_))));
}

#[test]
fn integration() {
    let sources = tree(
        &[
            (
                "src/lib.rs",
                r#"
pub mod module;
pub use module::Format;

pub fn process(format: Format) -> String {
    "processed".to_string()
}
"#,
            ),
            (
                "src/module.rs",
                r#"
pub enum Format {
    Text,
    Binary,
}
"#,
            ),
        ],
        &["src"],
    );
    let mut parser = setup_parser();

    let namespaces = build_public_api("src/lib.rs", STUB_CRATE_NAME, &sources, &mut parser).unwrap();

    assert_eq!(namespaces.len(), 2);
    let root = namespaces
        .iter()
        .find(|n| n.name == STUB_CRATE_NAME)
        .unwrap();
    assert_eq!(root.symbols.len(), 2);
    assert!(root.symbols.iter().any(|s| s.name == "process"));
    assert!(root.symbols.iter().any(|s| s.name == "Format"));
    let module = namespaces
        .iter()
        .find(|n| n.name == format!("{}::module", STUB_CRATE_NAME))
        .unwrap();
    assert_eq!(module.symbols.len(), 1);
    assert!(module.symbols.iter().any(|s| s.name == "Format"));
    assert_eq!(
        root.get_symbol("Format").unwrap().source_code,
        module.get_symbol("Format").unwrap().source_code
    );
    assert_eq!(namespaces[0].name, STUB_CRATE_NAME);
}

#[test]
fn mod_wildcard_reexport() {
    let sources = tree(
        &[
            ("src/lib.rs", "\nmod submodule;\npub use submodule::*;\n"),
            ("src/submodule.rs", "\npub struct One;\npub struct Two;\n"),
        ],
        &["src"],
    );
    let mut parser = setup_parser();

    let namespaces = build_public_api("src/lib.rs", STUB_CRATE_NAME, &sources, &mut parser).unwrap();

    assert_eq!(namespaces.len(), 1);
    let root = &namespaces[0];
    assert_eq!(root.symbols.len(), 2);
    assert_eq!(root.get_symbol("One").unwrap().source_code, "pub struct One;");
    assert_eq!(root.get_symbol("Two").unwrap().source_code, "pub struct Two;");
}

#[test]
fn new_style_module_directory() {
    let sources = tree(
        &[
            ("src/lib.rs", "pub mod module;"),
            ("src/module.rs", "pub mod submodule;"),
            ("src/module/submodule.rs", "pub struct Foo;"),
        ],
        &["src", "src/module"],
    );
    let mut parser = setup_parser();

    let namespaces = build_public_api("src/lib.rs", STUB_CRATE_NAME, &sources, &mut parser).unwrap();

    assert_eq!(namespaces.len(), 1);
    let namespace = &namespaces[0];
    assert_eq!(namespace.name, format!("{STUB_CRATE_NAME}::module::submodule"));
    assert_eq!(namespace.symbols.len(), 1);
    assert!(namespace.get_symbol("Foo").is_some());
}

#[test]
fn legacy_module_directory() {
    let sources = tree(
        &[
            ("src/lib.rs", "pub mod module;"),
            ("src/module/mod.rs", "pub mod submodule;"),
            ("src/module/submodule.rs", "pub struct Foo;"),
        ],
        &["src", "src/module"],
    );
    let mut parser = setup_parser();

    let namespaces = build_public_api("src/lib.rs", STUB_CRATE_NAME, &sources, &mut parser).unwrap();

    assert_eq!(namespaces.len(), 1);
    assert_eq!(namespaces[0].name, "test_crate::module::submodule");
    assert!(namespaces[0].get_symbol("Foo").is_some());
}

#[test]
fn external_dependency_reexport() {
    let sources = tree(&[("src/lib.rs", "\npub use serde_json;\n")], &["src"]);
    let mut parser = setup_parser();

    let namespaces = build_public_api("src/lib.rs", STUB_CRATE_NAME, &sources, &mut parser).unwrap();

    assert_eq!(namespaces.len(), 1);
    let root = &namespaces[0];
    assert_eq!(root.name, STUB_CRATE_NAME);
    assert_eq!(root.symbols.len(), 1);
    let symbol = root.get_symbol("serde_json").unwrap();
    assert_eq!(symbol.source_code, "pub use serde_json;");
}

#[test]
fn chained_aliasing() {
    let sources = tree(
        &[(
            "src/lib.rs",
            r#"
pub use child::Bar as Foo;
pub mod child {
    pub use grandchild::Baz as Bar;
    pub mod grandchild {
        pub struct Baz;
    }
}
"#,
        )],
        &["src"],
    );
    let mut parser = setup_parser();

    let namespaces = build_public_api("src/lib.rs", "test-crate", &sources, &mut parser).unwrap();

    let names: Vec<_> = namespaces.iter().map(|n| n.name.as_str()).collect();
    assert_eq!(
        names,
        vec!["test_crate", "test_crate::child", "test_crate::child::grandchild"]
    );
    assert_eq!(
        namespaces[0].get_symbol("Foo").unwrap().source_code,
        "pub use child::Bar as Foo;"
    );
    assert_eq!(
        namespaces[1].get_symbol("Bar").unwrap().source_code,
        "pub use grandchild::Baz as Bar;"
    );
    assert_eq!(
        namespaces[2].get_symbol("Baz").unwrap().source_code,
        "pub struct Baz;"
    );
}

#[test]
fn clashing_reexports_under_same_name() {
    let sources = tree(
        &[(
            "src/lib.rs",
            r#"
pub mod foo {
    pub fn test() {}
}
pub mod bar {
    pub fn test() -> i32 { 1 }
}
pub mod first {
    pub use crate::foo::test;
}
pub mod second {
    pub use crate::bar::test;
}
"#,
        )],
        &["src"],
    );
    let mut parser = setup_parser();

    let namespaces = build_public_api("src/lib.rs", STUB_CRATE_NAME, &sources, &mut parser).unwrap();

    let find = |name: &str| namespaces.iter().find(|n| n.name == name).unwrap();
    assert_eq!(find("test_crate::foo").symbols[0].source_code, "pub fn test();");
    assert_eq!(find("test_crate::bar").symbols[0].source_code, "pub fn test() -> i32;");
    assert_eq!(find("test_crate::first").symbols.len(), 1);
    assert_eq!(find("test_crate::first").symbols[0].source_code, "pub fn test();");
    assert_eq!(find("test_crate::second").symbols.len(), 1);
    assert_eq!(find("test_crate::second").symbols[0].source_code, "pub fn test() -> i32;");
}

#[test]
fn super_reexport_from_root() {
    let sources = tree(&[("src/lib.rs", "pub use super::Thing;")], &["src"]);
    let mut parser = setup_parser();

    let result = build_public_api("src/lib.rs", STUB_CRATE_NAME, &sources, &mut parser);

    assert!(matches!(result, Err(ExtractionError::Malformed(_))));
}

#[test]
fn same_input_same_output() {
    let sources = tree(
        &[
            ("src/lib.rs", "pub mod b;\npub mod a;\npub use a::*;\npub fn f() {}"),
            ("src/a.rs", "pub struct X;\npub struct Y;"),
            ("src/b.rs", "pub use crate::a::X as Z;"),
        ],
        &["src"],
    );
    let mut parser = setup_parser();

    let first = build_public_api("src/lib.rs", STUB_CRATE_NAME, &sources, &mut parser).unwrap();
    let second = build_public_api("src/lib.rs", STUB_CRATE_NAME, &sources, &mut parser).unwrap();

    let render = |ns: &Vec<daipendency_extractor_rust::Namespace>| format!("{:?}", ns);
    assert_eq!(render(&first), render(&second));
    let root = &first[0];
    let names: Vec<_> = root.symbols.iter().map(|s| s.name.as_str()).collect();
    assert_eq!(names, vec!["f", "X", "Y"]);
}
