use daipendency_extractor_rust::{parse_rust_file, ExtractionError, ImportType, RustFile, RustSymbol};

fn setup_parser() -> tree_sitter::Parser {
    let mut parser = tree_sitter::Parser::new();
    parser
        .set_language(&tree_sitter_rust::LANGUAGE.into())
        .unwrap();
    parser
}

fn parse(source_code: &str) -> RustFile {
    let mut parser = setup_parser();
    parse_rust_file(source_code, &mut parser).unwrap()
}

fn module_items<'a>(file: &'a RustFile, path: &str) -> Option<&'a [RustSymbol]> {
    let mut current: &[RustSymbol] = &file.symbols;
    for part in path.split("::") {
        let next = current.iter().find_map(|s| match s {
            RustSymbol::ModuleBlock { name, content, .. } if name == part => Some(content),
            _ => None,
        })?;
        current = next;
    }
    Some(current)
}

fn get_symbol<'a>(file: &'a RustFile, path: &str) -> Option<&'a RustSymbol> {
    let parts: Vec<&str> = path.split("::").collect();
    let (name, symbols) = if parts.len() == 1 {
        (parts[0], &file.symbols[..])
    } else {
        let module = parts[..parts.len() - 1].join("::");
        (parts[parts.len() - 1], module_items(file, &module)?)
    };
    symbols.iter().find(|s| match s {
        RustSymbol::Symbol { symbol } => symbol.name == name,
        RustSymbol::ModuleBlock { name: n, .. } => n == name,
        RustSymbol::ModuleImport { name: n, .. } => n == name,
        RustSymbol::Reexport { source_path, .. } => source_path.split("::").last().unwrap() == name,
    })
}

fn source_of(file: &RustFile, name: &str) -> String {
    match get_symbol(file, name) {
        Some(RustSymbol::Symbol { symbol }) => symbol.source_code.clone(),
        other => panic!("Expected a symbol, got {:?}", other),
    }
}

fn reexports(file: &RustFile) -> Vec<(String, ImportType)> {
    file.symbols
        .iter()
        .filter_map(|s| match s {
            RustSymbol::Reexport {
                source_path,
                import_type,
            } => Some((source_path.clone(), import_type.clone())),
            _ => None,
        })
        .collect()
}

#[test]
fn empty_source_file() {
    let rust_file = parse("");

    assert!(rust_file.symbols.is_empty());
}

#[test]
fn invalid_syntax() {
    let rust_file = parse("echo 'Hello, World!'");

    assert!(rust_file.symbols.is_empty());
}

#[test]
fn parser_without_language() {
    let mut parser = tree_sitter::Parser::new();

    let result = parse_rust_file("pub struct Test;", &mut parser);

    assert!(matches!(result, Err(ExtractionError::Parse(_))));
}

#[test]
fn reexports_multiple_symbols() {
    let rust_file = parse(
        r#"
pub use other::{One, Two};
"#,
    );

    assert!(get_symbol(&rust_file, "One").is_some());
    assert!(get_symbol(&rust_file, "Two").is_some());
}

#[test]
fn function_declaration() {
    let rust_file = parse(
        r#"
pub fn test_function() -> i32 {
    return 42;
}
"#,
    );

    assert_eq!(source_of(&rust_file, "test_function"), "pub fn test_function() -> i32;");
}

#[test]
fn macro_declaration() {
    let rust_file = parse(
        r#"
#[macro_export]
macro_rules! test_macro {
    () => { println!("Hello, world!"); }
}
"#,
    );

    assert_eq!(
        source_of(&rust_file, "test_macro"),
        "#[macro_export]\nmacro_rules! test_macro;"
    );
}

#[test]
fn private_symbols() {
    let rust_file = parse(
        r#"
fn private_function() {}
"#,
    );

    assert_eq!(rust_file.symbols.len(), 0);
}

#[test]
fn public_modules() {
    let rust_file = parse(
        r#"
pub mod inner {
    pub fn nested_function() -> String {}
}
"#,
    );

    let symbol = get_symbol(&rust_file, "inner::nested_function").unwrap();
    assert!(matches!(symbol, RustSymbol::Symbol { .. }));
}

#[test]
fn private_modules() {
    let rust_file = parse(
        r#"
mod private {
    pub fn private_function() -> String {}
}
"#,
    );

    // A private block is kept, marked private, so that re-exports can reach it.
    assert_eq!(rust_file.symbols.len(), 1);
    assert!(matches!(
        &rust_file.symbols[0],
        RustSymbol::ModuleBlock { name, is_public: false, content, .. }
        if name == "private" && content.len() == 1
    ));
}

#[test]
fn empty_modules() {
    let rust_file = parse(
        r#"
pub mod empty {}
"#,
    );

    let empty_content = module_items(&rust_file, "empty").unwrap();
    assert_eq!(rust_file.symbols.len(), 1);
    assert!(empty_content.is_empty());
}

#[test]
fn inner_module_symbols() {
    let rust_file = parse(
        r#"
pub mod inner {
    pub mod deeper {
        pub enum DeeperEnum {
            A, B
        }
    }
}
"#,
    );

    let deeper_enum = get_symbol(&rust_file, "inner::deeper::DeeperEnum").unwrap();
    assert!(matches!(deeper_enum, RustSymbol::Symbol { .. }));
}

#[test]
fn module_declarations() {
    let rust_file = parse(
        r#"
pub mod other;
"#,
    );

    let module_declaration = get_symbol(&rust_file, "other").unwrap();
    assert!(matches!(
        module_declaration,
        RustSymbol::ModuleImport { is_reexported: true, .. }
    ));
}

#[test]
fn file_without_docs() {
    let rust_file = parse(
        r#"
pub struct Test {}
"#,
    );

    assert!(rust_file.doc_comment.is_none());
}

#[test]
fn file_with_docs() {
    let rust_file = parse(
        r#"
//! File-level documentation
pub struct Test {}
"#,
    );

    assert_eq!(
        rust_file.doc_comment,
        Some("//! File-level documentation\n".to_string())
    );
}

#[test]
fn symbol_with_outer_doc_comment() {
    let rust_file = parse(
        r#"
/// Symbol documentation
pub struct Test {}
"#,
    );

    assert_eq!(
        source_of(&rust_file, "Test"),
        "/// Symbol documentation\npub struct Test {}"
    );
}

#[test]
fn file_and_symbol_with_doc_comments() {
    let rust_file = parse(
        r#"
//! File-level documentation
/// Symbol documentation
pub struct Test {}
"#,
    );

    assert_eq!(
        rust_file.doc_comment,
        Some("//! File-level documentation\n".to_string())
    );
    assert_eq!(
        source_of(&rust_file, "Test"),
        "/// Symbol documentation\npub struct Test {}"
    );
}

#[test]
fn multiline_doc_comment() {
    let rust_file = parse(
        r#"
//! This is a file-level doc comment
//! It spans multiple lines
pub struct Test {}
"#,
    );

    assert_eq!(
        rust_file.doc_comment,
        Some("//! This is a file-level doc comment\n//! It spans multiple lines\n".to_string())
    );
}

#[test]
fn regular_comment_not_doc_comment() {
    let rust_file = parse(
        r#"
// This is a regular comment
pub struct Test {}
"#,
    );

    assert!(rust_file.doc_comment.is_none());
    assert_eq!(source_of(&rust_file, "Test"), "pub struct Test {}");
}

#[test]
fn multiple_line() {
    let rust_file = parse(
        r#"
/// First line
/// Second line
pub struct Test {}
"#,
    );

    assert_eq!(
        source_of(&rust_file, "Test"),
        "/// First line\n/// Second line\npub struct Test {}"
    );
}

#[test]
fn regular_comments() {
    let rust_file = parse(
        r#"
// Regular comment
/// Doc comment
pub struct Test {}
"#,
    );

    assert_eq!(source_of(&rust_file, "Test"), "/// Doc comment\npub struct Test {}");
}

#[test]
fn block_doc_comments() {
    let rust_file = parse(
        r#"
/** A block doc comment
 * with multiple lines
 */
pub struct Test {}
"#,
    );

    assert_eq!(
        source_of(&rust_file, "Test"),
        "/** A block doc comment\n * with multiple lines\n */\npub struct Test {}"
    );
}

#[test]
fn preceding_symbol() {
    let rust_file = parse(
        r#"
/// First struct's doc
pub struct FirstStruct {}
/// Second struct's doc
pub struct SecondStruct {}
"#,
    );

    assert_eq!(
        source_of(&rust_file, "SecondStruct"),
        "/// Second struct's doc\npub struct SecondStruct {}"
    );
}

#[test]
fn block_comment_preceded_by_line_comment() {
    let rust_file = parse(
        r#"
/// This line should be ignored
/** This block comment
 * should be returned
 */
pub struct Test {}
"#,
    );

    assert_eq!(
        source_of(&rust_file, "Test"),
        "/** This block comment\n * should be returned\n */\npub struct Test {}"
    );
}

#[test]
fn line_comment_preceded_by_block_comment() {
    let rust_file = parse(
        r#"
/** Block comment that shouldn't be output */
/// Doc comment that should be output
pub struct Foo {}
"#,
    );

    assert_eq!(
        source_of(&rust_file, "Foo"),
        "/// Doc comment that should be output\npub struct Foo {}"
    );
}

#[test]
fn doc_comment_with_attribute() {
    let rust_file = parse(
        r#"
/// The doc comment
#[derive(Debug)]
pub enum Foo {}
"#,
    );

    assert_eq!(
        source_of(&rust_file, "Foo"),
        "/// The doc comment\n#[derive(Debug)]\npub enum Foo {}"
    );
}

#[test]
fn doc_comment_with_multiple_attributes() {
    let rust_file = parse(
        r#"
/// The doc comment
#[derive(Debug)]
#[serde(rename = "foo")]
pub enum Foo {}
"#,
    );

    assert_eq!(
        source_of(&rust_file, "Foo"),
        "/// The doc comment\n#[derive(Debug)]\n#[serde(rename = \"foo\")]\npub enum Foo {}"
    );
}

#[test]
fn attribute_without_doc_comment() {
    let rust_file = parse(
        r#"
#[derive(Debug)]
pub enum Foo {}
"#,
    );

    assert_eq!(source_of(&rust_file, "Foo"), "#[derive(Debug)]\npub enum Foo {}");
}

#[test]
fn trait_method_doc_comments() {
    let rust_file = parse(
        r#"
pub trait TestTrait {
    /// A documented method
    pub fn test_method(&self) -> i32 {
        42
    }
}
"#,
    );

    assert_eq!(
        source_of(&rust_file, "TestTrait"),
        "pub trait TestTrait {\n    /// A documented method\n    pub fn test_method(&self) -> i32;\n}"
    );
}

#[test]
fn function_with_body() {
    let rust_file = parse(
        r#"pub fn test_function(x: i32) -> i32 {
            x + 42
        }"#,
    );

    assert_eq!(
        source_of(&rust_file, "test_function"),
        "pub fn test_function(x: i32) -> i32;"
    );
}

#[test]
fn symbol_with_attributes() {
    let rust_file = parse(
        r#"#[cfg(test)]
pub fn test_function(x: i32) -> i32 { 42 }"#,
    );

    assert_eq!(
        source_of(&rust_file, "test_function"),
        "#[cfg(test)]\npub fn test_function(x: i32) -> i32;"
    );
}

#[test]
fn trait_with_method() {
    let rust_file = parse(
        r#"pub trait TestTrait {
            pub fn test_method(&self) -> i32 {
                42
            }
        }"#,
    );

    assert_eq!(
        source_of(&rust_file, "TestTrait"),
        "pub trait TestTrait {\n    pub fn test_method(&self) -> i32;\n}"
    );
}

#[test]
fn trait_with_required_method() {
    let rust_file = parse(
        r#"pub trait TestTrait {
    fn required(&self) -> i32;
}"#,
    );

    assert_eq!(
        source_of(&rust_file, "TestTrait"),
        "pub trait TestTrait {\n    fn required(&self) -> i32;\n}"
    );
}

#[test]
fn struct_with_fields() {
    let source_code = r#"pub struct TestStruct {
            field1: i32,
            field2: String,
        }"#;
    let rust_file = parse(source_code);

    assert_eq!(source_of(&rust_file, "TestStruct"), source_code);
}

#[test]
fn public_macro() {
    let rust_file = parse(
        r#"#[macro_export]
macro_rules! test_macro {
    () => { println!("Hello, world!"); }
}"#,
    );

    assert_eq!(
        source_of(&rust_file, "test_macro"),
        "#[macro_export]\nmacro_rules! test_macro;"
    );
}

#[test]
fn private_macro() {
    let rust_file = parse(
        r#"macro_rules! test_macro {
    () => { println!("Hello, world!"); }
}"#,
    );

    assert!(rust_file.symbols.is_empty());
}

#[test]
fn macro_with_doc_comment() {
    let rust_file = parse(
        r#"#[macro_export]
/// This is a test macro
macro_rules! test_macro {
    () => { println!("Hello, world!"); }
}"#,
    );

    assert_eq!(
        source_of(&rust_file, "test_macro"),
        "/// This is a test macro\n#[macro_export]\nmacro_rules! test_macro;"
    );
}

#[test]
fn public_function() {
    let rust_file = parse("pub fn test() {}");

    assert_eq!(rust_file.symbols.len(), 1);
}

#[test]
fn private_function() {
    let rust_file = parse("fn test() {}");

    assert!(rust_file.symbols.is_empty());
}

#[test]
fn public_crate_function() {
    let rust_file = parse("pub(crate) fn test() {}");

    assert_eq!(source_of(&rust_file, "test"), "pub(crate) fn test();");
}

#[test]
fn public_super_function() {
    let rust_file = parse("pub(super) fn test() {}");

    assert_eq!(source_of(&rust_file, "test"), "pub(super) fn test();");
}

#[test]
fn function_name() {
    let rust_file = parse("pub fn test_function() {}");

    assert!(get_symbol(&rust_file, "test_function").is_some());
}

#[test]
fn struct_name() {
    let rust_file = parse("pub struct TestStruct {}");

    assert!(get_symbol(&rust_file, "TestStruct").is_some());
}

#[test]
fn enum_name() {
    let rust_file = parse("pub enum TestEnum {}");

    assert!(get_symbol(&rust_file, "TestEnum").is_some());
}

#[test]
fn trait_name() {
    let rust_file = parse("pub trait TestTrait {}");

    assert!(get_symbol(&rust_file, "TestTrait").is_some());
}

#[test]
fn module_name() {
    let rust_file = parse("pub mod test_module {}");

    assert!(matches!(
        get_symbol(&rust_file, "test_module"),
        Some(RustSymbol::ModuleBlock { .. })
    ));
}

#[test]
fn external_crate_reexport() {
    let rust_file = parse(r#"pub use serde_json;"#);

    assert_eq!(
        reexports(&rust_file),
        vec![("serde_json".to_string(), ImportType::Simple)]
    );
}

#[test]
fn reexports_import_without_reexport() {
    let rust_file = parse(
        r#"
use inner::Format;
"#,
    );

    assert!(rust_file.symbols.is_empty());
}

#[test]
fn reexports_single_reexport() {
    let rust_file = parse(
        r#"
pub use inner::Format;
"#,
    );

    assert_eq!(
        reexports(&rust_file),
        vec![("inner::Format".to_string(), ImportType::Simple)]
    );
}

#[test]
fn reexports_renamed_reexport() {
    let rust_file = parse(r#"pub use inner::Foo as Bar;"#);

    assert_eq!(
        reexports(&rust_file),
        vec![(
            "inner::Foo".to_string(),
            ImportType::Aliased("Bar".to_string())
        )]
    );
}

#[test]
fn reexports_multiple_reexports() {
    let rust_file = parse(
        r#"
pub use inner::{TextFormatter, OtherType};
"#,
    );

    assert_eq!(
        reexports(&rust_file),
        vec![
            ("inner::TextFormatter".to_string(), ImportType::Simple),
            ("inner::OtherType".to_string(), ImportType::Simple)
        ]
    );
}

#[test]
fn reexports_relative_wildcard_reexport() {
    let rust_file = parse(
        r#"
pub use inner::*;
"#,
    );

    assert_eq!(
        reexports(&rust_file),
        vec![("inner".to_string(), ImportType::Wildcard)]
    );
}

#[test]
fn reexports_absolute_wildcard_reexport() {
    let rust_file = parse(
        r#"
pub use crate::inner::*;
"#,
    );

    assert_eq!(
        reexports(&rust_file),
        vec![("crate::inner".to_string(), ImportType::Wildcard)]
    );
}

#[test]
fn module_import() {
    let rust_file = parse(r#"pub use r#type;"#);

    assert_eq!(
        reexports(&rust_file),
        vec![("type".to_string(), ImportType::Simple)]
    );
}

#[test]
fn simple_symbol_import() {
    let rust_file = parse(r#"pub use submodule::r#fn;"#);

    assert_eq!(
        reexports(&rust_file),
        vec![("submodule::fn".to_string(), ImportType::Simple)]
    );
}

#[test]
fn alias_module_as_raw() {
    let rust_file = parse(r#"pub use submodule::the_type as r#type;"#);

    assert_eq!(
        reexports(&rust_file),
        vec![(
            "submodule::the_type".to_string(),
            ImportType::Aliased("type".to_string())
        )]
    );
}

#[test]
fn alias_raw_as_module() {
    let rust_file = parse(r#"pub use r#type::Foo as Bar;"#);

    assert_eq!(
        reexports(&rust_file),
        vec![(
            "type::Foo".to_string(),
            ImportType::Aliased("Bar".to_string())
        )]
    );
}

#[test]
fn raw_module_wildcard() {
    let rust_file = parse(r#"pub use r#type::{Foo, Bar};"#);

    assert_eq!(
        reexports(&rust_file),
        vec![
            ("type::Foo".to_string(), ImportType::Simple),
            ("type::Bar".to_string(), ImportType::Simple)
        ]
    );
}

#[test]
fn module_raw_symbols_wildcard() {
    let rust_file = parse(r#"pub use submodule::{r#fn, r#type};"#);

    assert_eq!(
        reexports(&rust_file),
        vec![
            ("submodule::fn".to_string(), ImportType::Simple),
            ("submodule::type".to_string(), ImportType::Simple)
        ]
    );
}

#[test]
fn alias_of_single_segment() {
    let rust_file = parse(r#"pub use serde as serialisation;"#);

    assert_eq!(
        reexports(&rust_file),
        vec![(
            "serde".to_string(),
            ImportType::Aliased("serialisation".to_string())
        )]
    );
}

#[test]
fn non_ascii_source() {
    let rust_file = parse("/// Größe in µm\npub fn größe() -> f64 { 1.0 }");

    assert_eq!(source_of(&rust_file, "größe"), "/// Größe in µm\npub fn größe() -> f64;");
}

#[test]
fn no_doc_comment() {
    let rust_file = parse(
        r#"
pub struct Test {}
"#,
    );

    assert!(rust_file.doc_comment.is_none());
}

#[test]
fn single_line_doc_comment() {
    let rust_file = parse(
        r#"
//! This is a file-level doc comment
pub struct Test {}
"#,
    );

    assert_eq!(
        rust_file.doc_comment,
        Some("//! This is a file-level doc comment\n".to_string())
    );
}

#[test]
fn no_doc_comments() {
    let rust_file = parse(
        r#"
pub struct Test {}
"#,
    );

    assert_eq!(source_of(&rust_file, "Test"), "pub struct Test {}");
}

#[test]
fn single_line() {
    let rust_file = parse(
        r#"
/// A documented item
pub struct Test {}
"#,
    );

    assert_eq!(
        source_of(&rust_file, "Test"),
        "/// A documented item\npub struct Test {}"
    );
}

#[test]
fn inner_doc_comments() {
    let rust_file = parse(
        r#"
//! Inner doc
/// Outer doc
pub struct Test {}
"#,
    );

    assert_eq!(source_of(&rust_file, "Test"), "/// Outer doc\npub struct Test {}");
}

#[test]
fn file_level_doc_comments() {
    let rust_file = parse(
        r#"
//! File-level documentation
/// This is the struct's doc
pub struct Test {}
"#,
    );

    assert_eq!(
        source_of(&rust_file, "Test"),
        "/// This is the struct's doc\npub struct Test {}"
    );
}

#[test]
fn no_attributes() {
    let rust_file = parse("pub fn test() {}");

    assert_eq!(source_of(&rust_file, "test"), "pub fn test();");
}

#[test]
fn single_attribute() {
    let rust_file = parse("#[derive(Debug)]\npub fn test() {}");

    assert_eq!(source_of(&rust_file, "test"), "#[derive(Debug)]\npub fn test();");
}

#[test]
fn multiple_attributes() {
    let rust_file = parse("#[derive(Debug)]\n#[cfg(test)]\npub fn test() {}");

    assert_eq!(
        source_of(&rust_file, "test"),
        "#[derive(Debug)]\n#[cfg(test)]\npub fn test();"
    );
}

#[test]
fn attributes_with_complex_content() {
    let rust_file =
        parse("#[cfg_attr(feature = \"serde\", derive(Serialize, Deserialize))]\npub fn test() {}");

    assert_eq!(
        source_of(&rust_file, "test"),
        "#[cfg_attr(feature = \"serde\", derive(Serialize, Deserialize))]\npub fn test();"
    );
}

#[test]
fn inner_module_doc_comment() {
    let rust_file = parse("pub mod inner {\n    //! Inner docs\n    pub struct S;\n}");

    assert!(matches!(
        &rust_file.symbols[0],
        RustSymbol::ModuleBlock { doc_comment: Some(d), .. } if d == "//! Inner docs\n"
    ));
}

fn tree_of(source_code: &str) -> daipendency_extractor_rust::syntax::SyntaxNode {
    let mut parser = setup_parser();
    daipendency_extractor_rust::syntax::parse_syntax(&mut parser, source_code).unwrap()
}

fn find_child_node<'a>(
    root: &'a daipendency_extractor_rust::syntax::SyntaxNode,
    kind: &str,
) -> &'a daipendency_extractor_rust::syntax::SyntaxNode {
    let nodes: Vec<_> = root.children.iter().filter(|n| n.kind == kind).collect();
    assert_eq!(nodes.len(), 1);
    nodes[0]
}

#[test]
fn reexports_non_import() {
    let source_code = r#"pub enum Format {}"#;
    let tree = tree_of(source_code);
    let node = find_child_node(&tree, "enum_item");
    let chars: Vec<char> = source_code.chars().collect();

    let result = daipendency_extractor_rust::parsing::extract_symbol_reexports(&chars, node);

    assert!(matches!(
        result,
        Err(ExtractionError::Malformed(msg)) if msg == format!("Failed to find symbol reexport: {}", source_code)
    ));
}

#[test]
fn symbol_reexports_non_import() {
    let source_code = r#"pub enum Format {}"#;
    let tree = tree_of(source_code);
    let node = find_child_node(&tree, "enum_item");
    let chars: Vec<char> = source_code.chars().collect();

    let result = daipendency_extractor_rust::parsing::extract_symbol_reexports(&chars, node);

    assert!(matches!(result, Err(ExtractionError::Malformed(_))));
}

#[test]
fn should_fail_on_invalid_node() {
    let source_code = "// just a comment";
    let tree = tree_of(source_code);
    let comment = find_child_node(&tree, "line_comment");
    let chars: Vec<char> = source_code.chars().collect();

    let result = daipendency_extractor_rust::parsing::extract_name(&chars, comment);

    assert!(result.is_err());
}

#[test]
fn symbol_reexports_import_without_reexport() {
    let rust_file = parse("\nuse inner::Format;\n");

    assert!(rust_file.symbols.is_empty());
}

#[test]
fn symbol_reexports_single_reexport() {
    let rust_file = parse("\npub use inner::Format;\n");

    assert_eq!(
        reexports(&rust_file),
        vec![("inner::Format".to_string(), ImportType::Simple)]
    );
}

#[test]
fn symbol_reexports_renamed_reexport() {
    let rust_file = parse(r#"pub use inner::Foo as Bar;"#);

    assert_eq!(
        reexports(&rust_file),
        vec![("inner::Foo".to_string(), ImportType::Aliased("Bar".to_string()))]
    );
}

#[test]
fn symbol_reexports_multiple_reexports() {
    let rust_file = parse("\npub use inner::{TextFormatter, OtherType};\n");

    assert_eq!(
        reexports(&rust_file),
        vec![
            ("inner::TextFormatter".to_string(), ImportType::Simple),
            ("inner::OtherType".to_string(), ImportType::Simple)
        ]
    );
}

#[test]
fn symbol_reexports_relative_wildcard_reexport() {
    let rust_file = parse("\npub use inner::*;\n");

    assert_eq!(
        reexports(&rust_file),
        vec![("inner".to_string(), ImportType::Wildcard)]
    );
}

#[test]
fn symbol_reexports_absolute_wildcard_reexport() {
    let rust_file = parse("\npub use crate::inner::*;\n");

    assert_eq!(
        reexports(&rust_file),
        vec![("crate::inner".to_string(), ImportType::Wildcard)]
    );
}

#[test]
fn macro_with_parenthesised_body() {
    let rust_file = parse("#[macro_export]\nmacro_rules! paren_macro (\n    () => {}\n);");

    assert_eq!(
        source_of(&rust_file, "paren_macro"),
        "#[macro_export]\nmacro_rules! paren_macro;"
    );
}

#[test]
fn macro_with_bracketed_body() {
    let rust_file = parse("#[macro_export]\nmacro_rules! bracket_macro [\n    () => {}\n];");

    assert_eq!(
        source_of(&rust_file, "bracket_macro"),
        "#[macro_export]\nmacro_rules! bracket_macro;"
    );
}
