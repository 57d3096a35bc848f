//! The model of one parsed source file.

use vstd::prelude::*;

use crate::types::{opt_view, Symbol, SymbolView};

verus! {

/// How a re-export names what it publishes.
#[derive(Debug, Clone)]
pub enum ImportType {
    /// `pub use a::b;`
    Simple,
    /// `pub use a::*;`
    Wildcard,
    /// `pub use a::b as c;`
    Aliased(String),
}

/// The mathematical value of an [`ImportType`].
pub enum ImportKind {
    Simple,
    Wildcard,
    Aliased(Seq<char>),
}

impl View for ImportType {
    type V = ImportKind;

    open spec fn view(&self) -> ImportKind {
        match self {
            ImportType::Simple => ImportKind::Simple,
            ImportType::Wildcard => ImportKind::Wildcard,
            ImportType::Aliased(a) => ImportKind::Aliased(a@),
        }
    }
}

impl PartialEq for ImportType {
    fn eq(&self, other: &ImportType) -> (r: bool) {
        match self {
            ImportType::Simple => match other {
                ImportType::Simple => true,
                _ => false,
            },
            ImportType::Wildcard => match other {
                ImportType::Wildcard => true,
                _ => false,
            },
            ImportType::Aliased(a) => match other {
                ImportType::Aliased(b) => *a == *b,
                _ => false,
            },
        }
    }
}

impl vstd::std_specs::cmp::PartialEqSpecImpl for ImportType {
    open spec fn obeys_eq_spec() -> bool {
        true
    }

    open spec fn eq_spec(&self, other: &ImportType) -> bool {
        match *self {
            ImportType::Simple => other is Simple,
            ImportType::Wildcard => other is Wildcard,
            ImportType::Aliased(a) => match *other {
                ImportType::Aliased(b) => a@ == b@,
                _ => false,
            },
        }
    }
}

impl ImportType {
    /// A copy of this import type.
    pub fn duplicate(&self) -> (r: ImportType)
        ensures
            r@ == self@,
    {
        match self {
            ImportType::Simple => ImportType::Simple,
            ImportType::Wildcard => ImportType::Wildcard,
            ImportType::Aliased(a) => ImportType::Aliased(crate::text::copy_string(a)),
        }
    }
}

/// An item of a source file that the extraction keeps.
#[derive(Debug)]
pub enum RustSymbol {
    /// A public symbol definition.
    Symbol { symbol: Symbol },
    /// A public re-export; the path is as written.
    Reexport { source_path: String, import_type: ImportType },
    /// An inline module block, `mod name { ... }`.
    ModuleBlock { name: String, is_public: bool, content: Vec<RustSymbol>, doc_comment: Option<String> },
    /// A module declared by `mod name;`, whose content lives in another file.
    ModuleImport { name: String, is_reexported: bool },
}

/// The model of a parsed source file.
#[derive(Debug)]
pub struct RustFile {
    /// The file's inner documentation comment.
    pub doc_comment: Option<String>,
    /// The file's items in source order.
    pub symbols: Vec<RustSymbol>,
}

/// The mathematical value of a [`RustSymbol`].
pub enum FileItem {
    SymbolDef(SymbolView),
    Reexport(Seq<char>, ImportKind),
    InlineModule(Seq<char>, bool, Option<Seq<char>>, Seq<FileItem>),
    ExternalModule(Seq<char>, bool),
}

/// The view of one item, nested blocks included.
pub open spec fn item_view(s: RustSymbol) -> FileItem
    decreases s, 0nat,
{
    match s {
        RustSymbol::Symbol { symbol } => FileItem::SymbolDef(symbol@),
        RustSymbol::Reexport { source_path, import_type } => FileItem::Reexport(
            source_path@,
            import_type@,
        ),
        RustSymbol::ModuleBlock { name, is_public, content, doc_comment } => {
            proof {
                broadcast use vstd::std_specs::vec::axiom_vec_decreases_to_view;
                assert(decreases_to!(content => content@));
            }
            FileItem::InlineModule(name@, is_public, opt_view(doc_comment), items_view(content@))
        },
        RustSymbol::ModuleImport { name, is_reexported } => FileItem::ExternalModule(
            name@,
            is_reexported,
        ),
    }
}

/// The views of a sequence of items.
pub open spec fn items_view(s: Seq<RustSymbol>) -> Seq<FileItem>
    decreases s, s.len(),
{
    if s.len() == 0 {
        Seq::empty()
    } else {
        proof {
            broadcast use vstd::seq::axiom_seq_index_decreases;
            assert(decreases_to!(s => s[s.len() - 1]));
        }
        items_view(s.drop_last()).push(item_view(s[s.len() - 1]))
    }
}

impl View for RustSymbol {
    type V = FileItem;

    open spec fn view(&self) -> FileItem {
        item_view(*self)
    }
}


/// The view of a file: its documentation and items.
pub open spec fn file_view(f: RustFile) -> (Option<Seq<char>>, Seq<FileItem>) {
    (opt_view(f.doc_comment), items_view(f.symbols@))
}

pub proof fn lemma_items_view_push(s: Seq<RustSymbol>, x: RustSymbol)
    ensures
        items_view(s.push(x)) == items_view(s).push(x@),
{
    assert(s.push(x).drop_last() =~= s);
}

fn copy_opt(d: &Option<String>) -> (r: Option<String>)
    ensures
        opt_view(r) == opt_view(*d),
{
    match d {
        Some(s) => Some(crate::text::copy_string(s)),
        None => None,
    }
}

/// A deep copy of a sequence of items.
pub fn copy_items(items: &Vec<RustSymbol>) -> (r: Vec<RustSymbol>)
    ensures
        items_view(r@) == items_view(items@),
    decreases items@,
{
    let mut r: Vec<RustSymbol> = Vec::new();
    let mut i: usize = 0;
    while i < items.len()
        invariant
            i <= items@.len(),
            items_view(r@) == items_view(items@.take(i as int)),
        decreases items@.len() - i,
    {
        let x = match &items[i] {
            RustSymbol::Symbol { symbol } => RustSymbol::Symbol { symbol: symbol.duplicate() },
            RustSymbol::Reexport { source_path, import_type } => RustSymbol::Reexport {
                source_path: crate::text::copy_string(source_path),
                import_type: import_type.duplicate(),
            },
            RustSymbol::ModuleBlock { name, is_public, content, doc_comment } => {
                proof {
                    broadcast use vstd::seq::axiom_seq_index_decreases;
                    broadcast use vstd::std_specs::vec::axiom_vec_decreases_to_view;
                    assert(decreases_to!(items@ => items@[i as int]));
                    assert(decreases_to!(*content => content@));
                }
                RustSymbol::ModuleBlock {
                    name: crate::text::copy_string(name),
                    is_public: *is_public,
                    content: copy_items(content),
                    doc_comment: copy_opt(doc_comment),
                }
            },
            RustSymbol::ModuleImport { name, is_reexported } => RustSymbol::ModuleImport {
                name: crate::text::copy_string(name),
                is_reexported: *is_reexported,
            },
        };
        assert(x@ == items@[i as int]@);
        let ghost before = r@;
        r.push(x);
        proof {
            lemma_items_view_push(before, x);
            lemma_items_view_push(items@.take(i as int), items@[i as int]);
            assert(items@.take(i + 1) =~= items@.take(i as int).push(items@[i as int]));
        }
        i = i + 1;
    }
    assert(items@.take(items@.len() as int) =~= items@);
    r
}

impl RustFile {
    /// A deep copy of this file model.
    pub fn duplicate(&self) -> (r: RustFile)
        ensures
            file_view(r) == file_view(*self),
    {
        RustFile { doc_comment: copy_opt(&self.doc_comment), symbols: copy_items(&self.symbols) }
    }
}

} // verus!
