//! The values that the extraction hands back: symbols, namespaces and errors.

use vstd::prelude::*;

use crate::text::copy_string;

verus! {

/// A public symbol: its name and its rendered declaration.
#[derive(Debug, Clone)]
pub struct Symbol {
    pub name: String,
    pub source_code: String,
}

/// The mathematical value of a [`Symbol`].
pub struct SymbolView {
    pub name: Seq<char>,
    pub source_code: Seq<char>,
}

impl View for Symbol {
    type V = SymbolView;

    open spec fn view(&self) -> SymbolView {
        SymbolView { name: self.name@, source_code: self.source_code@ }
    }
}

impl PartialEq for Symbol {
    fn eq(&self, other: &Symbol) -> (r: bool) {
        self.name == other.name && self.source_code == other.source_code
    }
}

impl vstd::std_specs::cmp::PartialEqSpecImpl for Symbol {
    open spec fn obeys_eq_spec() -> bool {
        true
    }

    open spec fn eq_spec(&self, other: &Symbol) -> bool {
        self@ == other@
    }
}

impl Symbol {
    /// A symbol with the given name and rendered declaration.
    pub fn new(name: &str, source_code: &str) -> (r: Symbol)
        ensures
            r.name@ == name@,
            r.source_code@ == source_code@,
    {
        Symbol { name: name.to_owned(), source_code: source_code.to_owned() }
    }

    /// A copy of this symbol.
    pub fn duplicate(&self) -> (r: Symbol)
        ensures
            r@ == self@,
    {
        Symbol { name: copy_string(&self.name), source_code: copy_string(&self.source_code) }
    }
}

/// The symbols visible at one public module path.
#[derive(Debug, Clone)]
pub struct Namespace {
    /// The package-prefixed module path.
    pub name: String,
    pub symbols: Vec<Symbol>,
    pub doc_comment: Option<String>,
}

/// The mathematical value of a [`Namespace`].
pub struct NamespaceView {
    pub name: Seq<char>,
    pub symbols: Seq<SymbolView>,
    pub doc_comment: Option<Seq<char>>,
}

/// The view of an optional string.
pub open spec fn opt_view(o: Option<String>) -> Option<Seq<char>> {
    match o {
        Some(s) => Some(s@),
        None => None,
    }
}

impl View for Namespace {
    type V = NamespaceView;

    open spec fn view(&self) -> NamespaceView {
        NamespaceView {
            name: self.name@,
            symbols: self.symbols@.map_values(|s: Symbol| s@),
            doc_comment: opt_view(self.doc_comment),
        }
    }
}

impl Namespace {
    /// The first symbol of this namespace with the given name.
    pub fn get_symbol(&self, name: &str) -> (r: Option<&Symbol>)
        ensures
            r matches Some(s) ==> s.name@ == name@ && self.symbols@.contains(*s),
            r is None ==> forall|i: int|
                0 <= i < self.symbols@.len() ==> self.symbols@[i].name@ != name@,
    {
        let target = name.to_owned();
        let mut i: usize = 0;
        while i < self.symbols.len()
            invariant
                i <= self.symbols@.len(),
                target@ == name@,
                forall|k: int| 0 <= k < i ==> self.symbols@[k].name@ != name@,
            decreases self.symbols@.len() - i,
        {
            if self.symbols[i].name == target {
                return Some(&self.symbols[i]);
            }
            i = i + 1;
        }
        None
    }
}

/// Why an extraction failed.
#[derive(Debug, Clone)]
pub enum ExtractionError {
    /// A file that the extraction needs could not be read.
    Io(String),
    /// The syntax parser produced no tree.
    Parse(String),
    /// A structure that the extraction expects is absent.
    Malformed(String),
}

impl ExtractionError {
    /// The message that the error carries.
    pub fn message(&self) -> (r: String)
        ensures
            self matches ExtractionError::Io(m) ==> r@ == m@,
            self matches ExtractionError::Parse(m) ==> r@ == m@,
            self matches ExtractionError::Malformed(m) ==> r@ == m@,
    {
        match self {
            ExtractionError::Io(m) => copy_string(m),
            ExtractionError::Parse(m) => copy_string(m),
            ExtractionError::Malformed(m) => copy_string(m),
        }
    }
}

} // verus!
