//! Module directories (one per directory scope of the file tree) and the flat
//! modules that they expand to.

use vstd::prelude::*;

use crate::files::{file_view, item_view, items_view, FileItem, ImportKind, ImportType, RustFile, RustSymbol};
use crate::text::{copy_string, join_path, join_path_exec};
use crate::types::{opt_view, Symbol, SymbolView};

verus! {

/// An item of a flat module.
#[derive(Debug, Clone)]
pub enum ModuleItem {
    /// A public symbol (e.g. `pub struct Foo { ... }`).
    Symbol { symbol: Symbol },
    /// A symbol re-export (e.g. `pub use foo::Bar;`), with its path as written.
    SymbolReexport { source_path: String, import_type: ImportType },
}

/// The mathematical value of a [`ModuleItem`].
pub enum ItemView {
    Def(SymbolView),
    Reexport(Seq<char>, ImportKind),
}

impl View for ModuleItem {
    type V = ItemView;

    open spec fn view(&self) -> ItemView {
        match self {
            ModuleItem::Symbol { symbol } => ItemView::Def(symbol@),
            ModuleItem::SymbolReexport { source_path, import_type } => ItemView::Reexport(
                source_path@,
                import_type@,
            ),
        }
    }
}

impl PartialEq for ModuleItem {
    fn eq(&self, other: &ModuleItem) -> (r: bool) {
        match self {
            ModuleItem::Symbol { symbol: a } => match other {
                ModuleItem::Symbol { symbol: b } => *a == *b,
                _ => false,
            },
            ModuleItem::SymbolReexport { source_path: p, import_type: k } => match other {
                ModuleItem::SymbolReexport { source_path: q, import_type: l } => *p == *q && *k == *l,
                _ => false,
            },
        }
    }
}

impl vstd::std_specs::cmp::PartialEqSpecImpl for ModuleItem {
    open spec fn obeys_eq_spec() -> bool {
        true
    }

    open spec fn eq_spec(&self, other: &ModuleItem) -> bool {
        match *self {
            ModuleItem::Symbol { symbol: a } => match *other {
                ModuleItem::Symbol { symbol: b } => a@ == b@,
                _ => false,
            },
            ModuleItem::SymbolReexport { source_path: p, import_type: k } => match *other {
                ModuleItem::SymbolReexport { source_path: q, import_type: l } => p@ == q@ && k@ == l@,
                _ => false,
            },
        }
    }
}

/// A flat module with its fully qualified name (empty for the root).
#[derive(Debug, Clone)]
pub struct Module {
    pub name: String,
    pub is_public: bool,
    pub doc_comment: Option<String>,
    pub symbols: Vec<ModuleItem>,
}

/// The mathematical value of a [`Module`].
pub struct ModuleView {
    pub name: Seq<char>,
    pub is_public: bool,
    pub doc: Option<Seq<char>>,
    pub items: Seq<ItemView>,
}

impl View for Module {
    type V = ModuleView;

    open spec fn view(&self) -> ModuleView {
        ModuleView {
            name: self.name@,
            is_public: self.is_public,
            doc: opt_view(self.doc_comment),
            items: self.symbols@.map_values(|i: ModuleItem| i@),
        }
    }
}

/// The views of a sequence of modules.
pub open spec fn modules_view(m: Seq<Module>) -> Seq<ModuleView> {
    m.map_values(|x: Module| x@)
}


/// The files of a directory scope other than its entry point, by module name.
#[derive(Debug)]
pub struct InternalFiles {
    pub entries: Vec<(String, RustFile)>,
}

impl InternalFiles {
    /// No files.
    pub fn new() -> (r: InternalFiles)
        ensures
            r.entries@.len() == 0,
    {
        InternalFiles { entries: Vec::new() }
    }

    /// The file of the module with the given name.
    pub fn get(&self, name: &str) -> (r: Option<&RustFile>)
        ensures
            r matches Some(f) ==> file_lookup(self.entries@, name@) matches Some(k) && self.entries@[k].1 == *f,
            r is None ==> file_lookup(self.entries@, name@) is None,
    {
        let target = name.to_owned();
        match self.find(&target) {
            Some(k) => Some(&self.entries[k].1),
            None => None,
        }
    }

    /// Whether a file is held for the module with the given name.
    pub fn contains_key(&self, name: &str) -> (r: bool)
        ensures
            r == (file_lookup(self.entries@, name@) is Some),
    {
        let target = name.to_owned();
        self.find(&target).is_some()
    }

    fn find(&self, name: &String) -> (r: Option<usize>)
        ensures
            r matches Some(k) ==> file_lookup(self.entries@, name@) == Some(k as int) && k < self.entries@.len(),
            r is None ==> file_lookup(self.entries@, name@) is None,
    {
        let mut i: usize = 0;
        while i < self.entries.len()
            invariant
                i <= self.entries@.len(),
                file_lookup(self.entries@, name@) == file_lookup_from(self.entries@, name@, i as int),
            decreases self.entries@.len() - i,
        {
            if self.entries[i].0 == *name {
                return Some(i);
            }
            i = i + 1;
        }
        None
    }
}

/// The first file at or after `i` held for module `name`.
pub open spec fn file_lookup_from(files: Seq<(String, RustFile)>, name: Seq<char>, i: int) -> Option<int>
    decreases files.len() - i,
{
    if i < 0 || i >= files.len() {
        None
    } else if files[i].0@ == name {
        Some(i)
    } else {
        file_lookup_from(files, name, i + 1)
    }
}

pub open spec fn file_lookup(files: Seq<(String, RustFile)>, name: Seq<char>) -> Option<int> {
    file_lookup_from(files, name, 0)
}

/// A module directory like `src` (with `src/lib.rs`) or `src/submodule`
/// (with `src/submodule/mod.rs` or `src/submodule.rs`).
#[derive(Debug)]
pub struct ModuleDirectory {
    /// The qualified name of the directory's module: empty for the root.
    pub name: String,
    /// Whether the declaration that reached the directory is public.
    pub is_public: bool,
    /// The parsed entry point of the directory.
    pub entry_point: RustFile,
    /// The sibling files that the entry point's `mod name;` declarations reach.
    pub internal_files: InternalFiles,
}

/// The symbols and re-exports among the first `k` items, in order.
pub open spec fn own_items(items: Seq<RustSymbol>, k: int) -> Seq<ItemView>
    decreases k,
{
    if k <= 0 || k > items.len() {
        Seq::empty()
    } else {
        let prev = own_items(items, k - 1);
        match items[k - 1] {
            RustSymbol::Symbol { symbol } => prev.push(ItemView::Def(symbol@)),
            RustSymbol::Reexport { source_path, import_type } => prev.push(
                ItemView::Reexport(source_path@, import_type@),
            ),
            _ => prev,
        }
    }
}

pub open spec fn own_module(name: Seq<char>, is_public: bool, doc: Option<Seq<char>>, items: Seq<RustSymbol>) -> ModuleView {
    ModuleView { name, is_public, doc, items: own_items(items, items.len() as int) }
}

/// The flat modules of an inline block (or a file) and of the blocks nested in it.
pub open spec fn flatten_inline(
    name: Seq<char>,
    is_public: bool,
    doc: Option<Seq<char>>,
    items: Seq<RustSymbol>,
) -> Seq<ModuleView>
    decreases items, items.len() + 1,
{
    seq![own_module(name, is_public, doc, items)] + nested_modules(name, items, items.len() as int)
}

/// The flat modules of the blocks among the first `k` items.
pub open spec fn nested_modules(name: Seq<char>, items: Seq<RustSymbol>, k: int) -> Seq<ModuleView>
    decreases items, k,
{
    if k <= 0 || k > items.len() {
        Seq::empty()
    } else {
        nested_modules(name, items, k - 1) + match items[k - 1] {
            RustSymbol::ModuleBlock { name: n, is_public, content, doc_comment } => {
                proof {
                    broadcast use vstd::seq::axiom_seq_index_decreases;
                    broadcast use vstd::std_specs::vec::axiom_vec_decreases_to_view;
                    assert(decreases_to!(items => items[k - 1]));
                    assert(decreases_to!(content => content@));
                }
                flatten_inline(join_path(name, n@), is_public, opt_view(doc_comment), content@)
            },
            _ => Seq::empty(),
        }
    }
}

/// The flat modules of the internal files that the `mod name;` declarations
/// among the first `k` items of a directory's entry point reach.
pub open spec fn directory_children(
    name: Seq<char>,
    items: Seq<RustSymbol>,
    files: Seq<(String, RustFile)>,
    k: int,
) -> Seq<ModuleView>
    decreases k,
{
    if k <= 0 || k > items.len() {
        Seq::empty()
    } else {
        directory_children(name, items, files, k - 1) + match items[k - 1] {
            RustSymbol::ModuleImport { name: n, is_reexported } => match file_lookup(files, n@) {
                Some(f) => if 0 <= f < files.len() {
                    flatten_inline(
                        join_path(name, n@),
                        is_reexported,
                        opt_view(files[f].1.doc_comment),
                        files[f].1.symbols@,
                    )
                } else {
                    Seq::empty()
                },
                None => Seq::empty(),
            },
            _ => Seq::empty(),
        }
    }
}

/// The flat modules of a directory: its own module first, then those of its
/// inline blocks (nested ones included), then those of its internal files.
pub open spec fn directory_modules(d: ModuleDirectory) -> Seq<ModuleView> {
    let items = d.entry_point.symbols@;
    seq![own_module(d.name@, d.is_public, opt_view(d.entry_point.doc_comment), items)]
        + nested_modules(d.name@, items, items.len() as int)
        + directory_children(d.name@, items, d.internal_files.entries@, items.len() as int)
}

fn own_items_exec(items: &Vec<RustSymbol>) -> (r: Vec<ModuleItem>)
    ensures
        r@.map_values(|i: ModuleItem| i@) == own_items(items@, items@.len() as int),
{
    let mut r: Vec<ModuleItem> = Vec::new();
    let mut k: usize = 0;
    while k < items.len()
        invariant
            k <= items@.len(),
            r@.map_values(|i: ModuleItem| i@) == own_items(items@, k as int),
        decreases items@.len() - k,
    {
        let ghost before = r@;
        match &items[k] {
            RustSymbol::Symbol { symbol } => {
                let it = ModuleItem::Symbol { symbol: symbol.duplicate() };
                r.push(it);
                assert(r@.map_values(|i: ModuleItem| i@) =~= before.map_values(|i: ModuleItem| i@).push(it@));
            },
            RustSymbol::Reexport { source_path, import_type } => {
                let it = ModuleItem::SymbolReexport {
                    source_path: copy_string(source_path),
                    import_type: import_type.duplicate(),
                };
                r.push(it);
                assert(r@.map_values(|i: ModuleItem| i@) =~= before.map_values(|i: ModuleItem| i@).push(it@));
            },
            _ => {},
        }
        k = k + 1;
    }
    r
}

fn copy_doc(d: &Option<String>) -> (r: Option<String>)
    ensures
        opt_view(r) == opt_view(*d),
{
    match d {
        Some(s) => Some(copy_string(s)),
        None => None,
    }
}

fn extract_modules_from_symbols(name: String, is_public: bool, doc: Option<String>, items: &Vec<RustSymbol>) -> (r: Vec<Module>)
    ensures
        modules_view(r@) == flatten_inline(name@, is_public, opt_view(doc), items@),
    decreases items@, items@.len() + 1,
{
    let mut out: Vec<Module> = Vec::new();
    let mut k: usize = 0;
    while k < items.len()
        invariant
            k <= items@.len(),
            modules_view(out@) == nested_modules(name@, items@, k as int),
        decreases items@.len() - k,
    {
        let mut part: Vec<Module> = match &items[k] {
            RustSymbol::ModuleBlock { name: n, is_public: p, content, doc_comment } => {
                proof {
                    broadcast use vstd::seq::axiom_seq_index_decreases;
                    broadcast use vstd::std_specs::vec::axiom_vec_decreases_to_view;
                    assert(decreases_to!(items@ => items@[k as int]));
                    assert(decreases_to!(*content => content@));
                }
                extract_modules_from_symbols(join_path_exec(name.as_str(), n.as_str()), *p, copy_doc(doc_comment), content)
            },
            _ => Vec::new(),
        };
        let ghost before = modules_view(out@);
        let ghost added = modules_view(part@);
        out.append(&mut part);
        assert(modules_view(out@) =~= before + added);
        k = k + 1;
    }
    let symbols = own_items_exec(items);
    let root = Module { name, is_public, doc_comment: doc, symbols };
    let ghost rv = root@;
    out.insert(0, root);
    assert(modules_view(out@) =~= seq![rv] + nested_modules(rv.name, items@, items@.len() as int));
    out
}

impl ModuleDirectory {
    /// The flat modules of this directory: its own module, then one per inline
    /// block (nested ones included) and per internal file, in source order.
    pub fn extract_modules(&self) -> (r: Result<Vec<Module>, crate::types::ExtractionError>)
        ensures
            r matches Ok(ms) && modules_view(ms@) == directory_modules(*self),
    {
        let items = &self.entry_point.symbols;
        let mut out: Vec<Module> = Vec::new();
        let mut k: usize = 0;
        while k < items.len()
            invariant
                items == self.entry_point.symbols,
                k <= items@.len(),
                modules_view(out@) == nested_modules(self.name@, items@, k as int),
            decreases items@.len() - k,
        {
            let mut part: Vec<Module> = match &items[k] {
                RustSymbol::ModuleBlock { name: n, is_public: p, content, doc_comment } => {
                    extract_modules_from_symbols(join_path_exec(self.name.as_str(), n.as_str()), *p, copy_doc(doc_comment), content)
                },
                _ => Vec::new(),
            };
            let ghost before = modules_view(out@);
            let ghost added = modules_view(part@);
            out.append(&mut part);
            assert(modules_view(out@) =~= before + added);
            k = k + 1;
        }
        let ghost blocks = modules_view(out@);
        let mut k: usize = 0;
        while k < items.len()
            invariant
                items == self.entry_point.symbols,
                k <= items@.len(),
                blocks == nested_modules(self.name@, items@, items@.len() as int),
                modules_view(out@) == blocks + directory_children(self.name@, items@, self.internal_files.entries@, k as int),
            decreases items@.len() - k,
        {
            let mut part: Vec<Module> = match &items[k] {
                RustSymbol::ModuleImport { name: n, is_reexported } => {
                    match self.internal_files.find(n) {
                        Some(f) => {
                            let file = &self.internal_files.entries[f].1;
                            extract_modules_from_symbols(
                                join_path_exec(self.name.as_str(), n.as_str()),
                                *is_reexported,
                                copy_doc(&file.doc_comment),
                                &file.symbols,
                            )
                        },
                        None => Vec::new(),
                    }
                },
                _ => Vec::new(),
            };
            let ghost before = modules_view(out@);
            let ghost added = modules_view(part@);
            out.append(&mut part);
            assert(modules_view(out@) =~= before + added);
            k = k + 1;
        }
        let symbols = own_items_exec(items);
        let root = Module {
            name: copy_string(&self.name),
            is_public: self.is_public,
            doc_comment: copy_doc(&self.entry_point.doc_comment),
            symbols,
        };
        let ghost rv = root@;
        let ghost pre = modules_view(out@);
        let ghost files = directory_children(self.name@, items@, self.internal_files.entries@, items@.len() as int);
        assert(pre == blocks + files);
        out.insert(0, root);
        assert(modules_view(out@) =~= seq![rv] + pre);
        assert(rv == own_module(self.name@, self.is_public, opt_view(self.entry_point.doc_comment), items@));
        assert(seq![rv] + (blocks + files) =~= seq![rv] + blocks + files);
        Ok(out)
    }
}

/// The flat modules of the first `n` directories, in order.
pub open spec fn all_directory_modules(dirs: Seq<ModuleDirectory>, n: int) -> Seq<ModuleView>
    decreases n,
{
    if n <= 0 || n > dirs.len() {
        Seq::empty()
    } else {
        all_directory_modules(dirs, n - 1) + directory_modules(dirs[n - 1])
    }
}

/// The flat modules of every directory, in order.
pub fn extract_modules(module_directories: &[ModuleDirectory]) -> (r: Result<Vec<Module>, crate::types::ExtractionError>)
    ensures
        r matches Ok(ms) && modules_view(ms@) == all_directory_modules(
            module_directories@,
            module_directories@.len() as int,
        ),
{
    let mut out: Vec<Module> = Vec::new();
    let mut i: usize = 0;
    while i < module_directories.len()
        invariant
            i <= module_directories@.len(),
            modules_view(out@) == all_directory_modules(module_directories@, i as int),
        decreases module_directories@.len() - i,
    {
        let mut part = match module_directories[i].extract_modules() {
            Ok(ms) => ms,
            Err(e) => return Err(e),
        };
        let ghost before = modules_view(out@);
        let ghost added = modules_view(part@);
        out.append(&mut part);
        assert(modules_view(out@) =~= before + added);
        i = i + 1;
    }
    Ok(out)
}

/// The view of a module directory.
pub struct DirView {
    pub name: Seq<char>,
    pub is_public: bool,
    pub entry: (Option<Seq<char>>, Seq<FileItem>),
    pub internal: Seq<(Seq<char>, (Option<Seq<char>>, Seq<FileItem>))>,
}

pub open spec fn dir_view(d: ModuleDirectory) -> DirView {
    DirView {
        name: d.name@,
        is_public: d.is_public,
        entry: file_view(d.entry_point),
        internal: d.internal_files.entries@.map_values(|e: (String, RustFile)| (e.0@, file_view(e.1))),
    }
}

pub open spec fn dirs_view(v: Seq<ModuleDirectory>) -> Seq<DirView> {
    v.map_values(|d: ModuleDirectory| dir_view(d))
}


// ---------------------------------------------------------------------------
// Flattening stated over views
// ---------------------------------------------------------------------------

/// The symbols and re-exports among `items`, in order.
pub open spec fn own_items_of(items: Seq<FileItem>) -> Seq<ItemView>
    decreases items.len(),
{
    if items.len() == 0 {
        Seq::empty()
    } else {
        own_items_of(items.drop_last()) + match items.last() {
            FileItem::SymbolDef(s) => seq![ItemView::Def(s)],
            FileItem::Reexport(p, k) => seq![ItemView::Reexport(p, k)],
            _ => Seq::empty(),
        }
    }
}

/// The flat modules of a block (or file) named `name` with items `items`, and
/// of the blocks nested in it: its own module first.
pub open spec fn flatten_block(name: Seq<char>, is_public: bool, doc: Option<Seq<char>>, items: Seq<FileItem>) -> Seq<ModuleView>
    decreases items, items.len() + 1,
{
    seq![ModuleView { name, is_public, doc, items: own_items_of(items) }] + nested_blocks(name, items, items.len() as int)
}

/// The flat modules of the blocks among the first `k` items.
pub open spec fn nested_blocks(name: Seq<char>, items: Seq<FileItem>, k: int) -> Seq<ModuleView>
    decreases items, k,
{
    if k <= 0 || k > items.len() {
        Seq::empty()
    } else {
        nested_blocks(name, items, k - 1) + match items[k - 1] {
            FileItem::InlineModule(n, p, d, content) => {
                proof {
                    broadcast use vstd::seq::axiom_seq_index_decreases;
                    assert(decreases_to!(items => items[k - 1]));
                }
                flatten_block(join_path(name, n), p, d, content)
            },
            _ => Seq::empty(),
        }
    }
}

/// The first internal file at or after `i` named `name`.
pub open spec fn internal_index(files: Seq<(Seq<char>, (Option<Seq<char>>, Seq<FileItem>))>, name: Seq<char>, i: int) -> Option<int>
    decreases files.len() - i,
{
    if i < 0 || i >= files.len() {
        None
    } else if files[i].0 == name {
        Some(i)
    } else {
        internal_index(files, name, i + 1)
    }
}

/// The flat modules of the internal files reached by the first `k` items of a
/// directory's entry point.
pub open spec fn directory_children_of(d: DirView, k: int) -> Seq<ModuleView>
    decreases k,
{
    let items = d.entry.1;
    if k <= 0 || k > items.len() {
        Seq::empty()
    } else {
        directory_children_of(d, k - 1) + match items[k - 1] {
            FileItem::ExternalModule(n, reexported) => match internal_index(d.internal, n, 0) {
                Some(f) => if 0 <= f < d.internal.len() {
                    flatten_block(join_path(d.name, n), reexported, d.internal[f].1.0, d.internal[f].1.1)
                } else {
                    Seq::empty()
                },
                None => Seq::empty(),
            },
            _ => Seq::empty(),
        }
    }
}

/// The flat modules of a directory: its own module first, then those of its
/// inline blocks (nested ones included), then those of its internal files.
pub open spec fn modules_of_directory(d: DirView) -> Seq<ModuleView> {
    seq![ModuleView { name: d.name, is_public: d.is_public, doc: d.entry.0, items: own_items_of(d.entry.1) }]
        + nested_blocks(d.name, d.entry.1, d.entry.1.len() as int)
        + directory_children_of(d, d.entry.1.len() as int)
}

/// The flat modules of the first `n` directories, in order.
pub open spec fn modules_of_directories(ds: Seq<DirView>, n: int) -> Seq<ModuleView>
    decreases n,
{
    if n <= 0 || n > ds.len() {
        Seq::empty()
    } else {
        modules_of_directories(ds, n - 1) + modules_of_directory(ds[n - 1])
    }
}

pub proof fn lemma_items_view_index(s: Seq<RustSymbol>)
    ensures
        items_view(s).len() == s.len(),
        forall|i: int| 0 <= i < s.len() ==> #[trigger] items_view(s)[i] == item_view(s[i]),
    decreases s.len(),
{
    if s.len() > 0 {
        lemma_items_view_index(s.drop_last());
    }
}

proof fn lemma_own_items(items: Seq<RustSymbol>, k: int)
    requires
        0 <= k <= items.len(),
    ensures
        own_items(items, k) == own_items_of(items_view(items.take(k))),
    decreases k,
{
    lemma_items_view_index(items.take(k));
    if k > 0 {
        lemma_own_items(items, k - 1);
        assert(items.take(k).drop_last() =~= items.take(k - 1));
        lemma_items_view_index(items.take(k - 1));
        assert(items_view(items.take(k)).drop_last() =~= items_view(items.take(k - 1))) by {
            lemma_items_view_index(items.take(k));
        }
        assert(items_view(items.take(k)).last() == item_view(items[k - 1]));
        let prev = own_items(items, k - 1);
        match items[k - 1] {
            RustSymbol::Symbol { symbol } => {
                assert(prev.push(ItemView::Def(symbol@)) =~= prev + seq![ItemView::Def(symbol@)]);
            },
            RustSymbol::Reexport { source_path, import_type } => {
                assert(prev.push(ItemView::Reexport(source_path@, import_type@)) =~= prev + seq![ItemView::Reexport(source_path@, import_type@)]);
            },
            _ => {
                assert(prev + Seq::<ItemView>::empty() =~= prev);
            },
        }
    } else {
        assert(items_view(items.take(0)) =~= Seq::<FileItem>::empty()) by {
            assert(items.take(0) =~= Seq::<RustSymbol>::empty());
        }
    }
}

proof fn lemma_own_items_all(items: Seq<RustSymbol>)
    ensures
        own_items(items, items.len() as int) == own_items_of(items_view(items)),
{
    lemma_own_items(items, items.len() as int);
    assert(items.take(items.len() as int) =~= items);
}

/// Flattening a block gives the same modules whether stated over the items or over their views.
pub proof fn lemma_flatten_views(name: Seq<char>, is_public: bool, doc: Option<Seq<char>>, items: Seq<RustSymbol>)
    ensures
        flatten_inline(name, is_public, doc, items) == flatten_block(name, is_public, doc, items_view(items)),
    decreases items, items.len() + 1,
{
    lemma_own_items_all(items);
    lemma_nested_views(name, items, items.len() as int);
    lemma_items_view_index(items);
}

proof fn lemma_nested_views(name: Seq<char>, items: Seq<RustSymbol>, k: int)
    requires
        0 <= k <= items.len(),
    ensures
        nested_modules(name, items, k) == nested_blocks(name, items_view(items), k),
    decreases items, k,
{
    lemma_items_view_index(items);
    if k > 0 {
        lemma_nested_views(name, items, k - 1);
        match items[k - 1] {
            RustSymbol::ModuleBlock { name: n, is_public, content, doc_comment } => {
                broadcast use vstd::seq::axiom_seq_index_decreases;
                broadcast use vstd::std_specs::vec::axiom_vec_decreases_to_view;

                assert(decreases_to!(items => items[k - 1]));
                assert(decreases_to!(content => content@));
                lemma_flatten_views(join_path(name, n@), is_public, opt_view(doc_comment), content@);
            },
            _ => {},
        }
    }
}

proof fn lemma_internal_index(files: Seq<(String, RustFile)>, name: Seq<char>, i: int)
    requires
        0 <= i <= files.len(),
    ensures
        ({
            let vs = files.map_values(|e: (String, RustFile)| (e.0@, file_view(e.1)));
            internal_index(vs, name, i) == file_lookup_from(files, name, i)
        }),
    decreases files.len() - i,
{
    if i < files.len() {
        lemma_internal_index(files, name, i + 1);
    }
}

proof fn lemma_directory_children(d: ModuleDirectory, k: int)
    requires
        0 <= k <= d.entry_point.symbols@.len(),
    ensures
        directory_children(d.name@, d.entry_point.symbols@, d.internal_files.entries@, k) == directory_children_of(dir_view(d), k),
    decreases k,
{
    let items = d.entry_point.symbols@;
    lemma_items_view_index(items);
    if k > 0 {
        lemma_directory_children(d, k - 1);
        match items[k - 1] {
            RustSymbol::ModuleImport { name: n, is_reexported } => {
                lemma_internal_index(d.internal_files.entries@, n@, 0);
                match file_lookup(d.internal_files.entries@, n@) {
                    Some(f) => {
                        if 0 <= f < d.internal_files.entries@.len() {
                            let file = d.internal_files.entries@[f].1;
                            lemma_flatten_views(join_path(d.name@, n@), is_reexported, opt_view(file.doc_comment), file.symbols@);
                        }
                    },
                    None => {},
                }
            },
            _ => {},
        }
    }
}

/// A directory's flat modules depend on its view alone.
pub proof fn lemma_directory_modules_view(d: ModuleDirectory)
    ensures
        directory_modules(d) == modules_of_directory(dir_view(d)),
{
    lemma_own_items_all(d.entry_point.symbols@);
    lemma_directory_children(d, d.entry_point.symbols@.len() as int);
    lemma_nested_views(d.name@, d.entry_point.symbols@, d.entry_point.symbols@.len() as int);
    lemma_items_view_index(d.entry_point.symbols@);
}

/// The flat modules of several directories depend on their views alone.
pub proof fn lemma_all_directory_modules_view(ds: Seq<ModuleDirectory>, n: int)
    requires
        0 <= n <= ds.len(),
    ensures
        all_directory_modules(ds, n) == modules_of_directories(dirs_view(ds), n),
    decreases n,
{
    if n > 0 {
        lemma_all_directory_modules_view(ds, n - 1);
        lemma_directory_modules_view(ds[n - 1]);
    }
}

} // verus!
