//! Resolution of re-exports: which public module paths each symbol is visible at.

use vstd::prelude::*;
use vstd::string::*;

use crate::files::{ImportKind, ImportType};
use crate::module_directory::{ItemView, Module, ModuleItem, ModuleView, modules_view};
use crate::text::{
    chars_of, copy_string, first_segment, first_segment_exec, has_sep, has_sep_exec, join_path,
    join_path_exec, last_segment, last_segment_exec, lemma_rfind_sep_bounds, rfind_sep_before,
    rfind_sep_exec, sep, slice_chars, starts_with, starts_with_exec, string_of,
};
use crate::types::{ExtractionError, Symbol, SymbolView};

verus! {

// ---------------------------------------------------------------------------
// Values
// ---------------------------------------------------------------------------

/// A symbol together with the module paths at which it is visible.
#[derive(Debug, Clone)]
pub struct SymbolDeclaration {
    pub symbol: Symbol,
    pub modules: Vec<String>,
}

/// The views of a sequence of strings.
pub open spec fn strings_view(v: Seq<String>) -> Seq<Seq<char>> {
    v.map_values(|s: String| s@)
}

/// The mathematical value of a [`SymbolDeclaration`].
pub struct DeclarationView {
    pub symbol: SymbolView,
    pub modules: Seq<Seq<char>>,
}

impl View for SymbolDeclaration {
    type V = DeclarationView;

    open spec fn view(&self) -> DeclarationView {
        DeclarationView { symbol: self.symbol@, modules: strings_view(self.modules@) }
    }
}

/// The views of a sequence of declarations.
pub open spec fn declarations_view(v: Seq<SymbolDeclaration>) -> Seq<DeclarationView> {
    v.map_values(|d: SymbolDeclaration| d@)
}

/// The documentation comment of each module that has one, by qualified name.
#[derive(Debug, Clone)]
pub struct ModuleDocs {
    pub entries: Vec<(String, String)>,
}

/// The views of documentation entries.
pub open spec fn doc_entries_view(v: Seq<(String, String)>) -> Seq<(Seq<char>, Seq<char>)> {
    v.map_values(|e: (String, String)| (e.0@, e.1@))
}

impl ModuleDocs {
    /// The documentation of the module with the given qualified name.
    pub fn get(&self, name: &str) -> (r: Option<&String>)
        ensures
            r matches Some(d) ==> exists|i: int|
                0 <= i < self.entries@.len() && self.entries@[i].0@ == name@ && self.entries@[i].1
                    == *d,
            r is None ==> forall|i: int|
                0 <= i < self.entries@.len() ==> self.entries@[i].0@ != name@,
    {
        let target = name.to_owned();
        let mut i: usize = 0;
        while i < self.entries.len()
            invariant
                i <= self.entries@.len(),
                target@ == name@,
                forall|k: int| 0 <= k < i ==> self.entries@[k].0@ != name@,
            decreases self.entries@.len() - i,
        {
            if self.entries[i].0 == target {
                return Some(&self.entries[i].1);
            }
            i = i + 1;
        }
        None
    }

    /// The number of documented modules.
    pub fn len(&self) -> (r: usize)
        ensures
            r == self.entries@.len(),
    {
        self.entries.len()
    }

    /// Whether no module is documented.
    pub fn is_empty(&self) -> (r: bool)
        ensures
            r == (self.entries@.len() == 0),
    {
        self.entries.len() == 0
    }
}

/// The outcome of resolution: the visible symbols and the modules' documentation.
#[derive(Debug, Clone)]
pub struct SymbolResolution {
    pub symbols: Vec<SymbolDeclaration>,
    pub doc_comments: ModuleDocs,
}

// ---------------------------------------------------------------------------
// Path normalisation
// ---------------------------------------------------------------------------

pub open spec fn crate_marker() -> Seq<char> {
    seq!['c', 'r', 'a', 't', 'e', ':', ':']
}

pub open spec fn super_marker() -> Seq<char> {
    seq!['s', 'u', 'p', 'e', 'r', ':', ':']
}

pub open spec fn self_marker() -> Seq<char> {
    seq!['s', 'e', 'l', 'f', ':', ':']
}

/// The message of the error for a parent-scope re-export `path` in the root module.
pub open spec fn super_message(path: Seq<char>) -> Seq<char> {
    "Cannot use super from the root module ("@ + path + ")"@
}

/// A re-export path made relative to the root or to `module`; `None` for a
/// parent-scope qualifier used from the root.
pub open spec fn normalise(path: Seq<char>, module: Seq<char>) -> Option<Seq<char>> {
    if starts_with(path, crate_marker()) {
        Some(path.subrange(7, path.len() as int))
    } else if starts_with(path, super_marker()) {
        let rest = path.subrange(7, path.len() as int);
        if module.len() == 0 {
            None
        } else {
            let k = rfind_sep_before(module, module.len() as int);
            if k >= 0 {
                Some(module.subrange(0, k) + sep() + rest)
            } else {
                Some(rest)
            }
        }
    } else if starts_with(path, self_marker()) {
        Some(join_path(module, path.subrange(6, path.len() as int)))
    } else {
        Some(path)
    }
}

/// Normalises a re-export path written in `current_module`.
pub fn normalise_reference(reference: &str, current_module: &str) -> (r: Result<
    String,
    ExtractionError,
>)
    ensures
        normalise(reference@, current_module@) matches Some(p) ==> r matches Ok(s) && s@ == p,
        normalise(reference@, current_module@) is None ==> (r matches Err(ExtractionError::Malformed(m))
            && m@ == super_message(reference@)),
{
    let rc = chars_of(reference);
    let crate_p = chars_of("crate::");
    let super_p = chars_of("super::");
    let self_p = chars_of("self::");
    proof {
        reveal_strlit("crate::");
        reveal_strlit("super::");
        reveal_strlit("self::");
        assert(crate_p@ =~= crate_marker());
        assert(super_p@ =~= super_marker());
        assert(self_p@ =~= self_marker());
    }
    let n = rc.len();
    if starts_with_exec(&rc, &crate_p) {
        Ok(string_of(&slice_chars(&rc, 7, n)))
    } else if starts_with_exec(&rc, &super_p) {
        let rest = slice_chars(&rc, 7, n);
        if current_module.is_empty() {
            let mut msg = String::from_str("Cannot use super from the root module (");
            msg.append(reference);
            msg.append(")");
            assert(msg@ == super_message(reference@));
            return Err(ExtractionError::Malformed(msg));
        }
        let mc = chars_of(current_module);
        match rfind_sep_exec(&mc) {
            Some(k) => {
                proof {
                    lemma_rfind_sep_bounds(mc@, mc@.len() as int);
                }
                let mut s = string_of(&slice_chars(&mc, 0, k));
                proof {
                    reveal_strlit("::");
                }
                s.append("::");
                s.append(string_of(&rest).as_str());
                assert(s@ =~= mc@.subrange(0, k as int) + sep() + rest@);
                Ok(s)
            },
            None => Ok(string_of(&rest)),
        }
    } else if starts_with_exec(&rc, &self_p) {
        let rest = string_of(&slice_chars(&rc, 6, n));
        Ok(join_path_exec(current_module, rest.as_str()))
    } else {
        Ok(reference.to_owned())
    }
}


// ---------------------------------------------------------------------------
// The declaration table and references
// ---------------------------------------------------------------------------

/// A row of the declaration table: a key (a qualified path) and a declaration.
#[derive(Debug)]
pub struct Entry {
    pub key: String,
    pub declaration: SymbolDeclaration,
}

/// The mathematical value of a table row.
pub struct EntryView {
    pub key: Seq<char>,
    pub decl: DeclarationView,
}

impl View for Entry {
    type V = EntryView;

    open spec fn view(&self) -> EntryView {
        EntryView { key: self.key@, decl: self.declaration@ }
    }
}

pub open spec fn entries_view(v: Seq<Entry>) -> Seq<EntryView> {
    v.map_values(|e: Entry| e@)
}

/// A re-export, its path normalised, with the module that declares it.
#[derive(Debug)]
pub struct SymbolReference {
    pub source_path: String,
    pub referencing_module: String,
    pub import_type: ImportType,
}

/// The mathematical value of a reference.
pub struct ReferenceView {
    pub path: Seq<char>,
    pub host: Seq<char>,
    pub kind: ImportKind,
}

impl View for SymbolReference {
    type V = ReferenceView;

    open spec fn view(&self) -> ReferenceView {
        ReferenceView {
            path: self.source_path@,
            host: self.referencing_module@,
            kind: self.import_type@,
        }
    }
}

pub open spec fn references_view(v: Seq<SymbolReference>) -> Seq<ReferenceView> {
    v.map_values(|r: SymbolReference| r@)
}

/// An item of a module as resolution sees it: a definition, or the index of
/// the reference that a re-export became.
#[derive(Debug)]
pub enum Seed {
    Def(Symbol),
    Ref(usize),
}

pub enum SeedView {
    Def(SymbolView),
    Ref(int),
}

impl View for Seed {
    type V = SeedView;

    open spec fn view(&self) -> SeedView {
        match self {
            Seed::Def(s) => SeedView::Def(s@),
            Seed::Ref(j) => SeedView::Ref(*j as int),
        }
    }
}

pub open spec fn seeds_view(v: Seq<Vec<Seed>>) -> Seq<Seq<SeedView>> {
    v.map_values(|row: Vec<Seed>| row@.map_values(|s: Seed| s@))
}

/// What resolution works on: the modules, the references and each module's items.
pub struct Ctx {
    pub mods: Seq<ModuleView>,
    pub refs: Seq<ReferenceView>,
    pub seeds: Seq<Seq<SeedView>>,
}

// ---------------------------------------------------------------------------
// Lookups
// ---------------------------------------------------------------------------

/// The first row at or after `i` whose key is `key`.
pub open spec fn lookup_from(t: Seq<EntryView>, key: Seq<char>, i: int) -> Option<int>
    decreases t.len() - i,
{
    if i < 0 || i >= t.len() {
        None
    } else if t[i].key == key {
        Some(i)
    } else {
        lookup_from(t, key, i + 1)
    }
}

pub open spec fn lookup(t: Seq<EntryView>, key: Seq<char>) -> Option<int> {
    lookup_from(t, key, 0)
}

fn lookup_exec(t: &Vec<Entry>, key: &String) -> (r: Option<usize>)
    ensures
        r matches Some(k) ==> lookup(entries_view(t@), key@) == Some(k as int),
        r is None ==> lookup(entries_view(t@), key@) is None,
        r matches Some(k) ==> k < t@.len(),
{
    let mut i: usize = 0;
    while i < t.len()
        invariant
            i <= t@.len(),
            lookup(entries_view(t@), key@) == lookup_from(entries_view(t@), key@, i as int),
        decreases t@.len() - i,
    {
        if t[i].key == *key {
            return Some(i);
        }
        i = i + 1;
    }
    None
}

/// The first module at or after `i` with the given qualified name.
pub open spec fn find_module_from(mods: Seq<ModuleView>, name: Seq<char>, i: int) -> Option<int>
    decreases mods.len() - i,
{
    if i < 0 || i >= mods.len() {
        None
    } else if mods[i].name == name {
        Some(i)
    } else {
        find_module_from(mods, name, i + 1)
    }
}

proof fn lemma_find_module_bounds(mods: Seq<ModuleView>, name: Seq<char>, i: int)
    ensures
        find_module_from(mods, name, i) matches Some(k) ==> i <= k < mods.len() && mods[k].name
            == name,
        find_module_from(mods, name, i) is None && 0 <= i ==> forall|k: int|
            i <= k < mods.len() ==> mods[k].name != name,
    decreases mods.len() - i,
{
    if 0 <= i < mods.len() && mods[i].name != name {
        lemma_find_module_bounds(mods, name, i + 1);
    }
}

pub proof fn lemma_lookup_bounds_pub(t: Seq<EntryView>, key: Seq<char>)
    ensures
        lookup(t, key) matches Some(k) ==> 0 <= k < t.len() && t[k].key == key,
{
    lemma_lookup_from_bounds_at(t, key, 0);
}

proof fn lemma_lookup_from_bounds_at(t: Seq<EntryView>, key: Seq<char>, i: int)
    ensures
        lookup_from(t, key, i) matches Some(k) ==> i <= k < t.len() && t[k].key == key,
    decreases t.len() - i,
{
    if 0 <= i < t.len() && t[i].key != key {
        lemma_lookup_from_bounds_at(t, key, i + 1);
    }
}

pub proof fn lemma_find_module_bounds_pub(mods: Seq<ModuleView>, name: Seq<char>, i: int)
    ensures
        find_module_from(mods, name, i) matches Some(k) ==> i <= k < mods.len() && mods[k].name == name,
{
    lemma_find_module_bounds(mods, name, i);
}

fn find_module_exec(modules: &[Module], name: &String) -> (r: Option<usize>)
    ensures
        r matches Some(k) ==> find_module_from(modules_view(modules@), name@, 0) == Some(k as int),
        r is None ==> find_module_from(modules_view(modules@), name@, 0) is None,
        r matches Some(k) ==> k < modules@.len(),
{
    let mut i: usize = 0;
    while i < modules.len()
        invariant
            i <= modules@.len(),
            find_module_from(modules_view(modules@), name@, 0) == find_module_from(
                modules_view(modules@),
                name@,
                i as int,
            ),
        decreases modules@.len() - i,
    {
        if modules[i].name == *name {
            return Some(i);
        }
        i = i + 1;
    }
    None
}

/// The qualified path of `symbol_name` in module `module_name`.
pub fn get_symbol_path_from_module_path(symbol_name: &str, module_name: &str) -> (r: String)
    ensures
        r@ == join_path(module_name@, symbol_name@),
{
    join_path_exec(module_name, symbol_name)
}

/// Whether a module path is public: the root, or the name of a public module.
pub open spec fn is_public_name(mods: Seq<ModuleView>, name: Seq<char>) -> bool {
    name.len() == 0 || exists|k: int| 0 <= k < mods.len() && mods[k].is_public && #[trigger] mods[k].name == name
}

pub open spec fn all_public(mods: Seq<ModuleView>, names: Seq<Seq<char>>) -> bool {
    forall|i: int| 0 <= i < names.len() ==> is_public_name(mods, #[trigger] names[i])
}

fn is_public_module(modules: &[Module], name: &String) -> (r: bool)
    ensures
        r == is_public_name(modules_view(modules@), name@),
{
    if name.as_str().is_empty() {
        return true;
    }
    let mut i: usize = 0;
    while i < modules.len()
        invariant
            i <= modules@.len(),
            name@.len() > 0,
            forall|k: int|
                0 <= k < i ==> !(modules@[k].is_public && modules@[k].name@ == name@),
        decreases modules@.len() - i,
    {
        if modules[i].is_public && modules[i].name == *name {
            assert(modules_view(modules@)[i as int].name == name@);
            return true;
        }
        i = i + 1;
    }
    proof {
        assert forall|k: int|
            0 <= k < modules_view(modules@).len() && modules_view(
                modules@,
            )[k].is_public implies #[trigger] modules_view(modules@)[k].name != name@ by {
            assert(!(modules@[k].is_public && modules@[k].name@ == name@));
        }
    }
    false
}

fn all_public_exec(modules: &[Module], names: &Vec<String>) -> (r: bool)
    ensures
        r == all_public(modules_view(modules@), strings_view(names@)),
{
    let mut i: usize = 0;
    while i < names.len()
        invariant
            i <= names@.len(),
            forall|k: int|
                0 <= k < i ==> is_public_name(modules_view(modules@), #[trigger] strings_view(names@)[k]),
        decreases names@.len() - i,
    {
        if !is_public_module(modules, &names[i]) {
            assert(!is_public_name(modules_view(modules@), strings_view(names@)[i as int]));
            return false;
        }
        i = i + 1;
    }
    true
}

// ---------------------------------------------------------------------------
// Contributions
// ---------------------------------------------------------------------------

/// Where a wildcard re-export points: a single segment is relative to the
/// host, a path with a separator is taken from the root.
pub open spec fn qualify(path: Seq<char>, host: Seq<char>) -> Seq<char> {
    if has_sep(path) {
        path
    } else {
        join_path(host, path)
    }
}

pub open spec fn use_text(path: Seq<char>) -> Seq<char> {
    seq!['p', 'u', 'b', ' ', 'u', 's', 'e', ' '] + path + seq![';']
}

pub open spec fn use_alias_text(path: Seq<char>, alias: Seq<char>) -> Seq<char> {
    seq!['p', 'u', 'b', ' ', 'u', 's', 'e', ' '] + path + seq![' ', 'a', 's', ' '] + alias + seq![';']
}

pub open spec fn use_glob_text(path: Seq<char>) -> Seq<char> {
    seq!['p', 'u', 'b', ' ', 'u', 's', 'e', ' '] + path + seq![':', ':', '*', ';']
}

/// What the source of a declaration becomes when an alias renames it: every
/// whole-word occurrence of `name` in `source` replaced by `alias`.
pub uninterp spec fn renamed_words(source: Seq<char>, name: Seq<char>, alias: Seq<char>) -> Seq<
    char,
>;

/// Relies on the regex crate: `Regex::new` on `\b`, `regex::escape(name)`, `\b`,
/// then `Regex::replace_all` with `NoExpand(alias)`, which puts `alias` in place
/// of each whole-word occurrence of `name`. Should the pattern not compile, the
/// source is kept. Either way the result depends on the three strings alone.
#[verifier::external_body]
fn rename_symbol_in_source_code(source: &str, name: &str, alias: &str) -> (r: String)
    ensures
        r@ == renamed_words(source@, name@, alias@),
{
    match regex::Regex::new(&format!(r"\b{}\b", regex::escape(name))) {
        Ok(re) => re.replace_all(source, regex::NoExpand(alias)).to_string(),
        Err(_) => source.to_string(),
    }
}

/// A definition of module `module` seen through a wildcard of `host`.
pub open spec fn def_contribution(module: Seq<char>, s: SymbolView, host: Seq<char>) -> EntryView {
    EntryView {
        key: join_path(module, s.name),
        decl: DeclarationView { symbol: s, modules: seq![module, host] },
    }
}

/// A contribution that becomes visible at `host` too.
pub open spec fn extended(e: EntryView, host: Seq<char>) -> EntryView {
    EntryView {
        key: e.key,
        decl: DeclarationView { symbol: e.decl.symbol, modules: e.decl.modules.push(host) },
    }
}

pub open spec fn extend_all(cs: Seq<EntryView>, host: Seq<char>) -> Seq<EntryView> {
    cs.map_values(|e: EntryView| extended(e, host))
}

/// The source an alias is shown with: a `pub use` when the whole chain is
/// public, else the original declaration renamed.
pub open spec fn alias_source(
    path: Seq<char>,
    alias: Seq<char>,
    chain_is_public: bool,
    renamed: Seq<char>,
) -> Seq<char> {
    if chain_is_public {
        use_alias_text(path, alias)
    } else {
        renamed
    }
}

/// The row that an aliased re-export of `e` creates.
pub open spec fn alias_contribution(
    mods: Seq<ModuleView>,
    r: ReferenceView,
    alias: Seq<char>,
    e: EntryView,
) -> EntryView {
    let chain_is_public = all_public(mods, e.decl.modules.push(r.host));
    EntryView {
        key: join_path(r.host, alias),
        decl: DeclarationView {
            symbol: SymbolView {
                name: alias,
                source_code: alias_source(
                    r.path,
                    alias,
                    chain_is_public,
                    renamed_words(e.decl.symbol.source_code, e.decl.symbol.name, alias),
                ),
            },
            modules: seq![r.host],
        },
    }
}

pub open spec fn alias_all(mods: Seq<ModuleView>, r: ReferenceView, alias: Seq<char>, cs: Seq<
    EntryView,
>) -> Seq<EntryView> {
    cs.map_values(|e: EntryView| alias_contribution(mods, r, alias, e))
}

/// The contributions named `name`, in order.
pub open spec fn select_named(cs: Seq<EntryView>, name: Seq<char>) -> Seq<EntryView>
    decreases cs.len(),
{
    if cs.len() == 0 {
        Seq::empty()
    } else {
        let prev = select_named(cs.drop_last(), name);
        if cs.last().decl.symbol.name == name {
            prev.push(cs.last())
        } else {
            prev
        }
    }
}

/// What a simple or aliased reference gives for a row of the table.
pub open spec fn direct_contribution(mods: Seq<ModuleView>, r: ReferenceView, e: EntryView) -> EntryView {
    match r.kind {
        ImportKind::Aliased(a) => alias_contribution(mods, r, a, e),
        _ => extended(e, r.host),
    }
}

/// What a simple or aliased reference gives for what a chain of re-exports gave.
pub open spec fn chained_contributions(mods: Seq<ModuleView>, r: ReferenceView, cs: Seq<EntryView>) -> Seq<
    EntryView,
> {
    let named = select_named(cs, last_segment(r.path));
    match r.kind {
        ImportKind::Aliased(a) => alias_all(mods, r, a, named),
        _ => extend_all(named, r.host),
    }
}

/// The row, if any, that a simple or aliased reference names directly.
pub open spec fn lookup_reference(t: Seq<EntryView>, r: ReferenceView) -> Option<int> {
    match lookup(t, join_path(r.host, r.path)) {
        Some(k) => Some(k),
        None => lookup(t, r.path),
    }
}

// ---------------------------------------------------------------------------
// The cycle guard
// ---------------------------------------------------------------------------

/// The number of references not yet on the current resolution path.
pub open spec fn count_false(s: Seq<bool>) -> nat
    decreases s.len(),
{
    if s.len() == 0 {
        0
    } else {
        count_false(s.drop_last()) + if s.last() {
            0nat
        } else {
            1nat
        }
    }
}

pub proof fn lemma_count_false_update(s: Seq<bool>, i: int)
    requires
        0 <= i < s.len(),
        !s[i],
    ensures
        count_false(s.update(i, true)) + 1 == count_false(s),
    decreases s.len(),
{
    let u = s.update(i, true);
    if i == s.len() - 1 {
        assert(u.drop_last() =~= s.drop_last());
    } else {
        assert(u.drop_last() =~= s.drop_last().update(i, true));
        lemma_count_false_update(s.drop_last(), i);
    }
}

// ---------------------------------------------------------------------------
// Resolution of one reference
// ---------------------------------------------------------------------------

/// The contributions of reference `i`, with `v` marking the references already
/// on the resolution path (a reference met again contributes nothing).
pub open spec fn resolve_spec(c: Ctx, t: Seq<EntryView>, i: int, v: Seq<bool>) -> Seq<EntryView>
    decreases count_false(v), 0int, 0int,
{
    if !(0 <= i < c.refs.len()) || v.len() != c.refs.len() || v[i] {
        Seq::empty()
    } else {
        let v2 = v.update(i, true);
        proof {
            lemma_count_false_update(v, i);
        }
        let r = c.refs[i];
        match r.kind {
            ImportKind::Wildcard => match find_module_from(c.mods, qualify(r.path, r.host), 0) {
                Some(m) => if 0 <= m < c.seeds.len() {
                    expand_spec(c, t, m, c.seeds[m].len() as int, v2, r.host)
                } else {
                    Seq::empty()
                },
                None => Seq::empty(),
            },
            _ => match lookup_reference(t, r) {
                Some(k) => if 0 <= k < t.len() {
                    seq![direct_contribution(c.mods, r, t[k])]
                } else {
                    Seq::empty()
                },
                None => chained_contributions(
                    c.mods,
                    r,
                    chain_spec(c, t, r.path, c.refs.len() as int, v2),
                ),
            },
        }
    }
}

/// The first `k` items of module `m`, seen from `host` through a wildcard.
pub open spec fn expand_spec(
    c: Ctx,
    t: Seq<EntryView>,
    m: int,
    k: int,
    v: Seq<bool>,
    host: Seq<char>,
) -> Seq<EntryView>
    decreases count_false(v), 1int, k,
{
    if k <= 0 || !(0 <= m < c.seeds.len()) || k > c.seeds[m].len() || m >= c.mods.len() {
        Seq::empty()
    } else {
        expand_spec(c, t, m, k - 1, v, host) + match c.seeds[m][k - 1] {
            SeedView::Def(s) => seq![def_contribution(c.mods[m].name, s, host)],
            SeedView::Ref(j) => extend_all(resolve_spec(c, t, j, v), host),
        }
    }
}

/// What the first `j` references declared in the module named by the first
/// segment of `path` contribute.
pub open spec fn chain_spec(c: Ctx, t: Seq<EntryView>, path: Seq<char>, j: int, v: Seq<bool>) -> Seq<
    EntryView,
>
    decreases count_false(v), 1int, j,
{
    if j <= 0 || j > c.refs.len() {
        Seq::empty()
    } else {
        chain_spec(c, t, path, j - 1, v) + if c.refs[j - 1].host == first_segment(path) {
            resolve_spec(c, t, j - 1, v)
        } else {
            Seq::empty()
        }
    }
}


pub open spec fn ctx_of(modules: Seq<Module>, refs: Seq<SymbolReference>, seeds: Seq<Vec<Seed>>) -> Ctx {
    Ctx { mods: modules_view(modules), refs: references_view(refs), seeds: seeds_view(seeds) }
}

// ---------------------------------------------------------------------------
// Executable building blocks
// ---------------------------------------------------------------------------

fn copy_strings(v: &Vec<String>) -> (r: Vec<String>)
    ensures
        strings_view(r@) == strings_view(v@),
{
    let mut r: Vec<String> = Vec::new();
    let mut i: usize = 0;
    while i < v.len()
        invariant
            i <= v@.len(),
            strings_view(r@) == strings_view(v@).take(i as int),
        decreases v@.len() - i,
    {
        let ghost before = r@;
        r.push(copy_string(&v[i]));
        assert(strings_view(r@) =~= strings_view(before).push(v@[i as int]@));
        i = i + 1;
        assert(strings_view(r@) =~= strings_view(v@).take(i as int));
    }
    assert(strings_view(v@).take(v@.len() as int) =~= strings_view(v@));
    r
}

fn copy_declaration(d: &SymbolDeclaration) -> (r: SymbolDeclaration)
    ensures
        r@ == d@,
{
    SymbolDeclaration { symbol: d.symbol.duplicate(), modules: copy_strings(&d.modules) }
}

fn copy_entry(e: &Entry) -> (r: Entry)
    ensures
        r@ == e@,
{
    Entry { key: copy_string(&e.key), declaration: copy_declaration(&e.declaration) }
}

fn contains_string(v: &Vec<String>, s: &String) -> (r: bool)
    ensures
        r == strings_view(v@).contains(s@),
{
    let mut i: usize = 0;
    while i < v.len()
        invariant
            i <= v@.len(),
            forall|k: int| 0 <= k < i ==> strings_view(v@)[k] != s@,
        decreases v@.len() - i,
    {
        if v[i] == *s {
            assert(strings_view(v@)[i as int] == s@);
            return true;
        }
        i = i + 1;
    }
    false
}

/// `a` followed by the elements of `b` that it does not hold yet.
pub open spec fn union(a: Seq<Seq<char>>, b: Seq<Seq<char>>) -> Seq<Seq<char>>
    decreases b.len(),
{
    if b.len() == 0 {
        a
    } else {
        let u = union(a, b.drop_last());
        if u.contains(b.last()) {
            u
        } else {
            u.push(b.last())
        }
    }
}

fn union_exec(a: &Vec<String>, b: &Vec<String>) -> (r: Vec<String>)
    ensures
        strings_view(r@) == union(strings_view(a@), strings_view(b@)),
{
    let mut r = copy_strings(a);
    let mut i: usize = 0;
    while i < b.len()
        invariant
            i <= b@.len(),
            strings_view(r@) == union(strings_view(a@), strings_view(b@).take(i as int)),
        decreases b@.len() - i,
    {
        assert(strings_view(b@).take(i + 1).drop_last() =~= strings_view(b@).take(i as int));
        if !contains_string(&r, &b[i]) {
            r.push(copy_string(&b[i]));
            assert(strings_view(r@) =~= union(strings_view(a@), strings_view(b@).take(i as int)).push(b@[i as int]@));
        }
        i = i + 1;
    }
    assert(strings_view(b@).take(b@.len() as int) =~= strings_view(b@));
    r
}

fn extended_exec(e: &Entry, host: &String) -> (r: Entry)
    ensures
        r@ == extended(e@, host@),
{
    let mut modules = copy_strings(&e.declaration.modules);
    modules.push(copy_string(host));
    let r = Entry {
        key: copy_string(&e.key),
        declaration: SymbolDeclaration { symbol: e.declaration.symbol.duplicate(), modules },
    };
    assert(r@.decl.modules =~= e@.decl.modules.push(host@));
    r
}

fn extend_all_exec(cs: &Vec<Entry>, host: &String) -> (r: Vec<Entry>)
    ensures
        entries_view(r@) == extend_all(entries_view(cs@), host@),
{
    let mut r: Vec<Entry> = Vec::new();
    let mut i: usize = 0;
    while i < cs.len()
        invariant
            i <= cs@.len(),
            entries_view(r@) == extend_all(entries_view(cs@), host@).take(i as int),
        decreases cs@.len() - i,
    {
        let ghost before = r@;
        r.push(extended_exec(&cs[i], host));
        assert(entries_view(r@) =~= entries_view(before).push(extended(cs@[i as int]@, host@)));
        i = i + 1;
        assert(entries_view(r@) =~= extend_all(entries_view(cs@), host@).take(i as int));
    }
    assert(extend_all(entries_view(cs@), host@).take(cs@.len() as int) =~= extend_all(entries_view(cs@), host@));
    r
}

/// The declaration that an aliased re-export creates: visible at `host` only,
/// named `alias`, and shown as a `pub use` when the whole chain is public or
/// else with `renamed_source`, the original declaration with its name replaced.
pub fn aliased_declaration(
    source_path: &str,
    host: &str,
    alias: &str,
    chain_is_public: bool,
    renamed_source: &str,
) -> (r: SymbolDeclaration)
    ensures
        r@ == (DeclarationView {
            symbol: SymbolView {
                name: alias@,
                source_code: alias_source(source_path@, alias@, chain_is_public, renamed_source@),
            },
            modules: seq![host@],
        }),
{
    let source_code = if chain_is_public {
        let mut t = String::from_str("pub use ");
        t.append(source_path);
        t.append(" as ");
        t.append(alias);
        t.append(";");
        proof {
            reveal_strlit("pub use ");
            reveal_strlit(" as ");
            reveal_strlit(";");
        }
        assert(t@ =~= use_alias_text(source_path@, alias@));
        t
    } else {
        renamed_source.to_owned()
    };
    let modules = vec![host.to_owned()];
    let r = SymbolDeclaration { symbol: Symbol { name: alias.to_owned(), source_code }, modules };
    assert(r@.modules =~= seq![host@]);
    r
}

fn alias_exec(modules: &[Module], r: &SymbolReference, alias: &String, e: &Entry) -> (res: Entry)
    ensures
        res@ == alias_contribution(modules_view(modules@), r@, alias@, e@),
{
    let mut chain = copy_strings(&e.declaration.modules);
    chain.push(copy_string(&r.referencing_module));
    assert(strings_view(chain@) =~= e@.decl.modules.push(r@.host));
    let chain_is_public = all_public_exec(modules, &chain);
    let renamed = if chain_is_public {
        String::new()
    } else {
        rename_symbol_in_source_code(
            e.declaration.symbol.source_code.as_str(),
            e.declaration.symbol.name.as_str(),
            alias.as_str(),
        )
    };
    let declaration = aliased_declaration(
        r.source_path.as_str(),
        r.referencing_module.as_str(),
        alias.as_str(),
        chain_is_public,
        renamed.as_str(),
    );
    Entry { key: get_symbol_path_from_module_path(alias.as_str(), r.referencing_module.as_str()), declaration }
}

fn alias_all_exec(modules: &[Module], r: &SymbolReference, alias: &String, cs: &Vec<Entry>) -> (res: Vec<Entry>)
    ensures
        entries_view(res@) == alias_all(modules_view(modules@), r@, alias@, entries_view(cs@)),
{
    let ghost target = alias_all(modules_view(modules@), r@, alias@, entries_view(cs@));
    let mut res: Vec<Entry> = Vec::new();
    let mut i: usize = 0;
    while i < cs.len()
        invariant
            i <= cs@.len(),
            target == alias_all(modules_view(modules@), r@, alias@, entries_view(cs@)),
            entries_view(res@) == target.take(i as int),
        decreases cs@.len() - i,
    {
        let ghost before = res@;
        res.push(alias_exec(modules, r, alias, &cs[i]));
        assert(entries_view(res@) =~= entries_view(before).push(alias_contribution(modules_view(modules@), r@, alias@, cs@[i as int]@)));
        i = i + 1;
        assert(entries_view(res@) =~= target.take(i as int));
    }
    assert(target.take(cs@.len() as int) =~= target);
    res
}

fn select_named_exec(cs: &Vec<Entry>, name: &String) -> (r: Vec<Entry>)
    ensures
        entries_view(r@) == select_named(entries_view(cs@), name@),
{
    let mut r: Vec<Entry> = Vec::new();
    let mut i: usize = 0;
    while i < cs.len()
        invariant
            i <= cs@.len(),
            entries_view(r@) == select_named(entries_view(cs@).take(i as int), name@),
        decreases cs@.len() - i,
    {
        assert(entries_view(cs@).take(i + 1).drop_last() =~= entries_view(cs@).take(i as int));
        if cs[i].declaration.symbol.name == *name {
            r.push(copy_entry(&cs[i]));
            assert(entries_view(r@) =~= select_named(entries_view(cs@).take(i as int), name@).push(cs@[i as int]@));
        }
        i = i + 1;
    }
    assert(entries_view(cs@).take(cs@.len() as int) =~= entries_view(cs@));
    r
}

fn qualify_exec(path: &String, host: &String) -> (r: String)
    ensures
        r@ == qualify(path@, host@),
{
    if has_sep_exec(&chars_of(path.as_str())) {
        copy_string(path)
    } else {
        join_path_exec(host.as_str(), path.as_str())
    }
}

fn copy_flags(v: &Vec<bool>) -> (r: Vec<bool>)
    ensures
        r@ == v@,
{
    let mut r: Vec<bool> = Vec::new();
    let mut i: usize = 0;
    while i < v.len()
        invariant
            i <= v@.len(),
            r@ == v@.take(i as int),
        decreases v@.len() - i,
    {
        r.push(v[i]);
        i = i + 1;
        assert(r@ =~= v@.take(i as int));
    }
    assert(v@.take(v@.len() as int) =~= v@);
    r
}

fn lookup_reference_exec(t: &Vec<Entry>, r: &SymbolReference) -> (res: Option<usize>)
    ensures
        res matches Some(k) ==> lookup_reference(entries_view(t@), r@) == Some(k as int) && k < t@.len(),
        res is None ==> lookup_reference(entries_view(t@), r@) is None,
{
    let full = join_path_exec(r.referencing_module.as_str(), r.source_path.as_str());
    match lookup_exec(t, &full) {
        Some(k) => Some(k),
        None => lookup_exec(t, &r.source_path),
    }
}

// ---------------------------------------------------------------------------
// Executable resolution of one reference
// ---------------------------------------------------------------------------

fn resolve_symbol_reference(
    modules: &[Module],
    refs: &Vec<SymbolReference>,
    seeds: &Vec<Vec<Seed>>,
    t: &Vec<Entry>,
    i: usize,
    v: &Vec<bool>,
) -> (r: Vec<Entry>)
    ensures
        entries_view(r@) == resolve_spec(ctx_of(modules@, refs@, seeds@), entries_view(t@), i as int, v@),
    decreases count_false(v@), 0int, 0int,
{
    let ghost c = ctx_of(modules@, refs@, seeds@);
    if i >= refs.len() || v.len() != refs.len() || v[i] {
        return Vec::new();
    }
    let mut v2 = copy_flags(v);
    v2.set(i, true);
    proof {
        lemma_count_false_update(v@, i as int);
    }
    let r = &refs[i];
    assert(c.refs[i as int] == r@);
    match &r.import_type {
        ImportType::Wildcard => {
            let target = qualify_exec(&r.source_path, &r.referencing_module);
            match find_module_exec(modules, &target) {
                Some(m) => {
                    if m < seeds.len() {
                        get_module_declarations(modules, refs, seeds, t, m, seeds[m].len(), &v2, &r.referencing_module)
                    } else {
                        Vec::new()
                    }
                },
                None => Vec::new(),
            }
        },
        _ => {
            match lookup_reference_exec(t, r) {
                Some(k) => {
                    let one = match &r.import_type {
                        ImportType::Aliased(a) => alias_exec(modules, r, a, &t[k]),
                        _ => extended_exec(&t[k], &r.referencing_module),
                    };
                    let res = vec![one];
                    assert(entries_view(res@) =~= seq![direct_contribution(c.mods, r@, entries_view(t@)[k as int])]);
                    res
                },
                None => {
                    let cs = chain_exec(modules, refs, seeds, t, &r.source_path, refs.len(), &v2);
                    let name = string_of(&last_segment_exec(&chars_of(r.source_path.as_str())));
                    let named = select_named_exec(&cs, &name);
                    match &r.import_type {
                        ImportType::Aliased(a) => alias_all_exec(modules, r, a, &named),
                        _ => extend_all_exec(&named, &r.referencing_module),
                    }
                },
            }
        },
    }
}

fn get_module_declarations(
    modules: &[Module],
    refs: &Vec<SymbolReference>,
    seeds: &Vec<Vec<Seed>>,
    t: &Vec<Entry>,
    m: usize,
    k: usize,
    v: &Vec<bool>,
    host: &String,
) -> (r: Vec<Entry>)
    requires
        m < seeds@.len(),
        m < modules@.len(),
        k <= seeds@[m as int]@.len(),
    ensures
        entries_view(r@) == expand_spec(ctx_of(modules@, refs@, seeds@), entries_view(t@), m as int, k as int, v@, host@),
    decreases count_false(v@), 1int, k,
{
    let ghost c = ctx_of(modules@, refs@, seeds@);
    let mut out: Vec<Entry> = Vec::new();
    let mut q: usize = 0;
    while q < k
        invariant
            c == ctx_of(modules@, refs@, seeds@),
            m < seeds@.len(),
            m < modules@.len(),
            q <= k <= seeds@[m as int]@.len(),
            entries_view(out@) == expand_spec(c, entries_view(t@), m as int, q as int, v@, host@),
        decreases k - q,
    {
        assert(c.seeds[m as int][q as int] == seeds@[m as int]@[q as int]@);
        let mut part: Vec<Entry> = match &seeds[m][q] {
            Seed::Def(s) => {
                let mut ms: Vec<String> = Vec::new();
                ms.push(copy_string(&modules[m].name));
                ms.push(copy_string(host));
                let e = Entry {
                    key: join_path_exec(modules[m].name.as_str(), s.name.as_str()),
                    declaration: SymbolDeclaration { symbol: s.duplicate(), modules: ms },
                };
                assert(e@ == def_contribution(c.mods[m as int].name, s@, host@)) by {
                    assert(e@.decl.modules =~= seq![c.mods[m as int].name, host@]);
                }
                let part = vec![e];
                assert(entries_view(part@) =~= seq![def_contribution(c.mods[m as int].name, s@, host@)]);
                part
            },
            Seed::Ref(j) => {
                let cs = resolve_symbol_reference(modules, refs, seeds, t, *j, v);
                extend_all_exec(&cs, host)
            },
        };
        let ghost before = entries_view(out@);
        let ghost added = entries_view(part@);
        out.append(&mut part);
        assert(entries_view(out@) =~= before + added);
        q = q + 1;
    }
    out
}

fn chain_exec(
    modules: &[Module],
    refs: &Vec<SymbolReference>,
    seeds: &Vec<Vec<Seed>>,
    t: &Vec<Entry>,
    path: &String,
    j: usize,
    v: &Vec<bool>,
) -> (r: Vec<Entry>)
    requires
        j <= refs@.len(),
    ensures
        entries_view(r@) == chain_spec(ctx_of(modules@, refs@, seeds@), entries_view(t@), path@, j as int, v@),
    decreases count_false(v@), 1int, j,
{
    let ghost c = ctx_of(modules@, refs@, seeds@);
    let first = string_of(&first_segment_exec(&chars_of(path.as_str())));
    let mut out: Vec<Entry> = Vec::new();
    let mut q: usize = 0;
    while q < j
        invariant
            c == ctx_of(modules@, refs@, seeds@),
            q <= j <= refs@.len(),
            first@ == first_segment(path@),
            entries_view(out@) == chain_spec(c, entries_view(t@), path@, q as int, v@),
        decreases j - q,
    {
        assert(c.refs[q as int] == refs@[q as int]@);
        let mut part: Vec<Entry> = if refs[q].referencing_module == first {
            resolve_symbol_reference(modules, refs, seeds, t, q, v)
        } else {
            Vec::new()
        };
        let ghost before = entries_view(out@);
        let ghost added = entries_view(part@);
        out.append(&mut part);
        assert(entries_view(out@) =~= before + added);
        q = q + 1;
    }
    out
}


// ---------------------------------------------------------------------------
// Resolving every reference in turn
// ---------------------------------------------------------------------------

/// The row that stands for a re-export that resolves to nothing: the
/// re-export itself, visible at its own module.
pub open spec fn synthetic(r: ReferenceView) -> EntryView {
    let (name, source) = match r.kind {
        ImportKind::Simple => (last_segment(r.path), use_text(r.path)),
        ImportKind::Aliased(a) => (a, use_alias_text(r.path, a)),
        ImportKind::Wildcard => (last_segment(r.path), use_glob_text(r.path)),
    };
    EntryView {
        key: join_path(r.host, name),
        decl: DeclarationView {
            symbol: SymbolView { name, source_code: source },
            modules: seq![r.host],
        },
    }
}

/// Adds a contribution to the table: its modules join those of the row with
/// the same key, or it becomes a new row.
pub open spec fn merge_one(t: Seq<EntryView>, e: EntryView) -> Seq<EntryView> {
    match lookup(t, e.key) {
        Some(k) => t.update(
            k,
            EntryView {
                key: t[k].key,
                decl: DeclarationView {
                    symbol: t[k].decl.symbol,
                    modules: union(t[k].decl.modules, e.decl.modules),
                },
            },
        ),
        None => t.push(e),
    }
}

pub open spec fn merge_all(t: Seq<EntryView>, cs: Seq<EntryView>) -> Seq<EntryView>
    decreases cs.len(),
{
    if cs.len() == 0 {
        t
    } else {
        merge_one(merge_all(t, cs.drop_last()), cs.last())
    }
}

pub open spec fn all_false(n: nat) -> Seq<bool> {
    Seq::new(n, |i: int| false)
}

/// What reference `i` contributes to table `t`: what it resolves to, or the
/// re-export itself when it resolves to nothing.
pub open spec fn reference_outcome(c: Ctx, t: Seq<EntryView>, i: int) -> Seq<EntryView> {
    let cs = resolve_spec(c, t, i, all_false(c.refs.len()));
    if cs.len() == 0 {
        seq![synthetic(c.refs[i])]
    } else {
        cs
    }
}

/// The table after the first `n` references have been resolved in order.
pub open spec fn resolve_all(c: Ctx, t: Seq<EntryView>, n: int) -> Seq<EntryView>
    decreases n,
{
    if n <= 0 {
        t
    } else {
        let prev = resolve_all(c, t, n - 1);
        merge_all(prev, reference_outcome(c, prev, n - 1))
    }
}

fn recreate_reexport(r: &SymbolReference) -> (e: Entry)
    ensures
        e@ == synthetic(r@),
{
    proof {
        reveal_strlit("pub use ");
        reveal_strlit(" as ");
        reveal_strlit(";");
        reveal_strlit("::*;");
    }
    let mut source = String::from_str("pub use ");
    source.append(r.source_path.as_str());
    let name = match &r.import_type {
        ImportType::Simple => {
            source.append(";");
            assert(source@ =~= use_text(r@.path));
            string_of(&last_segment_exec(&chars_of(r.source_path.as_str())))
        },
        ImportType::Aliased(a) => {
            source.append(" as ");
            source.append(a.as_str());
            source.append(";");
            assert(source@ =~= use_alias_text(r@.path, a@));
            copy_string(a)
        },
        ImportType::Wildcard => {
            source.append("::*;");
            assert(source@ =~= use_glob_text(r@.path));
            string_of(&last_segment_exec(&chars_of(r.source_path.as_str())))
        },
    };
    let key = join_path_exec(r.referencing_module.as_str(), name.as_str());
    let modules = vec![copy_string(&r.referencing_module)];
    let e = Entry { key, declaration: SymbolDeclaration { symbol: Symbol { name, source_code: source }, modules } };
    assert(e@.decl.modules =~= seq![r@.host]);
    e
}

fn merge_one_exec(t: &mut Vec<Entry>, e: &Entry)
    ensures
        entries_view(final(t)@) == merge_one(entries_view(old(t)@), e@),
{
    match lookup_exec(t, &e.key) {
        Some(k) => {
            let modules = union_exec(&t[k].declaration.modules, &e.declaration.modules);
            let row = Entry {
                key: copy_string(&t[k].key),
                declaration: SymbolDeclaration { symbol: t[k].declaration.symbol.duplicate(), modules },
            };
            let ghost before = t@;
            t.set(k, row);
            assert(entries_view(t@) =~= merge_one(entries_view(before), e@));
        },
        None => {
            let ghost before = t@;
            t.push(copy_entry(e));
            assert(entries_view(t@) =~= entries_view(before).push(e@));
        },
    }
}

fn merge_all_exec(t: &mut Vec<Entry>, cs: &Vec<Entry>)
    ensures
        entries_view(final(t)@) == merge_all(entries_view(old(t)@), entries_view(cs@)),
{
    let ghost start = entries_view(t@);
    let mut i: usize = 0;
    while i < cs.len()
        invariant
            i <= cs@.len(),
            entries_view(t@) == merge_all(start, entries_view(cs@).take(i as int)),
        decreases cs@.len() - i,
    {
        assert(entries_view(cs@).take(i + 1).drop_last() =~= entries_view(cs@).take(i as int));
        merge_one_exec(t, &cs[i]);
        i = i + 1;
    }
    assert(entries_view(cs@).take(cs@.len() as int) =~= entries_view(cs@));
}

fn resolve_references(
    modules: &[Module],
    refs: &Vec<SymbolReference>,
    seeds: &Vec<Vec<Seed>>,
    t: &mut Vec<Entry>,
)
    ensures
        entries_view(final(t)@) == resolve_all(
            ctx_of(modules@, refs@, seeds@),
            entries_view(old(t)@),
            refs@.len() as int,
        ),
{
    let ghost c = ctx_of(modules@, refs@, seeds@);
    let ghost start = entries_view(t@);
    let mut flags: Vec<bool> = Vec::new();
    while flags.len() < refs.len()
        invariant
            flags@.len() <= refs@.len(),
            flags@ == all_false(flags@.len()),
        decreases refs@.len() - flags@.len(),
    {
        flags.push(false);
        assert(flags@ =~= all_false(flags@.len()));
    }
    let mut i: usize = 0;
    while i < refs.len()
        invariant
            i <= refs@.len(),
            c == ctx_of(modules@, refs@, seeds@),
            flags@ == all_false(refs@.len() as nat),
            entries_view(t@) == resolve_all(c, start, i as int),
        decreases refs@.len() - i,
    {
        let cs = resolve_symbol_reference(modules, refs, seeds, t, i, &flags);
        let outcome = if cs.len() == 0 {
            let one = vec![recreate_reexport(&refs[i])];
            assert(entries_view(one@) =~= seq![synthetic(c.refs[i as int])]);
            one
        } else {
            cs
        };
        merge_all_exec(t, &outcome);
        i = i + 1;
    }
}


// ---------------------------------------------------------------------------
// Seeding: declarations and references of every module
// ---------------------------------------------------------------------------

/// Sets the row with `e`'s key to `e`, or adds it.
pub open spec fn put(t: Seq<EntryView>, e: EntryView) -> Seq<EntryView> {
    match lookup(t, e.key) {
        Some(k) => t.update(k, e),
        None => t.push(e),
    }
}

/// The table after the definitions among the first `k` items of `m`.
pub open spec fn seed_module(t: Seq<EntryView>, m: ModuleView, k: int) -> Seq<EntryView>
    decreases k,
{
    if k <= 0 || k > m.items.len() {
        t
    } else {
        let prev = seed_module(t, m, k - 1);
        match m.items[k - 1] {
            ItemView::Def(s) => put(
                prev,
                EntryView {
                    key: join_path(m.name, s.name),
                    decl: DeclarationView { symbol: s, modules: seq![m.name] },
                },
            ),
            _ => prev,
        }
    }
}

/// The declaration table seeded from the first `n` modules.
pub open spec fn seed_table(mods: Seq<ModuleView>, n: int) -> Seq<EntryView>
    decreases n,
{
    if n <= 0 || n > mods.len() {
        Seq::empty()
    } else {
        seed_module(seed_table(mods, n - 1), mods[n - 1], mods[n - 1].items.len() as int)
    }
}

pub open spec fn normalised(path: Seq<char>, module: Seq<char>) -> Seq<char> {
    match normalise(path, module) {
        Some(p) => p,
        None => path,
    }
}

/// The references made by the first `k` items of `m`.
pub open spec fn module_refs(m: ModuleView, k: int) -> Seq<ReferenceView>
    decreases k,
{
    if k <= 0 || k > m.items.len() {
        Seq::empty()
    } else {
        let prev = module_refs(m, k - 1);
        match m.items[k - 1] {
            ItemView::Reexport(p, kind) => prev.push(
                ReferenceView { path: normalised(p, m.name), host: m.name, kind },
            ),
            _ => prev,
        }
    }
}

/// The references made by the first `n` modules, in order.
pub open spec fn all_refs(mods: Seq<ModuleView>, n: int) -> Seq<ReferenceView>
    decreases n,
{
    if n <= 0 || n > mods.len() {
        Seq::empty()
    } else {
        all_refs(mods, n - 1) + module_refs(mods[n - 1], mods[n - 1].items.len() as int)
    }
}

/// The first `k` items of `m` for resolution, its references numbered from `base`.
pub open spec fn module_seeds(m: ModuleView, base: int, k: int) -> Seq<SeedView>
    decreases k,
{
    if k <= 0 || k > m.items.len() {
        Seq::empty()
    } else {
        let prev = module_seeds(m, base, k - 1);
        match m.items[k - 1] {
            ItemView::Def(s) => prev.push(SeedView::Def(s)),
            ItemView::Reexport(_, _) => prev.push(SeedView::Ref(base + module_refs(m, k - 1).len())),
        }
    }
}

pub open spec fn all_seeds(mods: Seq<ModuleView>, n: int) -> Seq<Seq<SeedView>>
    decreases n,
{
    if n <= 0 || n > mods.len() {
        Seq::empty()
    } else {
        all_seeds(mods, n - 1).push(
            module_seeds(
                mods[n - 1],
                all_refs(mods, n - 1).len() as int,
                mods[n - 1].items.len() as int,
            ),
        )
    }
}

/// Whether item `k` of module `m` uses the parent-scope qualifier from the root.
pub open spec fn bad_item(mods: Seq<ModuleView>, m: int, k: int) -> bool {
    &&& 0 <= m < mods.len()
    &&& 0 <= k < mods[m].items.len()
    &&& mods[m].items[k] matches ItemView::Reexport(p, _)
    &&& normalise(p, mods[m].name) is None
}

pub open spec fn has_bad_item(mods: Seq<ModuleView>) -> bool {
    exists|m: int, k: int| #[trigger] bad_item(mods, m, k)
}

/// Whether item `k` of module `m` is the first such item, in module order and
/// then item order.
pub open spec fn first_bad_item(mods: Seq<ModuleView>, m: int, k: int) -> bool {
    &&& bad_item(mods, m, k)
    &&& forall|m2: int, k2: int| #[trigger] bad_item(mods, m2, k2) ==> !(m2 < m || (m2 == m && k2 < k))
}

/// The error that resolution reports: `Malformed`, with the message naming
/// the first parent-scope re-export of the root module.
pub open spec fn bad_item_error(mods: Seq<ModuleView>, e: ExtractionError) -> bool {
    exists|m: int, k: int| #[trigger] first_bad_item(mods, m, k)
        && (e matches ExtractionError::Malformed(msg) && msg@ == super_message(mods[m].items[k]->Reexport_0))
}

/// The resolution context of a list of modules.
pub open spec fn context(mods: Seq<ModuleView>) -> Ctx {
    Ctx {
        mods,
        refs: all_refs(mods, mods.len() as int),
        seeds: all_seeds(mods, mods.len() as int),
    }
}

fn collect_symbols_and_references(modules: &[Module]) -> (r: Result<
    (Vec<Entry>, Vec<SymbolReference>, Vec<Vec<Seed>>),
    ExtractionError,
>)
    ensures
        r is Err <==> has_bad_item(modules_view(modules@)),
        r matches Err(e) ==> bad_item_error(modules_view(modules@), e),
        r matches Ok((t, refs, seeds)) ==> {
            &&& entries_view(t@) == seed_table(modules_view(modules@), modules@.len() as int)
            &&& references_view(refs@) == all_refs(modules_view(modules@), modules@.len() as int)
            &&& seeds_view(seeds@) == all_seeds(modules_view(modules@), modules@.len() as int)
        },
{
    let ghost mods = modules_view(modules@);
    let mut t: Vec<Entry> = Vec::new();
    let mut refs: Vec<SymbolReference> = Vec::new();
    let mut seeds: Vec<Vec<Seed>> = Vec::new();
    let mut mi: usize = 0;
    while mi < modules.len()
        invariant
            mods == modules_view(modules@),
            mi <= modules@.len(),
            entries_view(t@) == seed_table(mods, mi as int),
            references_view(refs@) == all_refs(mods, mi as int),
            seeds_view(seeds@) == all_seeds(mods, mi as int),
            forall|m: int, k: int| 0 <= m < mi ==> !#[trigger] bad_item(mods, m, k),
        decreases modules@.len() - mi,
    {
        let module = &modules[mi];
        let ghost mv = mods[mi as int];
        assert(mv == module@);
        let ghost base = refs@.len() as int;
        let ghost t0 = entries_view(t@);
        let mut row: Vec<Seed> = Vec::new();
        let mut ki: usize = 0;
        while ki < module.symbols.len()
            invariant
                mods == modules_view(modules@),
                mi < modules@.len(),
                mv == mods[mi as int],
                mv == module@,
                ki <= module.symbols@.len(),
                base == all_refs(mods, mi as int).len(),
                entries_view(t@) == seed_module(t0, mv, ki as int),
                references_view(refs@) == all_refs(mods, mi as int) + module_refs(mv, ki as int),
                row@.map_values(|x: Seed| x@) == module_seeds(mv, base, ki as int),
                forall|m: int, k: int| 0 <= m < mi ==> !#[trigger] bad_item(mods, m, k),
                forall|k: int| 0 <= k < ki ==> !#[trigger] bad_item(mods, mi as int, k),
            decreases module.symbols@.len() - ki,
        {
            assert(mv.items[ki as int] == module.symbols@[ki as int]@);
            match &module.symbols[ki] {
                ModuleItem::Symbol { symbol } => {
                    let e = Entry {
                        key: get_symbol_path_from_module_path(symbol.name.as_str(), module.name.as_str()),
                        declaration: SymbolDeclaration {
                            symbol: symbol.duplicate(),
                            modules: vec![copy_string(&module.name)],
                        },
                    };
                    assert(e@.decl.modules =~= seq![mv.name]);
                    put_exec(&mut t, e);
                    let ghost before = row@;
                    row.push(Seed::Def(symbol.duplicate()));
                    assert(row@.map_values(|x: Seed| x@) =~= before.map_values(|x: Seed| x@).push(SeedView::Def(symbol@)));
                },
                ModuleItem::SymbolReexport { source_path, import_type } => {
                    let normalised_path = match normalise_reference(source_path.as_str(), module.name.as_str()) {
                        Ok(p) => p,
                        Err(e) => {
                            assert(bad_item(mods, mi as int, ki as int));
                            assert(first_bad_item(mods, mi as int, ki as int));
                            assert(mods[mi as int].items[ki as int]->Reexport_0 == source_path@);
                            assert(bad_item_error(mods, e));
                            return Err(e);
                        },
                    };
                    let index = refs.len();
                    assert(references_view(refs@).len() == refs@.len());
                    assert(index as int == base + module_refs(mv, ki as int).len());
                    let ghost before = row@;
                    row.push(Seed::Ref(index));
                    assert(row@.map_values(|x: Seed| x@) =~= before.map_values(|x: Seed| x@).push(SeedView::Ref(base + module_refs(mv, ki as int).len())));
                    let ghost rbefore = refs@;
                    refs.push(SymbolReference {
                        source_path: normalised_path,
                        referencing_module: copy_string(&module.name),
                        import_type: import_type.duplicate(),
                    });
                    assert(references_view(refs@) =~= references_view(rbefore).push(refs@.last()@));
                    assert(references_view(refs@) =~= all_refs(mods, mi as int) + module_refs(mv, ki + 1));
                },
            }
            ki = ki + 1;
        }
        let ghost sbefore = seeds@;
        seeds.push(row);
        assert(seeds_view(seeds@) =~= seeds_view(sbefore).push(module_seeds(mv, base, mv.items.len() as int)));
        mi = mi + 1;
    }
    Ok((t, refs, seeds))
}

fn put_exec(t: &mut Vec<Entry>, e: Entry)
    ensures
        entries_view(final(t)@) == put(entries_view(old(t)@), e@),
{
    let ghost ev = e@;
    match lookup_exec(t, &e.key) {
        Some(k) => {
            let ghost before = t@;
            t.set(k, e);
            assert(entries_view(t@) =~= entries_view(before).update(k as int, ev));
        },
        None => {
            let ghost before = t@;
            t.push(e);
            assert(entries_view(t@) =~= entries_view(before).push(ev));
        },
    }
}

// ---------------------------------------------------------------------------
// Visibility filter and documentation
// ---------------------------------------------------------------------------

/// The public module paths among `names`, in order.
pub open spec fn filter_public(mods: Seq<ModuleView>, names: Seq<Seq<char>>) -> Seq<Seq<char>>
    decreases names.len(),
{
    if names.len() == 0 {
        Seq::empty()
    } else {
        let prev = filter_public(mods, names.drop_last());
        if is_public_name(mods, names.last()) {
            prev.push(names.last())
        } else {
            prev
        }
    }
}

/// The rows of `t` with their modules narrowed to the public ones; rows left
/// with no module are dropped.
pub open spec fn public_declarations(mods: Seq<ModuleView>, t: Seq<EntryView>) -> Seq<DeclarationView>
    decreases t.len(),
{
    if t.len() == 0 {
        Seq::empty()
    } else {
        let prev = public_declarations(mods, t.drop_last());
        let ms = filter_public(mods, t.last().decl.modules);
        if ms.len() > 0 {
            prev.push(DeclarationView { symbol: t.last().decl.symbol, modules: ms })
        } else {
            prev
        }
    }
}

/// The non-empty documentation of each of the first `n` modules that has some.
pub open spec fn docs_spec(mods: Seq<ModuleView>, n: int) -> Seq<(Seq<char>, Seq<char>)>
    decreases n,
{
    if n <= 0 || n > mods.len() {
        Seq::empty()
    } else {
        let prev = docs_spec(mods, n - 1);
        match mods[n - 1].doc {
            Some(d) => if d.len() > 0 {
                prev.push((mods[n - 1].name, d))
            } else {
                prev
            },
            None => prev,
        }
    }
}

/// The declarations that resolution produces for `mods`.
pub open spec fn resolution_spec(mods: Seq<ModuleView>) -> Seq<DeclarationView> {
    let c = context(mods);
    public_declarations(mods, resolve_all(c, seed_table(mods, mods.len() as int), c.refs.len() as int))
}

fn filter_public_exec(modules: &[Module], names: &Vec<String>) -> (r: Vec<String>)
    ensures
        strings_view(r@) == filter_public(modules_view(modules@), strings_view(names@)),
{
    let ghost mods = modules_view(modules@);
    let mut r: Vec<String> = Vec::new();
    let mut i: usize = 0;
    while i < names.len()
        invariant
            mods == modules_view(modules@),
            i <= names@.len(),
            strings_view(r@) == filter_public(mods, strings_view(names@).take(i as int)),
        decreases names@.len() - i,
    {
        assert(strings_view(names@).take(i + 1).drop_last() =~= strings_view(names@).take(i as int));
        if is_public_module(modules, &names[i]) {
            let ghost before = r@;
            r.push(copy_string(&names[i]));
            assert(strings_view(r@) =~= strings_view(before).push(names@[i as int]@));
        }
        i = i + 1;
    }
    assert(strings_view(names@).take(names@.len() as int) =~= strings_view(names@));
    r
}

fn public_declarations_exec(modules: &[Module], t: &Vec<Entry>) -> (r: Vec<SymbolDeclaration>)
    ensures
        declarations_view(r@) == public_declarations(modules_view(modules@), entries_view(t@)),
{
    let ghost mods = modules_view(modules@);
    let mut r: Vec<SymbolDeclaration> = Vec::new();
    let mut i: usize = 0;
    while i < t.len()
        invariant
            mods == modules_view(modules@),
            i <= t@.len(),
            declarations_view(r@) == public_declarations(mods, entries_view(t@).take(i as int)),
        decreases t@.len() - i,
    {
        assert(entries_view(t@).take(i + 1).drop_last() =~= entries_view(t@).take(i as int));
        let ms = filter_public_exec(modules, &t[i].declaration.modules);
        if ms.len() > 0 {
            let ghost before = r@;
            let d = SymbolDeclaration { symbol: t[i].declaration.symbol.duplicate(), modules: ms };
            r.push(d);
            assert(declarations_view(r@) =~= declarations_view(before).push(d@));
        }
        i = i + 1;
    }
    assert(entries_view(t@).take(t@.len() as int) =~= entries_view(t@));
    r
}

fn get_doc_comments_by_module(modules: &[Module]) -> (r: ModuleDocs)
    ensures
        doc_entries_view(r.entries@) == docs_spec(modules_view(modules@), modules@.len() as int),
{
    let ghost mods = modules_view(modules@);
    let mut entries: Vec<(String, String)> = Vec::new();
    let mut i: usize = 0;
    while i < modules.len()
        invariant
            mods == modules_view(modules@),
            i <= modules@.len(),
            doc_entries_view(entries@) == docs_spec(mods, i as int),
        decreases modules@.len() - i,
    {
        assert(mods[i as int] == modules@[i as int]@);
        match &modules[i].doc_comment {
            Some(d) => if !d.as_str().is_empty() {
                let ghost before = entries@;
                entries.push((copy_string(&modules[i].name), copy_string(d)));
                assert(doc_entries_view(entries@) =~= doc_entries_view(before).push((modules@[i as int].name@, d@)));
            },
            None => {},
        }
        i = i + 1;
    }
    ModuleDocs { entries }
}

/// Resolves every re-export of `modules` and returns each symbol with the
/// public module paths at which it is visible, and each module's documentation.
///
/// Fails exactly when a re-export uses the parent-scope qualifier (`super::`)
/// from the root module, with `Malformed` and the message "Cannot use super
/// from the root module (<path>)" for the first such re-export.
pub fn resolve_symbols(modules: &[Module]) -> (r: Result<SymbolResolution, ExtractionError>)
    ensures
        r is Err <==> has_bad_item(modules_view(modules@)),
        r matches Err(e) ==> bad_item_error(modules_view(modules@), e),
        r matches Ok(res) ==> {
            &&& declarations_view(res.symbols@) == resolution_spec(modules_view(modules@))
            &&& doc_entries_view(res.doc_comments.entries@) == docs_spec(
                modules_view(modules@),
                modules@.len() as int,
            )
        },
{
    let (mut table, refs, seeds) = match collect_symbols_and_references(modules) {
        Ok(x) => x,
        Err(e) => return Err(e),
    };
    resolve_references(modules, &refs, &seeds, &mut table);
    let symbols = public_declarations_exec(modules, &table);
    let doc_comments = get_doc_comments_by_module(modules);
    Ok(SymbolResolution { symbols, doc_comments })
}

} // verus!
