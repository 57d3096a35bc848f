//! Collection of the module directories of a package, starting from its entry
//! point and following `mod name;` declarations through its source files.

use vstd::prelude::*;
use vstd::string::*;

use crate::files::{file_view, items_view, FileItem, RustFile, RustSymbol};
use crate::module_directory::{dir_view, dirs_view, DirView, InternalFiles, ModuleDirectory};
use crate::parsing::{file_model, parse_rust_file};
use crate::syntax::{node_wf, SyntaxNode};
use crate::symbol_resolution::strings_view;
use crate::text::{chars_of, copy_string, join_path, join_path_exec, slice_chars, string_of};
use crate::types::{opt_view, ExtractionError};

verus! {

/// A source file of the package as read from disk: its path (with `/` as the
/// separator) and its text, `None` when it could not be read.
#[derive(Debug, Clone)]
pub struct SourceFile {
    pub path: String,
    pub content: Option<String>,
}

/// The source files and directories under a package's entry-point directory.
#[derive(Debug, Clone)]
pub struct SourceTree {
    pub files: Vec<SourceFile>,
    pub directories: Vec<String>,
}

/// The source files, each parsed (or the error that reading or parsing gave).
#[derive(Debug)]
pub struct ParsedSources {
    pub files: Vec<(String, Result<RustFile, ExtractionError>)>,
    pub directories: Vec<String>,
}

/// What holds of the parse of a file with text `content`, whatever the parser
/// gave: a model of some syntax tree of that text, or a parse error; and an
/// `Io` error for a file that could not be read.
pub open spec fn parsed_content(content: Option<String>, parsed: Result<RustFile, ExtractionError>) -> bool {
    match content {
        Some(c) => match parsed {
            Ok(f) => exists|t: SyntaxNode| node_wf(t, c@.len()) && #[trigger] file_model(c@, t) == Ok::<
                (Option<Seq<char>>, Seq<FileItem>),
                crate::parsing::ErrKind,
            >((opt_view(f.doc_comment), items_view(f.symbols@))),
            Err(e) => e is Parse || e is Malformed,
        },
        None => parsed matches Err(e) && e is Io,
    }
}

/// Parses every file of a source tree.
pub fn parse_sources(tree: &SourceTree, parser: &mut tree_sitter::Parser) -> (r: ParsedSources)
    ensures
        r.files@.len() == tree.files@.len(),
        forall|i: int| 0 <= i < r.files@.len() ==> #[trigger] r.files@[i].0@ == tree.files@[i].path@,
        forall|i: int|
            0 <= i < r.files@.len() && tree.files@[i].content is None ==> (#[trigger] r.files@[i].1 matches Err(e) && e is Io),
        forall|i: int| 0 <= i < r.files@.len() ==> #[trigger] parsed_content(tree.files@[i].content, r.files@[i].1),
        strings_view(r.directories@) == strings_view(tree.directories@),
{
    let mut files: Vec<(String, Result<RustFile, ExtractionError>)> = Vec::new();
    let mut i: usize = 0;
    while i < tree.files.len()
        invariant
            i <= tree.files@.len(),
            files@.len() == i,
            forall|k: int| 0 <= k < i ==> #[trigger] files@[k].0@ == tree.files@[k].path@,
            forall|k: int|
                0 <= k < i && tree.files@[k].content is None ==> (#[trigger] files@[k].1 matches Err(e) && e is Io),
            forall|k: int| 0 <= k < i ==> #[trigger] parsed_content(tree.files@[k].content, files@[k].1),
        decreases tree.files@.len() - i,
    {
        let f = &tree.files[i];
        let parsed = match &f.content {
            Some(c) => parse_rust_file(c.as_str(), parser),
            None => {
                let mut msg = String::from_str("Cannot read ");
                msg.append(f.path.as_str());
                Err(ExtractionError::Io(msg))
            },
        };
        files.push((copy_string(&f.path), parsed));
        i = i + 1;
    }
    let mut directories: Vec<String> = Vec::new();
    let mut j: usize = 0;
    while j < tree.directories.len()
        invariant
            j <= tree.directories@.len(),
            strings_view(directories@) == strings_view(tree.directories@).take(j as int),
        decreases tree.directories@.len() - j,
    {
        let ghost before = directories@;
        directories.push(copy_string(&tree.directories[j]));
        assert(strings_view(directories@) =~= strings_view(before).push(tree.directories@[j as int]@));
        j = j + 1;
        assert(strings_view(directories@) =~= strings_view(tree.directories@).take(j as int));
    }
    assert(strings_view(tree.directories@).take(tree.directories@.len() as int) =~= strings_view(tree.directories@));
    ParsedSources { files, directories }
}

// ---------------------------------------------------------------------------
// File-system paths
// ---------------------------------------------------------------------------

/// `dir/name`, or `name` alone for the empty directory.
pub open spec fn fs_join(dir: Seq<char>, name: Seq<char>) -> Seq<char> {
    if dir.len() == 0 {
        name
    } else {
        dir + seq!['/'] + name
    }
}

/// Position of the last `/` before `i`, or -1.
pub open spec fn last_slash_before(s: Seq<char>, i: int) -> int
    decreases i,
{
    if i <= 0 {
        -1
    } else if s[i - 1] == '/' {
        i - 1
    } else {
        last_slash_before(s, i - 1)
    }
}

/// The directory part of a path: what comes before its last `/`.
pub open spec fn parent_dir(path: Seq<char>) -> Seq<char> {
    let k = last_slash_before(path, path.len() as int);
    if k < 0 {
        Seq::empty()
    } else {
        path.subrange(0, k)
    }
}

pub open spec fn rs_file_name(name: Seq<char>) -> Seq<char> {
    name + seq!['.', 'r', 's']
}

pub open spec fn mod_rs() -> Seq<char> {
    seq!['m', 'o', 'd', '.', 'r', 's']
}

/// The first file at or after `i` with path `p`.
pub open spec fn file_index_from(files: Seq<(String, Result<RustFile, ExtractionError>)>, p: Seq<char>, i: int) -> Option<int>
    decreases files.len() - i,
{
    if i < 0 || i >= files.len() {
        None
    } else if files[i].0@ == p {
        Some(i)
    } else {
        file_index_from(files, p, i + 1)
    }
}

pub open spec fn file_index(ps: ParsedSources, p: Seq<char>) -> Option<int> {
    file_index_from(ps.files@, p, 0)
}

pub open spec fn has_directory(ps: ParsedSources, d: Seq<char>) -> bool {
    strings_view(ps.directories@).contains(d)
}

/// Where the module `name` declared in directory `dir` lives: its file, and
/// the directory scope that file opens, if it opens one.
pub open spec fn categorise(ps: ParsedSources, dir: Seq<char>, name: Seq<char>) -> Option<(Seq<char>, Option<Seq<char>>)> {
    let rs = fs_join(dir, rs_file_name(name));
    let sub = fs_join(dir, name);
    if file_index(ps, rs) is Some {
        if has_directory(ps, sub) {
            Some((rs, Some(sub)))
        } else {
            Some((rs, None))
        }
    } else if file_index(ps, fs_join(sub, mod_rs())) is Some {
        Some((fs_join(sub, mod_rs()), Some(sub)))
    } else {
        None
    }
}

// ---------------------------------------------------------------------------
// The traversal
// ---------------------------------------------------------------------------

/// The kind of failure of the collection.
pub enum FailKind {
    Io,
    Parse,
    Malformed,
}

pub open spec fn kind_of(e: ExtractionError) -> FailKind {
    match e {
        ExtractionError::Io(_) => FailKind::Io,
        ExtractionError::Parse(_) => FailKind::Parse,
        ExtractionError::Malformed(_) => FailKind::Malformed,
    }
}

/// How many of the files are not among the entry points `anc` of the scopes
/// being collected.
pub open spec fn count_outside(files: Seq<(String, Result<RustFile, ExtractionError>)>, anc: Seq<Seq<char>>) -> nat
    decreases files.len(),
{
    if files.len() == 0 {
        0
    } else {
        count_outside(files.drop_last(), anc) + if anc.contains(files.last().0@) {
            0nat
        } else {
            1nat
        }
    }
}

pub proof fn lemma_count_outside_push(files: Seq<(String, Result<RustFile, ExtractionError>)>, anc: Seq<Seq<char>>, p: Seq<char>)
    ensures
        count_outside(files, anc.push(p)) <= count_outside(files, anc),
        (exists|i: int| 0 <= i < files.len() && files[i].0@ == p) && !anc.contains(p) ==> count_outside(files, anc.push(p)) < count_outside(files, anc),
    decreases files.len(),
{
    if files.len() > 0 {
        lemma_count_outside_push(files.drop_last(), anc, p);
        if anc.contains(files.last().0@) {
            let k = choose|k: int| 0 <= k < anc.len() && anc[k] == files.last().0@;
            assert(anc.push(p)[k] == files.last().0@);
        }
        if anc.push(p).contains(files.last().0@) && !anc.contains(files.last().0@) {
            assert(files.last().0@ == p);
        }
        if files.last().0@ == p {
            assert(anc.push(p)[anc.len() as int] == p);
        }
        if (exists|i: int| 0 <= i < files.len() && files[i].0@ == p) && !anc.contains(p) {
            let i = choose|i: int| 0 <= i < files.len() && files[i].0@ == p;
            if i < files.len() - 1 {
                assert(files.drop_last()[i].0@ == p);
            }
        }
    }
}

pub proof fn lemma_file_index_bounds(files: Seq<(String, Result<RustFile, ExtractionError>)>, p: Seq<char>, i: int)
    ensures
        file_index_from(files, p, i) matches Some(k) ==> i <= k < files.len() && files[k].0@ == p,
    decreases files.len() - i,
{
    if 0 <= i < files.len() && files[i].0@ != p {
        lemma_file_index_bounds(files, p, i + 1);
    }
}

pub proof fn lemma_file_index_absent(files: Seq<(String, Result<RustFile, ExtractionError>)>, p: Seq<char>, i: int)
    requires
        forall|k: int| 0 <= k < files.len() ==> files[k].0@ != p,
    ensures
        file_index_from(files, p, i) is None,
    decreases files.len() - i,
{
    if 0 <= i < files.len() {
        lemma_file_index_absent(files, p, i + 1);
    }
}

/// The internal files and nested directories found so far, with the entry
/// points collected so far.
pub struct ScanView {
    pub files: Seq<(Seq<char>, (Option<Seq<char>>, Seq<FileItem>))>,
    pub dirs: Seq<DirView>,
    pub seen: Seq<Seq<char>>,
}

/// The directories collected from the scope whose entry point is `entry`,
/// itself first, with the entry points collected once it is done. `anc` holds
/// the entry points of the enclosing scopes and `seen` every entry point
/// collected so far; an entry point met again is passed over.
pub open spec fn collect_spec(
    ps: ParsedSources,
    entry: Seq<char>,
    dir: Seq<char>,
    is_public: bool,
    prefix: Seq<char>,
    anc: Seq<Seq<char>>,
    seen: Seq<Seq<char>>,
) -> Result<(Seq<DirView>, Seq<Seq<char>>), FailKind>
    decreases count_outside(ps.files@, anc), 0int, 0int,
{
    if anc.contains(entry) || seen.contains(entry) {
        Ok((Seq::empty(), seen))
    } else {
        match file_index(ps, entry) {
            None => Err(FailKind::Io),
            Some(i) => {
                proof {
                    lemma_file_index_bounds(ps.files@, entry, 0);
                    lemma_count_outside_push(ps.files@, anc, entry);
                }
                match ps.files@[i].1 {
                    Err(e) => Err(kind_of(e)),
                    Ok(f) => match scan_spec(ps, f.symbols@, dir, prefix, anc.push(entry), seen.push(entry), 0) {
                        Ok(sv) => Ok(
                            (
                                seq![DirView { name: prefix, is_public, entry: file_view(f), internal: sv.files }]
                                    + sv.dirs,
                                sv.seen,
                            ),
                        ),
                        Err(k) => Err(k),
                    },
                }
            },
        }
    }
}

/// The internal files and nested directories that the `mod name;`
/// declarations among items `k..` reach, given the entry points `seen`
/// collected before them.
pub open spec fn scan_spec(
    ps: ParsedSources,
    items: Seq<RustSymbol>,
    dir: Seq<char>,
    prefix: Seq<char>,
    anc: Seq<Seq<char>>,
    seen: Seq<Seq<char>>,
    k: int,
) -> Result<ScanView, FailKind>
    decreases count_outside(ps.files@, anc), 1int, items.len() - k,
{
    if k < 0 || k >= items.len() {
        Ok(ScanView { files: Seq::empty(), dirs: Seq::empty(), seen })
    } else {
        match items[k] {
            RustSymbol::ModuleImport { name, is_reexported } => match categorise(ps, dir, name@) {
                None => Err(FailKind::Malformed),
                Some((path, None)) => match file_index(ps, path) {
                    None => Err(FailKind::Io),
                    Some(i) => if 0 <= i < ps.files@.len() {
                        match ps.files@[i].1 {
                            Err(e) => Err(kind_of(e)),
                            Ok(f) => match scan_spec(ps, items, dir, prefix, anc, seen, k + 1) {
                                Ok(sv) => Ok(ScanView { files: seq![(name@, file_view(f))] + sv.files, ..sv }),
                                Err(e) => Err(e),
                            },
                        }
                    } else {
                        Err(FailKind::Io)
                    },
                },
                Some((path, Some(sub))) => match collect_spec(
                    ps,
                    path,
                    sub,
                    is_reexported,
                    join_path(prefix, name@),
                    anc,
                    seen,
                ) {
                    Ok((ds, seen1)) => match scan_spec(ps, items, dir, prefix, anc, seen1, k + 1) {
                        Ok(sv) => Ok(ScanView { dirs: ds + sv.dirs, ..sv }),
                        Err(e) => Err(e),
                    },
                    Err(e) => Err(e),
                },
            },
            _ => scan_spec(ps, items, dir, prefix, anc, seen, k + 1),
        }
    }
}

/// The directories of a package whose entry point is `entry`: the root scope
/// (public, unnamed) first.
pub open spec fn collection(ps: ParsedSources, entry: Seq<char>) -> Result<Seq<DirView>, FailKind> {
    match collect_spec(ps, entry, parent_dir(entry), true, Seq::empty(), Seq::empty(), Seq::empty()) {
        Ok((ds, _)) => Ok(ds),
        Err(k) => Err(k),
    }
}

fn file_index_exec(ps: &ParsedSources, p: &String) -> (r: Option<usize>)
    ensures
        r matches Some(k) ==> file_index(*ps, p@) == Some(k as int) && k < ps.files@.len(),
        r is None ==> file_index(*ps, p@) is None,
{
    let mut i: usize = 0;
    while i < ps.files.len()
        invariant
            i <= ps.files@.len(),
            file_index(*ps, p@) == file_index_from(ps.files@, p@, i as int),
        decreases ps.files@.len() - i,
    {
        if ps.files[i].0 == *p {
            return Some(i);
        }
        i = i + 1;
    }
    None
}

fn has_directory_exec(ps: &ParsedSources, d: &String) -> (r: bool)
    ensures
        r == has_directory(*ps, d@),
{
    let mut i: usize = 0;
    while i < ps.directories.len()
        invariant
            i <= ps.directories@.len(),
            forall|k: int| 0 <= k < i ==> strings_view(ps.directories@)[k] != d@,
        decreases ps.directories@.len() - i,
    {
        if ps.directories[i] == *d {
            assert(strings_view(ps.directories@)[i as int] == d@);
            return true;
        }
        i = i + 1;
    }
    false
}

fn fs_join_exec(dir: &String, name: &String) -> (r: String)
    ensures
        r@ == fs_join(dir@, name@),
{
    if dir.as_str().is_empty() {
        copy_string(name)
    } else {
        let mut r = copy_string(dir);
        proof {
            reveal_strlit("/");
        }
        r.append("/");
        r.append(name.as_str());
        assert(r@ =~= dir@ + seq!['/'] + name@);
        r
    }
}

fn parent_dir_exec(path: &str) -> (r: String)
    ensures
        r@ == parent_dir(path@),
{
    let cs = chars_of(path);
    let mut i = cs.len();
    while i > 0 && cs[i - 1] != '/'
        invariant
            i <= cs@.len(),
            last_slash_before(cs@, cs@.len() as int) == last_slash_before(cs@, i as int),
        decreases i,
    {
        i = i - 1;
    }
    if i == 0 {
        String::new()
    } else {
        string_of(&slice_chars(&cs, 0, i - 1))
    }
}

fn categorise_module_import(ps: &ParsedSources, dir: &String, name: &String) -> (r: Option<(String, Option<String>)>)
    ensures
        categorise(*ps, dir@, name@) matches Some((p, sub)) ==> r matches Some((q, s)) && q@ == p && opt_view(s) == sub,
        categorise(*ps, dir@, name@) is None ==> r is None,
{
    proof {
        reveal_strlit(".rs");
        reveal_strlit("mod.rs");
    }
    let mut file_name = copy_string(name);
    file_name.append(".rs");
    assert(file_name@ =~= rs_file_name(name@));
    let rs = fs_join_exec(dir, &file_name);
    let sub = fs_join_exec(dir, name);
    if file_index_exec(ps, &rs).is_some() {
        if has_directory_exec(ps, &sub) {
            Some((rs, Some(sub)))
        } else {
            Some((rs, None))
        }
    } else {
        let m = String::from_str("mod.rs");
        assert(m@ =~= mod_rs());
        let mod_path = fs_join_exec(&sub, &m);
        if file_index_exec(ps, &mod_path).is_some() {
            Some((mod_path, Some(sub)))
        } else {
            None
        }
    }
}

fn contains_path(anc: &Vec<String>, p: &String) -> (r: bool)
    ensures
        r == strings_view(anc@).contains(p@),
{
    let mut i: usize = 0;
    while i < anc.len()
        invariant
            i <= anc@.len(),
            forall|k: int| 0 <= k < i ==> strings_view(anc@)[k] != p@,
        decreases anc@.len() - i,
    {
        if anc[i] == *p {
            assert(strings_view(anc@)[i as int] == p@);
            return true;
        }
        i = i + 1;
    }
    false
}

fn error_of(e: &ExtractionError) -> (r: ExtractionError)
    ensures
        kind_of(r) == kind_of(*e),
{
    match e {
        ExtractionError::Io(m) => ExtractionError::Io(copy_string(m)),
        ExtractionError::Parse(m) => ExtractionError::Parse(copy_string(m)),
        ExtractionError::Malformed(m) => ExtractionError::Malformed(copy_string(m)),
    }
}

/// The qualified name of module `name` declared in the module named `namespace`.
pub fn prefix_namespace(name: &str, namespace: &str) -> (r: String)
    ensures
        r@ == join_path(namespace@, name@),
{
    join_path_exec(namespace, name)
}

/// Whether an executable outcome matches the specified directories.
pub open spec fn outcome_dirs(r: Result<Vec<ModuleDirectory>, ExtractionError>, s: Result<Seq<DirView>, FailKind>) -> bool {
    match s {
        Ok(v) => r matches Ok(x) && dirs_view(x@) == v,
        Err(k) => r matches Err(e) && kind_of(e) == k,
    }
}

fn recursively_collect_module_directories(
    ps: &ParsedSources,
    entry: &String,
    dir: &String,
    is_public: bool,
    prefix: &String,
    anc: &Vec<String>,
    seen: &mut Vec<String>,
) -> (r: Result<Vec<ModuleDirectory>, ExtractionError>)
    ensures
        ({
            let s = collect_spec(*ps, entry@, dir@, is_public, prefix@, strings_view(anc@), strings_view(old(seen)@));
            &&& s matches Ok((ds, seen1)) ==> (r matches Ok(x) && dirs_view(x@) == ds && strings_view(final(seen)@) == seen1)
            &&& s matches Err(k) ==> (r matches Err(e) && kind_of(e) == k)
        }),
    decreases count_outside(ps.files@, strings_view(anc@)), 0int, 0int,
{
    if contains_path(anc, entry) || contains_path(seen, entry) {
        let r: Vec<ModuleDirectory> = Vec::new();
        assert(dirs_view(r@) =~= Seq::<DirView>::empty());
        return Ok(r);
    }
    let i = match file_index_exec(ps, entry) {
        Some(i) => i,
        None => {
            let mut msg = String::from_str("No such file: ");
            msg.append(entry.as_str());
            return Err(ExtractionError::Io(msg));
        },
    };
    proof {
        lemma_file_index_bounds(ps.files@, entry@, 0);
        lemma_count_outside_push(ps.files@, strings_view(anc@), entry@);
    }
    let file = match &ps.files[i].1 {
        Ok(f) => f,
        Err(e) => return Err(error_of(e)),
    };
    let mut anc2 = copy_paths(anc);
    anc2.push(copy_string(entry));
    assert(strings_view(anc2@) =~= strings_view(anc@).push(entry@));
    let ghost old_seen = strings_view(seen@);
    let ghost e2 = entry@;
    seen.push(copy_string(entry));
    let ghost s_before = seen@;
    assert(strings_view(seen@) =~= old_seen.push(e2)) by {
        assert(seen@ == s_before);
    }
    let mut internal: Vec<(String, RustFile)> = Vec::new();
    let mut nested: Vec<ModuleDirectory> = Vec::new();
    let items = &file.symbols;
    let ghost a2 = strings_view(anc2@);
    let ghost total = scan_spec(*ps, items@, dir@, prefix@, a2, old_seen.push(e2), 0);
    assert(ps.files@[i as int].1 == Ok::<RustFile, ExtractionError>(*file));
    let ghost whole = collect_spec(*ps, entry@, dir@, is_public, prefix@, strings_view(anc@), old_seen);
    assert(whole == match total {
        Ok(sv) => Ok((seq![DirView { name: prefix@, is_public, entry: file_view(*file), internal: sv.files }] + sv.dirs, sv.seen)),
        Err(e) => Err(e),
    });
    assert(internal@.map_values(|e: (String, RustFile)| (e.0@, file_view(e.1))) =~= Seq::empty());
    assert(dirs_view(nested@) =~= Seq::empty());
    proof {
        match total {
            Ok(sv) => {
                assert(Seq::<(Seq<char>, (Option<Seq<char>>, Seq<FileItem>))>::empty() + sv.files =~= sv.files);
                assert(Seq::<DirView>::empty() + sv.dirs =~= sv.dirs);
            },
            Err(_) => {},
        }
    }
    let mut k: usize = 0;
    while k < items.len()
        invariant
            k <= items@.len(),
            a2 == strings_view(anc2@),
            count_outside(ps.files@, a2) < count_outside(ps.files@, strings_view(anc@)),
            items == file.symbols,
            whole == collect_spec(*ps, entry@, dir@, is_public, prefix@, strings_view(anc@), strings_view(old(seen)@)),
            whole == match total {
                Ok(sv) => Ok((seq![DirView { name: prefix@, is_public, entry: file_view(*file), internal: sv.files }] + sv.dirs, sv.seen)),
                Err(e) => Err(e),
            },
            total == scan_join(
                internal@.map_values(|e: (String, RustFile)| (e.0@, file_view(e.1))),
                dirs_view(nested@),
                scan_spec(*ps, items@, dir@, prefix@, a2, strings_view(seen@), k as int),
            ),
        decreases items@.len() - k,
    {
        let ghost fi0 = internal@.map_values(|e: (String, RustFile)| (e.0@, file_view(e.1)));
        let ghost nd0 = dirs_view(nested@);
        let ghost sn = strings_view(seen@);
        match &items[k] {
            RustSymbol::ModuleImport { name, is_reexported } => {
                match categorise_module_import(ps, dir, name) {
                    None => {
                        assert(scan_spec(*ps, items@, dir@, prefix@, a2, sn, k as int) is Err);
                        assert(scan_spec(*ps, items@, dir@, prefix@, a2, sn, k as int)->Err_0 == FailKind::Malformed);
                        let mut msg = String::from_str("Could not find module ");
                        msg.append(name.as_str());
                        return Err(ExtractionError::Malformed(msg));
                    },
                    Some((path, None)) => {
                        let fi = match file_index_exec(ps, &path) {
                            Some(fi) => fi,
                            None => {
                                return Err(ExtractionError::Io(path));
                            },
                        };
                        match &ps.files[fi].1 {
                            Ok(f2) => {
                                let copy = f2.duplicate();
                                let ghost entry_view = (name@, file_view(*f2));
                                internal.push((copy_string(name), copy));
                                assert(internal@.map_values(|e: (String, RustFile)| (e.0@, file_view(e.1))) =~= fi0.push(entry_view));
                                proof {
                                    lemma_scan_join_file(fi0, nd0, entry_view, scan_spec(*ps, items@, dir@, prefix@, a2, sn, k + 1));
                                }
                            },
                            Err(e) => {
                                assert(scan_spec(*ps, items@, dir@, prefix@, a2, sn, k as int) is Err);
                                assert(scan_spec(*ps, items@, dir@, prefix@, a2, sn, k as int)->Err_0 == kind_of(*e));
                                return Err(error_of(e));
                            },
                        }
                    },
                    Some((path, Some(sub))) => {
                        let child_prefix = prefix_namespace(name.as_str(), prefix.as_str());
                        let mut ds = match recursively_collect_module_directories(ps, &path, &sub, *is_reexported, &child_prefix, &anc2, seen) {
                            Ok(ds) => ds,
                            Err(e) => return Err(e),
                        };
                        let ghost dsv = dirs_view(ds@);
                        nested.append(&mut ds);
                        assert(dirs_view(nested@) =~= nd0 + dsv);
                        proof {
                            lemma_scan_join_dirs(fi0, nd0, dsv, scan_spec(*ps, items@, dir@, prefix@, a2, strings_view(seen@), k + 1));
                        }
                    },
                }
            },
            _ => {},
        }
        k = k + 1;
    }
    let d = ModuleDirectory {
        name: copy_string(prefix),
        is_public,
        entry_point: file.duplicate(),
        internal_files: InternalFiles { entries: internal },
    };
    let ghost dv = dir_view(d);
    let mut out = vec![d];
    let ghost ndv = dirs_view(nested@);
    out.append(&mut nested);
    proof {
        assert(dirs_view(out@) =~= seq![dv] + ndv);
        let fiv = d.internal_files.entries@.map_values(|e: (String, RustFile)| (e.0@, file_view(e.1)));
        assert(scan_spec(*ps, items@, dir@, prefix@, a2, strings_view(seen@), k as int) == Ok::<ScanView, FailKind>(ScanView { files: Seq::empty(), dirs: Seq::empty(), seen: strings_view(seen@) }));
        assert(fiv + Seq::<(Seq<char>, (Option<Seq<char>>, Seq<FileItem>))>::empty() =~= fiv);
        assert(ndv + Seq::<DirView>::empty() =~= ndv);
    }
    Ok(out)
}

/// Puts what items before `k` gave in front of what items `k..` give.
pub open spec fn scan_join(
    fi: Seq<(Seq<char>, (Option<Seq<char>>, Seq<FileItem>))>,
    nd: Seq<DirView>,
    rest: Result<ScanView, FailKind>,
) -> Result<ScanView, FailKind> {
    match rest {
        Ok(sv) => Ok(ScanView { files: fi + sv.files, dirs: nd + sv.dirs, seen: sv.seen }),
        Err(e) => Err(e),
    }
}

proof fn lemma_scan_join_file(
    fi: Seq<(Seq<char>, (Option<Seq<char>>, Seq<FileItem>))>,
    nd: Seq<DirView>,
    x: (Seq<char>, (Option<Seq<char>>, Seq<FileItem>)),
    rest: Result<ScanView, FailKind>,
)
    ensures
        scan_join(fi, nd, match rest {
            Ok(sv) => Ok(ScanView { files: seq![x] + sv.files, ..sv }),
            Err(e) => Err(e),
        }) == scan_join(fi.push(x), nd, rest),
{
    match rest {
        Ok(sv) => {
            assert(fi + (seq![x] + sv.files) =~= fi.push(x) + sv.files);
        },
        Err(_) => {},
    }
}

proof fn lemma_scan_join_dirs(
    fi: Seq<(Seq<char>, (Option<Seq<char>>, Seq<FileItem>))>,
    nd: Seq<DirView>,
    ds: Seq<DirView>,
    rest: Result<ScanView, FailKind>,
)
    ensures
        scan_join(fi, nd, match rest {
            Ok(sv) => Ok(ScanView { dirs: ds + sv.dirs, ..sv }),
            Err(e) => Err(e),
        }) == scan_join(fi, nd + ds, rest),
{
    match rest {
        Ok(sv) => {
            assert(nd + (ds + sv.dirs) =~= (nd + ds) + sv.dirs);
        },
        Err(_) => {},
    }
}

fn copy_paths(v: &Vec<String>) -> (r: Vec<String>)
    ensures
        strings_view(r@) == strings_view(v@),
{
    let mut r: Vec<String> = Vec::new();
    let mut i: usize = 0;
    while i < v.len()
        invariant
            i <= v@.len(),
            strings_view(r@) == strings_view(v@).take(i as int),
        decreases v@.len() - i,
    {
        let ghost before = r@;
        r.push(copy_string(&v[i]));
        assert(strings_view(r@) =~= strings_view(before).push(v@[i as int]@));
        i = i + 1;
        assert(strings_view(r@) =~= strings_view(v@).take(i as int));
    }
    assert(strings_view(v@).take(v@.len() as int) =~= strings_view(v@));
    r
}

/// Collects the module directories of a package from its entry point: the
/// root scope (public, unnamed) first, then the nested directory scopes that
/// `mod name;` declarations open, depth first in source order.
///
/// Fails with `Io` when the entry point or a file it needs is missing or
/// unreadable, with `Malformed` when a declared module has no file, and with
/// the parser's error for a file that did not parse.
pub fn collect_module_directories(entry_point: &str, sources: &ParsedSources) -> (r: Result<Vec<ModuleDirectory>, ExtractionError>)
    ensures
        outcome_dirs(r, collection(*sources, entry_point@)),
{
    let entry = entry_point.to_owned();
    let dir = parent_dir_exec(entry_point);
    let anc: Vec<String> = Vec::new();
    let mut seen: Vec<String> = Vec::new();
    assert(strings_view(anc@) =~= Seq::<Seq<char>>::empty());
    assert(strings_view(seen@) =~= Seq::<Seq<char>>::empty());
    recursively_collect_module_directories(sources, &entry, &dir, true, &String::new(), &anc, &mut seen)
}

} // verus!
