//! The parsing adapter: from a syntax tree of one source file to its file model.

use vstd::prelude::*;
use vstd::string::*;

use crate::files::{items_view, lemma_items_view_push, FileItem, ImportKind, ImportType, RustFile, RustSymbol};
use crate::syntax::{node_wf, parse_syntax, SyntaxNode};
use crate::text::{chars_of, find_sep_from, sep, slice_chars, string_of};
use crate::types::{opt_view, ExtractionError, Symbol, SymbolView};

verus! {

/// The kind of failure of the adapter.
pub enum ErrKind {
    Parse,
    Malformed,
}

/// Whether an error is of the given kind.
pub open spec fn error_is(e: ExtractionError, k: ErrKind) -> bool {
    match k {
        ErrKind::Parse => e is Parse,
        ErrKind::Malformed => e is Malformed,
    }
}

/// The characters that `char::is_whitespace` accepts (Unicode `White_Space`).
pub open spec fn is_whitespace(c: char) -> bool {
    ('\u{9}' <= c <= '\u{d}') || c == ' ' || c == '\u{85}' || c == '\u{a0}' || c == '\u{1680}'
        || ('\u{2000}' <= c <= '\u{200a}') || c == '\u{2028}' || c == '\u{2029}' || c == '\u{202f}'
        || c == '\u{205f}' || c == '\u{3000}'
}

/// `s` without its trailing whitespace.
pub open spec fn trim_end(s: Seq<char>) -> Seq<char>
    decreases s.len(),
{
    if s.len() > 0 && is_whitespace(s.last()) {
        trim_end(s.drop_last())
    } else {
        s
    }
}

/// The text of a node.
pub open spec fn text(src: Seq<char>, n: SyntaxNode) -> Seq<char> {
    src.subrange(n.start as int, n.end as int)
}

/// The first child at or after `i` whose kind is `k1` or `k2`.
pub open spec fn child_from(cs: Seq<SyntaxNode>, k1: Seq<char>, k2: Seq<char>, i: int) -> Option<int>
    decreases cs.len() - i,
{
    if i < 0 || i >= cs.len() {
        None
    } else if cs[i].kind@ == k1 || cs[i].kind@ == k2 {
        Some(i)
    } else {
        child_from(cs, k1, k2, i + 1)
    }
}

/// The first child of kind `k`.
pub open spec fn child_of_kind(n: SyntaxNode, k: Seq<char>) -> Option<int> {
    child_from(n.children@, k, k, 0)
}

pub open spec fn has_child_of_kind(n: SyntaxNode, k: Seq<char>) -> bool {
    child_of_kind(n, k) is Some
}

/// Whether a node carries the public visibility marker.
pub open spec fn has_visibility_marker(n: SyntaxNode) -> bool {
    has_child_of_kind(n, "visibility_modifier"@)
}

/// Whether a comment node is a documentation comment with the given marker.
pub open spec fn doc_marked(n: SyntaxNode, marker: Seq<char>) -> bool {
    has_child_of_kind(n, marker) && has_child_of_kind(n, "doc_comment"@)
}

/// The two kinds of documentation comment.
#[derive(Debug, Clone, Copy)]
pub enum DocCommentMarker {
    Outer,
    Inner,
}

impl DocCommentMarker {
    pub open spec fn spec_kind(self) -> Seq<char> {
        match self {
            DocCommentMarker::Outer => outer_marker(),
            DocCommentMarker::Inner => inner_marker(),
        }
    }

    /// The kind of the syntax node that marks such a comment.
    pub fn kind(&self) -> (r: &'static str)
        ensures
            r@ == self.spec_kind(),
    {
        match self {
            DocCommentMarker::Outer => "outer_doc_comment_marker",
            DocCommentMarker::Inner => "inner_doc_comment_marker",
        }
    }
}

pub open spec fn outer_marker() -> Seq<char> {
    "outer_doc_comment_marker"@
}

pub open spec fn inner_marker() -> Seq<char> {
    "inner_doc_comment_marker"@
}

/// The name of an item: the text of its first identifier child.
pub open spec fn item_name(src: Seq<char>, n: SyntaxNode) -> Result<Seq<char>, ErrKind> {
    match child_from(n.children@, "identifier"@, "type_identifier"@, 0) {
        Some(i) => Ok(text(src, n.children@[i])),
        None => Err(ErrKind::Malformed),
    }
}

/// The attribute lines right before sibling `j`, each followed by a newline.
pub open spec fn attribute_text(src: Seq<char>, sibs: Seq<SyntaxNode>, j: int) -> Seq<char>
    decreases j,
{
    if j <= 0 || j > sibs.len() || sibs[j - 1].kind@ != "attribute_item"@ {
        Seq::empty()
    } else {
        attribute_text(src, sibs, j - 1) + text(src, sibs[j - 1]) + seq!['\n']
    }
}

/// The position reached from `p` by walking back over attributes.
pub open spec fn skip_attributes(sibs: Seq<SyntaxNode>, p: int) -> int
    decreases p,
{
    if 0 < p < sibs.len() && sibs[p].kind@ == "attribute_item"@ {
        skip_attributes(sibs, p - 1)
    } else {
        p
    }
}

/// The outer line doc comments that end at sibling `p`, in source order.
pub open spec fn line_docs(src: Seq<char>, sibs: Seq<SyntaxNode>, p: int) -> Seq<char>
    decreases p + 1,
{
    if 0 <= p < sibs.len() && sibs[p].kind@ == "line_comment"@ && doc_marked(sibs[p], outer_marker()) {
        line_docs(src, sibs, p - 1) + text(src, sibs[p])
    } else {
        Seq::empty()
    }
}

/// The outer documentation of sibling `j`: a block doc comment before it (and
/// its attributes), or the line doc comments there.
pub open spec fn outer_doc(src: Seq<char>, sibs: Seq<SyntaxNode>, j: int) -> Option<Seq<char>> {
    if j <= 0 || j > sibs.len() {
        None
    } else {
        let p = skip_attributes(sibs, j - 1);
        if sibs[p].kind@ == "block_comment"@ && doc_marked(sibs[p], outer_marker()) {
            Some(text(src, sibs[p]) + seq!['\n'])
        } else {
            let d = line_docs(src, sibs, p);
            if d.len() == 0 {
                None
            } else {
                Some(d)
            }
        }
    }
}

pub open spec fn or_empty(o: Option<Seq<char>>) -> Seq<char> {
    match o {
        Some(s) => s,
        None => Seq::empty(),
    }
}

/// The inner doc comments among the children of `n` from `i` on: line doc
/// comments, with braces passed over, up to the first other node.
pub open spec fn inner_from(src: Seq<char>, n: SyntaxNode, i: int) -> Seq<char>
    decreases n.children@.len() - i,
{
    if i < 0 || i >= n.children@.len() {
        Seq::empty()
    } else {
        let c = n.children@[i];
        if c.kind@ == "line_comment"@ {
            if doc_marked(c, inner_marker()) {
                text(src, c) + inner_from(src, n, i + 1)
            } else {
                Seq::empty()
            }
        } else if c.kind@ == "{"@ || c.kind@ == "}"@ {
            inner_from(src, n, i + 1)
        } else {
            Seq::empty()
        }
    }
}

/// The inner documentation of a file or block.
pub open spec fn inner_doc(src: Seq<char>, n: SyntaxNode) -> Option<Seq<char>> {
    let d = inner_from(src, n, 0);
    if d.len() == 0 {
        None
    } else {
        Some(d)
    }
}

/// The source from the start of `n` up to the start of its child `c`.
pub open spec fn head(src: Seq<char>, n: SyntaxNode, c: SyntaxNode) -> Seq<char> {
    src.subrange(n.start as int, c.start as int)
}

/// A function shown without its body: its head, trimmed, then `;`.
pub open spec fn signature(src: Seq<char>, n: SyntaxNode) -> Result<Seq<char>, ErrKind> {
    match child_of_kind(n, "block"@) {
        Some(b) => Ok(trim_end(head(src, n, n.children@[b])) + seq![';']),
        None => Err(ErrKind::Malformed),
    }
}

/// Sibling `j` as shown inside a trait: documentation, attributes, then the
/// signature of a function, or the text of anything else.
pub open spec fn member_source(src: Seq<char>, sibs: Seq<SyntaxNode>, j: int) -> Result<Seq<char>, ErrKind> {
    let n = sibs[j];
    let prefix = or_empty(outer_doc(src, sibs, j)) + attribute_text(src, sibs, j);
    if n.kind@ == "function_item"@ {
        match signature(src, n) {
            Ok(s) => Ok(prefix + s),
            Err(e) => Err(e),
        }
    } else {
        Ok(prefix + text(src, n))
    }
}

/// Position of the first newline at or after `i`, or the length.
pub open spec fn find_newline(s: Seq<char>, i: int) -> int
    decreases s.len() - i,
{
    if i < 0 || i >= s.len() {
        s.len() as int
    } else if s[i] == '\n' {
        i
    } else {
        find_newline(s, i + 1)
    }
}

/// A line without a trailing carriage return.
pub open spec fn strip_cr(l: Seq<char>) -> Seq<char> {
    if l.len() > 0 && l.last() == '\r' {
        l.drop_last()
    } else {
        l
    }
}

pub open spec fn four_spaces() -> Seq<char> {
    seq![' ', ' ', ' ', ' ']
}

/// Each line of `s` indented by four spaces and ended by a newline.
pub open spec fn indent_lines(s: Seq<char>) -> Seq<char>
    decreases s.len(),
{
    if s.len() == 0 {
        Seq::empty()
    } else {
        let k = find_newline(s, 0);
        let line = four_spaces() + strip_cr(s.subrange(0, k)) + seq!['\n'];
        if 0 <= k < s.len() {
            line + indent_lines(s.subrange(k + 1, s.len() as int))
        } else {
            line
        }
    }
}

/// The methods among siblings from `j` on, each shown and indented.
pub open spec fn trait_members(src: Seq<char>, sibs: Seq<SyntaxNode>, j: int) -> Result<Seq<char>, ErrKind>
    decreases sibs.len() - j,
{
    if j < 0 || j >= sibs.len() {
        Ok(Seq::empty())
    } else if sibs[j].kind@ == "function_item"@ || sibs[j].kind@ == "function_signature_item"@ {
        match member_source(src, sibs, j) {
            Ok(m) => match trait_members(src, sibs, j + 1) {
                Ok(rest) => Ok(indent_lines(m) + rest),
                Err(e) => Err(e),
            },
            Err(e) => Err(e),
        }
    } else {
        trait_members(src, sibs, j + 1)
    }
}

/// The rendered declaration of public item `j` among `sibs`.
pub open spec fn symbol_source(src: Seq<char>, sibs: Seq<SyntaxNode>, j: int) -> Result<Seq<char>, ErrKind> {
    let n = sibs[j];
    let prefix = or_empty(outer_doc(src, sibs, j)) + attribute_text(src, sibs, j);
    if n.kind@ == "trait_item"@ {
        match child_of_kind(n, "declaration_list"@) {
            Some(d) => match trait_members(src, n.children@[d].children@, 0) {
                Ok(ms) => Ok(prefix + head(src, n, n.children@[d]) + seq!['{', '\n'] + ms + seq!['}']),
                Err(e) => Err(e),
            },
            None => Err(ErrKind::Malformed),
        }
    } else {
        member_source(src, sibs, j)
    }
}

/// The first child at or after `i` that opens a macro body: `{`, `(` or `[`.
pub open spec fn body_delimiter(cs: Seq<SyntaxNode>, i: int) -> Option<int>
    decreases cs.len() - i,
{
    if i < 0 || i >= cs.len() {
        None
    } else if cs[i].kind@ == "{"@ || cs[i].kind@ == "("@ || cs[i].kind@ == "["@ {
        Some(i)
    } else {
        body_delimiter(cs, i + 1)
    }
}

/// Whether an export attribute comes before sibling `j`, past attributes and comments.
pub open spec fn exported_before(src: Seq<char>, sibs: Seq<SyntaxNode>, j: int) -> bool
    decreases j,
{
    if j <= 0 || j > sibs.len() {
        false
    } else {
        let s = sibs[j - 1];
        if s.kind@ == "attribute_item"@ {
            text(src, s) == "#[macro_export]"@ || exported_before(src, sibs, j - 1)
        } else if s.kind@ == "line_comment"@ || s.kind@ == "block_comment"@ {
            exported_before(src, sibs, j - 1)
        } else {
            false
        }
    }
}

/// The rendered declaration of macro `j`, `None` when it is not exported.
pub open spec fn macro_source(src: Seq<char>, sibs: Seq<SyntaxNode>, j: int) -> Result<Option<Seq<char>>, ErrKind> {
    let n = sibs[j];
    if !exported_before(src, sibs, j) {
        Ok(None)
    } else {
        match body_delimiter(n.children@, 0) {
            Some(b) => Ok(
                Some(
                    or_empty(outer_doc(src, sibs, j)) + "#[macro_export]"@ + seq!['\n'] + trim_end(
                        head(src, n, n.children@[b]),
                    ) + seq![';'],
                ),
            ),
            None => Err(ErrKind::Malformed),
        }
    }
}

/// A path segment without its raw-identifier markers.
pub open spec fn trim_raw(s: Seq<char>) -> Seq<char>
    decreases s.len(),
{
    if s.len() >= 2 && s[0] == 'r' && s[1] == '#' {
        trim_raw(s.subrange(2, s.len() as int))
    } else {
        s
    }
}

/// A path with the raw-identifier markers taken off each segment.
pub open spec fn strip_raw(p: Seq<char>) -> Seq<char>
    decreases p.len(),
{
    let k = find_sep_from(p, 0);
    if 0 <= k && k + 2 <= p.len() {
        trim_raw(p.subrange(0, k)) + sep() + strip_raw(p.subrange(k + 2, p.len() as int))
    } else {
        trim_raw(p)
    }
}

/// The concatenated texts of the children of `n` from `i` on.
pub open spec fn children_text(src: Seq<char>, n: SyntaxNode, i: int) -> Seq<char>
    decreases n.children@.len() - i,
{
    if i < 0 || i >= n.children@.len() {
        Seq::empty()
    } else {
        text(src, n.children@[i]) + children_text(src, n, i + 1)
    }
}

/// The last identifier child of `n` before position `i`.
pub open spec fn last_identifier(n: SyntaxNode, i: int) -> Option<int>
    decreases i,
{
    if i <= 0 || i > n.children@.len() {
        None
    } else if n.children@[i - 1].kind@ == "identifier"@ {
        Some(i - 1)
    } else {
        last_identifier(n, i - 1)
    }
}

/// The simple re-exports `prefix::name` for the identifiers among the children
/// of a use list from `i` on.
pub open spec fn list_reexports(src: Seq<char>, prefix: Seq<char>, l: SyntaxNode, i: int) -> Seq<FileItem>
    decreases l.children@.len() - i,
{
    if i < 0 || i >= l.children@.len() {
        Seq::empty()
    } else {
        let rest = list_reexports(src, prefix, l, i + 1);
        if l.children@[i].kind@ == "identifier"@ {
            seq![FileItem::Reexport(strip_raw(prefix + sep() + text(src, l.children@[i])), ImportKind::Simple)] + rest
        } else {
            rest
        }
    }
}

/// The re-exports of a `use` declaration: none unless it is public.
pub open spec fn use_reexports(src: Seq<char>, n: SyntaxNode) -> Result<Seq<FileItem>, ErrKind> {
    if !has_visibility_marker(n) {
        Ok(Seq::empty())
    } else if let Some(i) = child_of_kind(n, "scoped_identifier"@) {
        Ok(seq![FileItem::Reexport(strip_raw(children_text(src, n.children@[i], 0)), ImportKind::Simple)])
    } else if let Some(i) = child_of_kind(n, "use_as_clause"@) {
        let u = n.children@[i];
        if u.children@.len() == 0 {
            Err(ErrKind::Malformed)
        } else {
            match last_identifier(u, u.children@.len() as int) {
                Some(a) => Ok(
                    seq![
                        FileItem::Reexport(
                            strip_raw(text(src, u.children@[0])),
                            ImportKind::Aliased(trim_raw(text(src, u.children@[a]))),
                        ),
                    ],
                ),
                None => Err(ErrKind::Malformed),
            }
        }
    } else if let Some(i) = child_of_kind(n, "scoped_use_list"@) {
        let l = n.children@[i];
        if l.children@.len() == 0 {
            Err(ErrKind::Malformed)
        } else {
            match child_of_kind(l, "use_list"@) {
                Some(u) => Ok(list_reexports(src, text(src, l.children@[0]), l.children@[u], 0)),
                None => Err(ErrKind::Malformed),
            }
        }
    } else if let Some(i) = child_of_kind(n, "use_wildcard"@) {
        let w = n.children@[i];
        match child_from(w.children@, "identifier"@, "scoped_identifier"@, 0) {
            Some(p) => Ok(seq![FileItem::Reexport(strip_raw(text(src, w.children@[p])), ImportKind::Wildcard)]),
            None => Err(ErrKind::Malformed),
        }
    } else if let Some(i) = child_of_kind(n, "identifier"@) {
        Ok(seq![FileItem::Reexport(strip_raw(text(src, n.children@[i])), ImportKind::Simple)])
    } else {
        Err(ErrKind::Malformed)
    }
}


/// The items that child `j` of `n` contributes to the model.
pub open spec fn child_items(src: Seq<char>, n: SyntaxNode, j: int) -> Result<Seq<FileItem>, ErrKind>
    decreases n, 0int,
{
    if j < 0 || j >= n.children@.len() {
        Ok(Seq::empty())
    } else {
        let c = n.children@[j];
        let k = c.kind@;
        if k == "function_item"@ || k == "struct_item"@ || k == "enum_item"@ || k == "trait_item"@ {
            if !has_visibility_marker(c) {
                Ok(Seq::empty())
            } else {
                match item_name(src, c) {
                    Ok(name) => match symbol_source(src, n.children@, j) {
                        Ok(code) => Ok(seq![FileItem::SymbolDef(SymbolView { name, source_code: code })]),
                        Err(e) => Err(e),
                    },
                    Err(e) => Err(e),
                }
            }
        } else if k == "macro_definition"@ {
            match macro_source(src, n.children@, j) {
                Ok(Some(code)) => match item_name(src, c) {
                    Ok(name) => Ok(seq![FileItem::SymbolDef(SymbolView { name, source_code: code })]),
                    Err(e) => Err(e),
                },
                Ok(None) => Ok(Seq::empty()),
                Err(e) => Err(e),
            }
        } else if k == "use_declaration"@ {
            use_reexports(src, c)
        } else if k == "mod_item"@ {
            match item_name(src, c) {
                Ok(name) => match child_of_kind(c, "declaration_list"@) {
                    Some(d) => {
                        proof {
                            lemma_child_from_bounds(c.children@, "declaration_list"@, "declaration_list"@, 0);
                            broadcast use vstd::std_specs::vec::axiom_vec_index_decreases;
                            broadcast use vstd::std_specs::vec::axiom_vec_decreases_to_view;
                            broadcast use vstd::seq::axiom_seq_index_decreases;
                            assert(decreases_to!(n.children => n.children@));
                            assert(decreases_to!(n.children@ => n.children@[j]));
                            assert(decreases_to!(c.children => c.children@));
                            assert(decreases_to!(c.children@ => c.children@[d]));
                        }
                        let dl = c.children@[d];
                        match items_from(src, dl, 0) {
                            Ok(items) => Ok(seq![FileItem::InlineModule(name, has_visibility_marker(c), inner_doc(src, dl), items)]),
                            Err(e) => Err(e),
                        }
                    },
                    None => Ok(seq![FileItem::ExternalModule(name, has_visibility_marker(c))]),
                },
                Err(e) => Err(e),
            }
        } else {
            Ok(Seq::empty())
        }
    }
}

/// The items of the children of `n` from `j` on, in order; the first failure wins.
pub open spec fn items_from(src: Seq<char>, n: SyntaxNode, j: int) -> Result<Seq<FileItem>, ErrKind>
    decreases n, n.children@.len() - j + 1,
{
    if j < 0 || j >= n.children@.len() {
        Ok(Seq::empty())
    } else {
        match child_items(src, n, j) {
            Ok(a) => match items_from(src, n, j + 1) {
                Ok(b) => Ok(a + b),
                Err(e) => Err(e),
            },
            Err(e) => Err(e),
        }
    }
}

/// The model of a file from its syntax tree: its inner documentation and items.
pub open spec fn file_model(src: Seq<char>, root: SyntaxNode) -> Result<(Option<Seq<char>>, Seq<FileItem>), ErrKind> {
    match items_from(src, root, 0) {
        Ok(items) => Ok((inner_doc(src, root), items)),
        Err(e) => Err(e),
    }
}

// ---------------------------------------------------------------------------
// Executable adapter
// ---------------------------------------------------------------------------

pub proof fn lemma_child_wf(n: SyntaxNode, i: int, len: nat)
    requires
        node_wf(n, len),
        0 <= i < n.children@.len(),
    ensures
        node_wf(n.children@[i], len),
{
    assert(node_wf(n.children[i], len));
}

pub proof fn lemma_child_within(n: SyntaxNode, i: int, len: nat)
    requires
        node_wf(n, len),
        0 <= i < n.children@.len(),
    ensures
        node_wf(n.children@[i], len),
        n.start <= n.children@[i].start <= n.children@[i].end <= n.end,
{
    assert(node_wf(n.children[i], len));
}

pub proof fn lemma_child_from_bounds(cs: Seq<SyntaxNode>, k1: Seq<char>, k2: Seq<char>, i: int)
    ensures
        child_from(cs, k1, k2, i) matches Some(k) ==> i <= k < cs.len() && (cs[k].kind@ == k1 || cs[k].kind@ == k2),
    decreases cs.len() - i,
{
    if 0 <= i < cs.len() && !(cs[i].kind@ == k1 || cs[i].kind@ == k2) {
        lemma_child_from_bounds(cs, k1, k2, i + 1);
    }
}

fn kind_is(n: &SyntaxNode, k: &str) -> (r: bool)
    ensures
        r == (n.kind@ == k@),
{
    n.kind == k.to_owned()
}

fn is_whitespace_exec(c: char) -> (r: bool)
    ensures
        r == is_whitespace(c),
{
    ('\u{9}' <= c && c <= '\u{d}') || c == ' ' || c == '\u{85}' || c == '\u{a0}' || c == '\u{1680}'
        || ('\u{2000}' <= c && c <= '\u{200a}') || c == '\u{2028}' || c == '\u{2029}' || c == '\u{202f}'
        || c == '\u{205f}' || c == '\u{3000}'
}

fn trim_end_exec(v: Vec<char>) -> (r: Vec<char>)
    ensures
        r@ == trim_end(v@),
{
    let mut v = v;
    let ghost orig = v@;
    while v.len() > 0 && is_whitespace_exec(v[v.len() - 1])
        invariant
            trim_end(orig) == trim_end(v@),
        decreases v@.len(),
    {
        let ghost before = v@;
        v.pop();
        assert(v@ =~= before.drop_last());
    }
    v
}

fn text_exec(src: &Vec<char>, n: &SyntaxNode) -> (r: Vec<char>)
    requires
        node_wf(*n, src@.len()),
    ensures
        r@ == text(src@, *n),
{
    slice_chars(src, n.start, n.end)
}

fn child_from_exec(cs: &Vec<SyntaxNode>, k1: &str, k2: &str) -> (r: Option<usize>)
    ensures
        r matches Some(i) ==> child_from(cs@, k1@, k2@, 0) == Some(i as int) && i < cs@.len(),
        r is None ==> child_from(cs@, k1@, k2@, 0) is None,
{
    let mut i: usize = 0;
    while i < cs.len()
        invariant
            i <= cs@.len(),
            child_from(cs@, k1@, k2@, 0) == child_from(cs@, k1@, k2@, i as int),
        decreases cs@.len() - i,
    {
        if kind_is(&cs[i], k1) || kind_is(&cs[i], k2) {
            return Some(i);
        }
        i = i + 1;
    }
    None
}

fn child_of_kind_exec(n: &SyntaxNode, k: &str) -> (r: Option<usize>)
    ensures
        r matches Some(i) ==> child_of_kind(*n, k@) == Some(i as int) && i < n.children@.len(),
        r is None ==> child_of_kind(*n, k@) is None,
{
    child_from_exec(&n.children, k, k)
}

fn is_public(n: &SyntaxNode) -> (r: bool)
    ensures
        r == has_visibility_marker(*n),
{
    child_of_kind_exec(n, "visibility_modifier").is_some()
}

fn is_doc_comment(n: &SyntaxNode, marker: DocCommentMarker) -> (r: bool)
    ensures
        r == doc_marked(*n, marker.spec_kind()),
{
    child_of_kind_exec(n, marker.kind()).is_some() && child_of_kind_exec(n, "doc_comment").is_some()
}

pub fn extract_name(src: &Vec<char>, n: &SyntaxNode) -> (r: Result<Vec<char>, ExtractionError>)
    requires
        node_wf(*n, src@.len()),
    ensures
        item_name(src@, *n) matches Ok(s) ==> r matches Ok(v) && v@ == s,
        item_name(src@, *n) matches Err(k) ==> r matches Err(e) && error_is(e, k),
{
    match child_from_exec(&n.children, "identifier", "type_identifier") {
        Some(i) => {
            proof {
                lemma_child_wf(*n, i as int, src@.len());
            }
            Ok(text_exec(src, &n.children[i]))
        },
        None => Err(ExtractionError::Malformed("Failed to extract name".to_owned())),
    }
}

fn append_chars(acc: &mut Vec<char>, more: &Vec<char>)
    ensures
        final(acc)@ == old(acc)@ + more@,
{
    let mut i: usize = 0;
    let ghost start = acc@;
    while i < more.len()
        invariant
            i <= more@.len(),
            acc@ == start + more@.take(i as int),
        decreases more@.len() - i,
    {
        acc.push(more[i]);
        i = i + 1;
        assert(acc@ =~= start + more@.take(i as int));
    }
    assert(more@.take(more@.len() as int) =~= more@);
}

fn extract_attributes(src: &Vec<char>, sibs: &Vec<SyntaxNode>, j: usize) -> (r: Vec<char>)
    requires
        j <= sibs@.len(),
        forall|i: int| 0 <= i < sibs@.len() ==> node_wf(#[trigger] sibs@[i], src@.len()),
    ensures
        r@ == attribute_text(src@, sibs@, j as int),
{
    let mut p = j;
    while p > 0 && kind_is(&sibs[p - 1], "attribute_item")
        invariant
            p <= j <= sibs@.len(),
            forall|q: int| p <= q < j ==> sibs@[q].kind@ == "attribute_item"@,
        decreases p,
    {
        p = p - 1;
    }
    let mut out: Vec<char> = Vec::new();
    let mut q = p;
    while q < j
        invariant
            p <= q <= j <= sibs@.len(),
            forall|x: int| p <= x < j ==> sibs@[x].kind@ == "attribute_item"@,
            forall|i: int| 0 <= i < sibs@.len() ==> node_wf(#[trigger] sibs@[i], src@.len()),
            out@ == attribute_text(src@, sibs@, q as int),
        decreases j - q,
    {
        let t = text_exec(src, &sibs[q]);
        append_chars(&mut out, &t);
        out.push('\n');
        q = q + 1;
        assert(out@ =~= attribute_text(src@, sibs@, q as int));
    }
    out
}

fn skip_preceding_attributes(sibs: &Vec<SyntaxNode>, p: usize) -> (r: usize)
    requires
        p < sibs@.len(),
    ensures
        r as int == skip_attributes(sibs@, p as int),
        r <= p,
{
    let mut q = p;
    while q > 0 && kind_is(&sibs[q], "attribute_item")
        invariant
            q <= p < sibs@.len(),
            skip_attributes(sibs@, p as int) == skip_attributes(sibs@, q as int),
        decreases q,
    {
        q = q - 1;
    }
    q
}

fn line_doc_at(sibs: &Vec<SyntaxNode>, p: usize) -> (r: bool)
    requires
        p < sibs@.len(),
    ensures
        r == (sibs@[p as int].kind@ == "line_comment"@ && doc_marked(sibs@[p as int], outer_marker())),
{
    kind_is(&sibs[p], "line_comment") && is_doc_comment(&sibs[p], DocCommentMarker::Outer)
}

fn extract_preceding_line_doc_comments(src: &Vec<char>, sibs: &Vec<SyntaxNode>, p: usize) -> (r: Vec<char>)
    requires
        p < sibs@.len(),
        forall|i: int| 0 <= i < sibs@.len() ==> node_wf(#[trigger] sibs@[i], src@.len()),
    ensures
        r@ == line_docs(src@, sibs@, p as int),
{
    if !line_doc_at(sibs, p) {
        return Vec::new();
    }
    let mut q = p;
    while q > 0 && line_doc_at(sibs, q - 1)
        invariant
            q <= p < sibs@.len(),
            forall|x: int| q <= x <= p ==> #[trigger] sibs@[x].kind@ == "line_comment"@ && doc_marked(sibs@[x], outer_marker()),
        decreases q,
    {
        q = q - 1;
    }
    let mut out: Vec<char> = Vec::new();
    let mut x = q;
    assert(line_docs(src@, sibs@, q - 1) == Seq::<char>::empty());
    while x <= p
        invariant
            q <= x <= p + 1,
            p < sibs@.len(),
            forall|y: int| q <= y <= p ==> #[trigger] sibs@[y].kind@ == "line_comment"@ && doc_marked(sibs@[y], outer_marker()),
            forall|i: int| 0 <= i < sibs@.len() ==> node_wf(#[trigger] sibs@[i], src@.len()),
            out@ == line_docs(src@, sibs@, x - 1),
        decreases p + 1 - x,
    {
        let t = text_exec(src, &sibs[x]);
        append_chars(&mut out, &t);
        assert(sibs@[x as int].kind@ == "line_comment"@);
        assert(x < sibs.len());
        x = x + 1;
    }
    out
}

fn extract_outer_doc_comments(src: &Vec<char>, sibs: &Vec<SyntaxNode>, j: usize) -> (r: Option<Vec<char>>)
    requires
        j <= sibs@.len(),
        forall|i: int| 0 <= i < sibs@.len() ==> node_wf(#[trigger] sibs@[i], src@.len()),
    ensures
        outer_doc(src@, sibs@, j as int) matches Some(d) ==> r matches Some(v) && v@ == d,
        outer_doc(src@, sibs@, j as int) is None ==> r is None,
{
    if j == 0 {
        return None;
    }
    let p = skip_preceding_attributes(sibs, j - 1);
    if kind_is(&sibs[p], "block_comment") && is_doc_comment(&sibs[p], DocCommentMarker::Outer) {
        let mut t = text_exec(src, &sibs[p]);
        t.push('\n');
        return Some(t);
    }
    let d = extract_preceding_line_doc_comments(src, sibs, p);
    if d.len() == 0 {
        None
    } else {
        Some(d)
    }
}

fn extract_inner_doc_comments(src: &Vec<char>, n: &SyntaxNode) -> (r: Option<Vec<char>>)
    requires
        node_wf(*n, src@.len()),
    ensures
        inner_doc(src@, *n) matches Some(d) ==> r matches Some(v) && v@ == d,
        inner_doc(src@, *n) is None ==> r is None,
{
    let mut out: Vec<char> = Vec::new();
    let mut i: usize = 0;
    let mut stop = false;
    while i < n.children.len() && !stop
        invariant
            i <= n.children@.len(),
            node_wf(*n, src@.len()),
            stop ==> inner_from(src@, *n, 0) == out@,
            !stop ==> inner_from(src@, *n, 0) == out@ + inner_from(src@, *n, i as int),
        decreases n.children@.len() - i,
    {
        let c = &n.children[i];
        proof {
            lemma_child_wf(*n, i as int, src@.len());
        }
        if kind_is(c, "line_comment") {
            if is_doc_comment(c, DocCommentMarker::Inner) {
                let t = text_exec(src, c);
                let ghost before = out@;
                append_chars(&mut out, &t);
                assert(before + inner_from(src@, *n, i as int) =~= out@ + inner_from(src@, *n, i + 1));
            } else {
                assert(out@ + inner_from(src@, *n, i as int) =~= out@);
                stop = true;
            }
        } else if kind_is(c, "{") || kind_is(c, "}") {
        } else {
            assert(out@ + inner_from(src@, *n, i as int) =~= out@);
            stop = true;
        }
        i = i + 1;
    }
    proof {
        if !stop {
            assert(out@ + inner_from(src@, *n, i as int) =~= out@);
        }
    }
    if out.len() == 0 {
        None
    } else {
        Some(out)
    }
}


pub open spec fn all_wf(sibs: Seq<SyntaxNode>, len: nat) -> bool {
    forall|i: int| 0 <= i < sibs.len() ==> node_wf(#[trigger] sibs[i], len)
}

/// Whether an executable outcome matches a specified one.
pub open spec fn outcome_chars(r: Result<Vec<char>, ExtractionError>, s: Result<Seq<char>, ErrKind>) -> bool {
    match s {
        Ok(v) => r matches Ok(x) && x@ == v,
        Err(k) => r matches Err(e) && error_is(e, k),
    }
}

pub open spec fn outcome_items(r: Result<Vec<RustSymbol>, ExtractionError>, s: Result<Seq<FileItem>, ErrKind>) -> bool {
    match s {
        Ok(v) => r matches Ok(x) && items_view(x@) == v,
        Err(k) => r matches Err(e) && error_is(e, k),
    }
}

/// `acc` put in front of an outcome.
pub open spec fn prepend<T>(acc: Seq<T>, r: Result<Seq<T>, ErrKind>) -> Result<Seq<T>, ErrKind> {
    match r {
        Ok(x) => Ok(acc + x),
        Err(e) => Err(e),
    }
}

pub proof fn lemma_items_view_concat(a: Seq<RustSymbol>, b: Seq<RustSymbol>)
    ensures
        items_view(a + b) == items_view(a) + items_view(b),
    decreases b.len(),
{
    if b.len() == 0 {
        assert(a + b =~= a);
        assert(items_view(b) =~= Seq::<FileItem>::empty());
        assert(items_view(a) + items_view(b) =~= items_view(a));
    } else {
        lemma_items_view_concat(a, b.drop_last());
        assert((a + b).drop_last() =~= a + b.drop_last());
        assert(items_view(a + b) =~= items_view(a) + items_view(b));
    }
}

fn signature_exec(src: &Vec<char>, n: &SyntaxNode) -> (r: Result<Vec<char>, ExtractionError>)
    requires
        node_wf(*n, src@.len()),
    ensures
        outcome_chars(r, signature(src@, *n)),
{
    match child_of_kind_exec(n, "block") {
        Some(b) => {
            proof {
                lemma_child_within(*n, b as int, src@.len());
            }
            let mut t = trim_end_exec(slice_chars(src, n.start, n.children[b].start));
            let ghost before = t@;
            t.push(';');
            assert(t@ =~= before + seq![';']);
            Ok(t)
        },
        None => Err(ExtractionError::Malformed("Failed to find function block".to_owned())),
    }
}


fn prefix_of(src: &Vec<char>, sibs: &Vec<SyntaxNode>, j: usize) -> (r: Vec<char>)
    requires
        j < sibs@.len(),
        all_wf(sibs@, src@.len()),
    ensures
        r@ == or_empty(outer_doc(src@, sibs@, j as int)) + attribute_text(src@, sibs@, j as int),
{
    let mut out = match extract_outer_doc_comments(src, sibs, j) {
        Some(d) => d,
        None => Vec::new(),
    };
    let attrs = extract_attributes(src, sibs, j);
    append_chars(&mut out, &attrs);
    out
}

fn member_source_exec(src: &Vec<char>, sibs: &Vec<SyntaxNode>, j: usize) -> (r: Result<Vec<char>, ExtractionError>)
    requires
        j < sibs@.len(),
        all_wf(sibs@, src@.len()),
    ensures
        outcome_chars(r, member_source(src@, sibs@, j as int)),
{
    let mut out = prefix_of(src, sibs, j);
    let n = &sibs[j];
    if kind_is(n, "function_item") {
        match signature_exec(src, n) {
            Ok(t) => {
                append_chars(&mut out, &t);
                Ok(out)
            },
            Err(e) => Err(e),
        }
    } else {
        let t = text_exec(src, n);
        append_chars(&mut out, &t);
        Ok(out)
    }
}

fn indent_lines_exec(s: &Vec<char>) -> (r: Vec<char>)
    ensures
        r@ == indent_lines(s@),
{
    let mut rem = slice_chars(s, 0, s.len());
    assert(rem@ =~= s@);
    let mut out: Vec<char> = Vec::new();
    while rem.len() > 0
        invariant
            indent_lines(s@) == out@ + indent_lines(rem@),
        decreases rem@.len(),
    {
        let mut k: usize = 0;
        while k < rem.len() && rem[k] != '\n'
            invariant
                k <= rem@.len(),
                find_newline(rem@, 0) == find_newline(rem@, k as int),
            decreases rem@.len() - k,
        {
            k = k + 1;
        }
        let mut line = slice_chars(&rem, 0, k);
        if line.len() > 0 && line[line.len() - 1] == '\r' {
            line.pop();
        }
        let ghost before = out@;
        out.push(' ');
        out.push(' ');
        out.push(' ');
        out.push(' ');
        append_chars(&mut out, &line);
        out.push('\n');
        let ghost piece = four_spaces() + strip_cr(rem@.subrange(0, k as int)) + seq!['\n'];
        assert(out@ =~= before + piece);
        if k < rem.len() {
            let next = slice_chars(&rem, k + 1, rem.len());
            assert(indent_lines(rem@) == piece + indent_lines(next@));
            rem = next;
        } else {
            assert(indent_lines(rem@) == piece);
            rem = Vec::new();
            assert(indent_lines(rem@) =~= Seq::<char>::empty());
        }
        assert(indent_lines(s@) =~= out@ + indent_lines(rem@));
    }
    assert(indent_lines(rem@) =~= Seq::<char>::empty());
    assert(out@ + indent_lines(rem@) =~= out@);
    out
}

fn trait_members_exec(src: &Vec<char>, sibs: &Vec<SyntaxNode>) -> (r: Result<Vec<char>, ExtractionError>)
    requires
        all_wf(sibs@, src@.len()),
    ensures
        outcome_chars(r, trait_members(src@, sibs@, 0)),
{
    let mut out: Vec<char> = Vec::new();
    let mut j: usize = 0;
    while j < sibs.len()
        invariant
            j <= sibs@.len(),
            all_wf(sibs@, src@.len()),
            trait_members(src@, sibs@, 0) == prepend(out@, trait_members(src@, sibs@, j as int)),
        decreases sibs@.len() - j,
    {
        if kind_is(&sibs[j], "function_item") || kind_is(&sibs[j], "function_signature_item") {
            match member_source_exec(src, sibs, j) {
                Ok(m) => {
                    let ind = indent_lines_exec(&m);
                    let ghost before = out@;
                    append_chars(&mut out, &ind);
                    proof {
                        match trait_members(src@, sibs@, j + 1) {
                            Ok(rest) => {
                                assert(before + (indent_lines(m@) + rest) =~= out@ + rest);
                            },
                            Err(e) => {},
                        }
                    }
                },
                Err(e) => {
                    return Err(e);
                },
            }
        }
        j = j + 1;
    }
    assert(out@ + Seq::<char>::empty() =~= out@);
    Ok(out)
}

fn get_symbol_source_code(src: &Vec<char>, sibs: &Vec<SyntaxNode>, j: usize) -> (r: Result<Vec<char>, ExtractionError>)
    requires
        j < sibs@.len(),
        all_wf(sibs@, src@.len()),
    ensures
        outcome_chars(r, symbol_source(src@, sibs@, j as int)),
{
    let n = &sibs[j];
    assert(node_wf(sibs@[j as int], src@.len()));
    if kind_is(n, "trait_item") {
        let mut out = prefix_of(src, sibs, j);
        match child_of_kind_exec(n, "declaration_list") {
            Some(d) => {
                proof {
                    lemma_child_within(*n, d as int, src@.len());
                    let dl = n.children@[d as int];
                    assert forall|i: int| 0 <= i < dl.children@.len() implies node_wf(#[trigger] dl.children@[i], src@.len()) by {
                        lemma_child_wf(dl, i, src@.len());
                    }
                }
                let members = match trait_members_exec(src, &n.children[d].children) {
                    Ok(m) => m,
                    Err(e) => return Err(e),
                };
                let h = slice_chars(src, n.start, n.children[d].start);
                let ghost start_text = out@;
                append_chars(&mut out, &h);
                out.push('{');
                out.push('\n');
                append_chars(&mut out, &members);
                out.push('}');
                assert(out@ =~= start_text + head(src@, *n, n.children@[d as int]) + seq!['{', '\n'] + members@ + seq!['}']);
                Ok(out)
            },
            None => Err(ExtractionError::Malformed("Failed to find trait declaration list".to_owned())),
        }
    } else {
        member_source_exec(src, sibs, j)
    }
}

fn chars_equal(a: &Vec<char>, b: &Vec<char>) -> (r: bool)
    ensures
        r == (a@ == b@),
{
    if a.len() != b.len() {
        return false;
    }
    let mut i: usize = 0;
    while i < a.len()
        invariant
            a@.len() == b@.len(),
            i <= a@.len(),
            forall|k: int| 0 <= k < i ==> a@[k] == b@[k],
        decreases a@.len() - i,
    {
        if a[i] != b[i] {
            return false;
        }
        i = i + 1;
    }
    assert(a@ =~= b@);
    true
}

fn exported_before_exec(src: &Vec<char>, sibs: &Vec<SyntaxNode>, j: usize) -> (r: bool)
    requires
        j <= sibs@.len(),
        all_wf(sibs@, src@.len()),
    ensures
        r == exported_before(src@, sibs@, j as int),
{
    let marker = chars_of("#[macro_export]");
    let mut q = j;
    while q > 0
        invariant
            q <= j <= sibs@.len(),
            all_wf(sibs@, src@.len()),
            marker@ == "#[macro_export]"@,
            exported_before(src@, sibs@, j as int) == exported_before(src@, sibs@, q as int),
        decreases q,
    {
        let s = &sibs[q - 1];
        if kind_is(s, "attribute_item") {
            let t = text_exec(src, s);
            if chars_equal(&t, &marker) {
                return true;
            }
        } else if kind_is(s, "line_comment") || kind_is(s, "block_comment") {
        } else {
            return false;
        }
        q = q - 1;
    }
    false
}


fn body_delimiter_exec(cs: &Vec<SyntaxNode>) -> (r: Option<usize>)
    ensures
        r matches Some(i) ==> body_delimiter(cs@, 0) == Some(i as int) && i < cs@.len(),
        r is None ==> body_delimiter(cs@, 0) is None,
{
    let mut i: usize = 0;
    while i < cs.len()
        invariant
            i <= cs@.len(),
            body_delimiter(cs@, 0) == body_delimiter(cs@, i as int),
        decreases cs@.len() - i,
    {
        if kind_is(&cs[i], "{") || kind_is(&cs[i], "(") || kind_is(&cs[i], "[") {
            return Some(i);
        }
        i = i + 1;
    }
    None
}

fn get_macro_source_code(src: &Vec<char>, sibs: &Vec<SyntaxNode>, j: usize) -> (r: Result<Option<Vec<char>>, ExtractionError>)
    requires
        j < sibs@.len(),
        all_wf(sibs@, src@.len()),
    ensures
        macro_source(src@, sibs@, j as int) matches Ok(Some(v)) ==> r matches Ok(Some(x)) && x@ == v,
        macro_source(src@, sibs@, j as int) matches Ok(None) ==> r matches Ok(None),
        macro_source(src@, sibs@, j as int) matches Err(k) ==> r matches Err(e) && error_is(e, k),
{
    let n = &sibs[j];
    assert(node_wf(sibs@[j as int], src@.len()));
    if !exported_before_exec(src, sibs, j) {
        return Ok(None);
    }
    match body_delimiter_exec(&n.children) {
        Some(b) => {
            proof {
                lemma_child_within(*n, b as int, src@.len());
            }
            let mut out = match extract_outer_doc_comments(src, sibs, j) {
                Some(d) => d,
                None => Vec::new(),
            };
            let ghost start_text = out@;
            let marker = chars_of("#[macro_export]");
            append_chars(&mut out, &marker);
            out.push('\n');
            let h = trim_end_exec(slice_chars(src, n.start, n.children[b].start));
            append_chars(&mut out, &h);
            out.push(';');
            assert(out@ =~= start_text + "#[macro_export]"@ + seq!['\n'] + trim_end(head(src@, *n, n.children@[b as int])) + seq![';']);
            Ok(Some(out))
        },
        None => Err(ExtractionError::Malformed("Failed to find macro body".to_owned())),
    }
}

fn trim_raw_exec(s: Vec<char>) -> (r: Vec<char>)
    ensures
        r@ == trim_raw(s@),
{
    let mut s = s;
    let ghost orig = s@;
    while s.len() >= 2 && s[0] == 'r' && s[1] == '#'
        invariant
            trim_raw(s@) == trim_raw(orig),
        decreases s@.len(),
    {
        s = slice_chars(&s, 2, s.len());
    }
    s
}


fn normalize_raw_identifiers(p: &Vec<char>) -> (r: Vec<char>)
    ensures
        r@ == strip_raw(p@),
{
    let mut rem = slice_chars(p, 0, p.len());
    assert(rem@ =~= p@);
    let mut out: Vec<char> = Vec::new();
    let mut done = false;
    while !done
        invariant
            !done ==> strip_raw(p@) == out@ + strip_raw(rem@),
            done ==> strip_raw(p@) == out@,
        decreases rem@.len(), if done { 0int } else { 1int },
    {
        let k = crate::text::find_sep_exec(&rem);
        proof {
            crate::text::lemma_find_sep_bounds(rem@, 0);
        }
        if k < rem.len() {
            let seg = trim_raw_exec(slice_chars(&rem, 0, k));
            let ghost before = out@;
            append_chars(&mut out, &seg);
            out.push(':');
            out.push(':');
            let next = slice_chars(&rem, k + 2, rem.len());
            assert(out@ =~= before + trim_raw(rem@.subrange(0, k as int)) + sep());
            assert(strip_raw(rem@) == trim_raw(rem@.subrange(0, k as int)) + sep() + strip_raw(next@));
            assert(strip_raw(p@) =~= out@ + strip_raw(next@));
            rem = next;
        } else {
            let seg = trim_raw_exec(slice_chars(&rem, 0, rem.len()));
            assert(rem@.subrange(0, rem@.len() as int) =~= rem@);
            append_chars(&mut out, &seg);
            done = true;
        }
    }
    out
}

fn children_text_exec(src: &Vec<char>, n: &SyntaxNode) -> (r: Vec<char>)
    requires
        node_wf(*n, src@.len()),
    ensures
        r@ == children_text(src@, *n, 0),
{
    let mut out: Vec<char> = Vec::new();
    let mut i: usize = 0;
    while i < n.children.len()
        invariant
            i <= n.children@.len(),
            node_wf(*n, src@.len()),
            children_text(src@, *n, 0) == out@ + children_text(src@, *n, i as int),
        decreases n.children@.len() - i,
    {
        proof {
            lemma_child_wf(*n, i as int, src@.len());
        }
        let t = text_exec(src, &n.children[i]);
        let ghost before = out@;
        append_chars(&mut out, &t);
        assert(before + children_text(src@, *n, i as int) =~= out@ + children_text(src@, *n, i + 1));
        i = i + 1;
    }
    assert(out@ + children_text(src@, *n, i as int) =~= out@);
    out
}

fn last_identifier_exec(n: &SyntaxNode) -> (r: Option<usize>)
    ensures
        r matches Some(i) ==> last_identifier(*n, n.children@.len() as int) == Some(i as int) && i < n.children@.len(),
        r is None ==> last_identifier(*n, n.children@.len() as int) is None,
{
    let mut q = n.children.len();
    while q > 0
        invariant
            q <= n.children@.len(),
            last_identifier(*n, n.children@.len() as int) == last_identifier(*n, q as int),
        decreases q,
    {
        if kind_is(&n.children[q - 1], "identifier") {
            return Some(q - 1);
        }
        q = q - 1;
    }
    None
}

fn reexport_item(path: Vec<char>, kind: ImportType) -> (r: RustSymbol)
    ensures
        r@ == FileItem::Reexport(path@, kind@),
{
    RustSymbol::Reexport { source_path: string_of(&path), import_type: kind }
}

fn extract_multi_reexports(src: &Vec<char>, prefix: &Vec<char>, l: &SyntaxNode) -> (r: Vec<RustSymbol>)
    requires
        node_wf(*l, src@.len()),
    ensures
        items_view(r@) == list_reexports(src@, prefix@, *l, 0),
{
    let mut out: Vec<RustSymbol> = Vec::new();
    let mut i: usize = 0;
    while i < l.children.len()
        invariant
            i <= l.children@.len(),
            node_wf(*l, src@.len()),
            list_reexports(src@, prefix@, *l, 0) == items_view(out@) + list_reexports(src@, prefix@, *l, i as int),
        decreases l.children@.len() - i,
    {
        proof {
            lemma_child_wf(*l, i as int, src@.len());
        }
        if kind_is(&l.children[i], "identifier") {
            let mut path = slice_chars(prefix, 0, prefix.len());
            assert(path@ =~= prefix@);
            path.push(':');
            path.push(':');
            let t = text_exec(src, &l.children[i]);
            append_chars(&mut path, &t);
            assert(path@ =~= prefix@ + sep() + text(src@, l.children@[i as int]));
            let item = reexport_item(normalize_raw_identifiers(&path), ImportType::Simple);
            let ghost before = out@;
            out.push(item);
            proof {
                lemma_items_view_push(before, item);
                assert(items_view(before) + list_reexports(src@, prefix@, *l, i as int) =~= items_view(out@) + list_reexports(src@, prefix@, *l, i + 1));
            }
        }
        i = i + 1;
    }
    assert(items_view(out@) + list_reexports(src@, prefix@, *l, i as int) =~= items_view(out@));
    out
}

fn single(item: RustSymbol) -> (r: Vec<RustSymbol>)
    ensures
        items_view(r@) == seq![item@],
{
    let r = vec![item];
    proof {
        lemma_items_view_push(Seq::empty(), item);
        assert(r@ =~= Seq::<RustSymbol>::empty().push(item));
        assert(items_view(Seq::<RustSymbol>::empty()) =~= Seq::<FileItem>::empty());
    }
    r
}

pub fn extract_symbol_reexports(src: &Vec<char>, n: &SyntaxNode) -> (r: Result<Vec<RustSymbol>, ExtractionError>)
    requires
        node_wf(*n, src@.len()),
    ensures
        outcome_items(r, use_reexports(src@, *n)),
{
    if !is_public(n) {
        let r: Vec<RustSymbol> = Vec::new();
        assert(items_view(r@) =~= Seq::<FileItem>::empty());
        return Ok(r);
    }
    if let Some(i) = child_of_kind_exec(n, "scoped_identifier") {
        proof {
            lemma_child_wf(*n, i as int, src@.len());
        }
        let path = normalize_raw_identifiers(&children_text_exec(src, &n.children[i]));
        return Ok(single(reexport_item(path, ImportType::Simple)));
    }
    if let Some(i) = child_of_kind_exec(n, "use_as_clause") {
        proof {
            lemma_child_wf(*n, i as int, src@.len());
        }
        let u = &n.children[i];
        if u.children.len() == 0 {
            return Err(ExtractionError::Malformed("Empty use_as clause".to_owned()));
        }
        proof {
            lemma_child_wf(*u, 0, src@.len());
        }
        match last_identifier_exec(u) {
            Some(a) => {
                proof {
                    lemma_child_wf(*u, a as int, src@.len());
                }
                let path = normalize_raw_identifiers(&text_exec(src, &u.children[0]));
                let alias = trim_raw_exec(text_exec(src, &u.children[a]));
                let kind = ImportType::Aliased(string_of(&alias));
                return Ok(single(reexport_item(path, kind)));
            },
            None => return Err(ExtractionError::Malformed("No alias found in use_as clause".to_owned())),
        }
    }
    if let Some(i) = child_of_kind_exec(n, "scoped_use_list") {
        proof {
            lemma_child_wf(*n, i as int, src@.len());
        }
        let l = &n.children[i];
        if l.children.len() == 0 {
            return Err(ExtractionError::Malformed("Empty scoped list".to_owned()));
        }
        proof {
            lemma_child_wf(*l, 0, src@.len());
        }
        match child_of_kind_exec(l, "use_list") {
            Some(u) => {
                proof {
                    lemma_child_wf(*l, u as int, src@.len());
                }
                let prefix = text_exec(src, &l.children[0]);
                return Ok(extract_multi_reexports(src, &prefix, &l.children[u]));
            },
            None => return Err(ExtractionError::Malformed("No use list found".to_owned())),
        }
    }
    if let Some(i) = child_of_kind_exec(n, "use_wildcard") {
        proof {
            lemma_child_wf(*n, i as int, src@.len());
        }
        let w = &n.children[i];
        match child_from_exec(&w.children, "identifier", "scoped_identifier") {
            Some(p) => {
                proof {
                    lemma_child_wf(*w, p as int, src@.len());
                }
                let path = normalize_raw_identifiers(&text_exec(src, &w.children[p]));
                return Ok(single(reexport_item(path, ImportType::Wildcard)));
            },
            None => return Err(ExtractionError::Malformed("Failed to find module path in wildcard import".to_owned())),
        }
    }
    if let Some(i) = child_of_kind_exec(n, "identifier") {
        proof {
            lemma_child_wf(*n, i as int, src@.len());
        }
        let path = normalize_raw_identifiers(&text_exec(src, &n.children[i]));
        return Ok(single(reexport_item(path, ImportType::Simple)));
    }
    let mut msg = String::from_str("Failed to find symbol reexport: ");
    msg.append(string_of(&text_exec(src, n)).as_str());
    Err(ExtractionError::Malformed(msg))
}


fn symbol_item(name: Vec<char>, code: Vec<char>) -> (r: Vec<RustSymbol>)
    ensures
        items_view(r@) == seq![FileItem::SymbolDef(SymbolView { name: name@, source_code: code@ })],
{
    single(RustSymbol::Symbol { symbol: Symbol { name: string_of(&name), source_code: string_of(&code) } })
}

fn opt_string(o: Option<Vec<char>>) -> (r: Option<String>)
    ensures
        o matches Some(v) ==> r matches Some(s) && s@ == v@,
        o is None ==> r is None,
{
    match o {
        Some(v) => Some(string_of(&v)),
        None => None,
    }
}

fn child_items_exec(src: &Vec<char>, n: &SyntaxNode, j: usize) -> (r: Result<Vec<RustSymbol>, ExtractionError>)
    requires
        node_wf(*n, src@.len()),
        j < n.children@.len(),
    ensures
        outcome_items(r, child_items(src@, *n, j as int)),
    decreases *n, 0int,
{
    let c = &n.children[j];
    proof {
        lemma_child_wf(*n, j as int, src@.len());
        assert forall|i: int| 0 <= i < n.children@.len() implies node_wf(#[trigger] n.children@[i], src@.len()) by {
            lemma_child_wf(*n, i, src@.len());
        }
    }
    let empty: Vec<RustSymbol> = Vec::new();
    assert(items_view(empty@) =~= Seq::<FileItem>::empty());
    if kind_is(c, "function_item") || kind_is(c, "struct_item") || kind_is(c, "enum_item") || kind_is(c, "trait_item") {
        if !is_public(c) {
            return Ok(empty);
        }
        let name = match extract_name(src, c) {
            Ok(name) => name,
            Err(e) => return Err(e),
        };
        let code = match get_symbol_source_code(src, &n.children, j) {
            Ok(code) => code,
            Err(e) => return Err(e),
        };
        Ok(symbol_item(name, code))
    } else if kind_is(c, "macro_definition") {
        match get_macro_source_code(src, &n.children, j) {
            Ok(Some(code)) => {
                let name = match extract_name(src, c) {
                    Ok(name) => name,
                    Err(e) => return Err(e),
                };
                Ok(symbol_item(name, code))
            },
            Ok(None) => Ok(empty),
            Err(e) => Err(e),
        }
    } else if kind_is(c, "use_declaration") {
        extract_symbol_reexports(src, c)
    } else if kind_is(c, "mod_item") {
        let name = match extract_name(src, c) {
            Ok(name) => name,
            Err(e) => return Err(e),
        };
        let public = is_public(c);
        match child_of_kind_exec(c, "declaration_list") {
            Some(d) => {
                proof {
                    lemma_child_wf(*c, d as int, src@.len());
                    broadcast use vstd::std_specs::vec::axiom_vec_index_decreases;
                    broadcast use vstd::std_specs::vec::axiom_vec_decreases_to_view;
                    broadcast use vstd::seq::axiom_seq_index_decreases;
                    assert(decreases_to!(n.children => n.children@));
                    assert(decreases_to!(n.children@ => n.children@[j as int]));
                    assert(decreases_to!(c.children => c.children@));
                    assert(decreases_to!(c.children@ => c.children@[d as int]));
                }
                let dl = &c.children[d];
                let doc = extract_inner_doc_comments(src, dl);
                let items = match extract_symbols_from_module(src, dl) {
                    Ok(items) => items,
                    Err(e) => return Err(e),
                };
                let m = RustSymbol::ModuleBlock {
                    name: string_of(&name),
                    is_public: public,
                    content: items,
                    doc_comment: opt_string(doc),
                };
                Ok(single(m))
            },
            None => Ok(single(RustSymbol::ModuleImport { name: string_of(&name), is_reexported: public })),
        }
    } else {
        Ok(empty)
    }
}

fn extract_symbols_from_module(src: &Vec<char>, n: &SyntaxNode) -> (r: Result<Vec<RustSymbol>, ExtractionError>)
    requires
        node_wf(*n, src@.len()),
    ensures
        outcome_items(r, items_from(src@, *n, 0)),
    decreases *n, 1int,
{
    let mut out: Vec<RustSymbol> = Vec::new();
    let mut j: usize = 0;
    assert(items_view(out@) =~= Seq::<FileItem>::empty());
    assert(prepend(Seq::<FileItem>::empty(), items_from(src@, *n, 0)) == items_from(src@, *n, 0)) by {
        match items_from(src@, *n, 0) {
            Ok(x) => {
                assert(Seq::<FileItem>::empty() + x =~= x);
            },
            Err(_) => {},
        }
    }
    while j < n.children.len()
        invariant
            j <= n.children@.len(),
            node_wf(*n, src@.len()),
            items_from(src@, *n, 0) == prepend(items_view(out@), items_from(src@, *n, j as int)),
        decreases n.children@.len() - j,
    {
        let mut part = match child_items_exec(src, n, j) {
            Ok(part) => part,
            Err(e) => return Err(e),
        };
        let ghost before = out@;
        let ghost added = part@;
        out.append(&mut part);
        proof {
            lemma_items_view_concat(before, added);
            assert(out@ =~= before + added);
            match items_from(src@, *n, j + 1) {
                Ok(b) => {
                    assert(items_view(before) + (items_view(added) + b) =~= items_view(out@) + b);
                },
                Err(_) => {},
            }
        }
        j = j + 1;
    }
    assert(items_view(out@) + Seq::<FileItem>::empty() =~= items_view(out@));
    Ok(out)
}

/// The model of a source file from its syntax tree: the file's inner
/// documentation and its items, with their rendered declarations.
///
/// Fails with `Malformed` when an item has no name, a macro no body, a
/// function no body block, a trait no declaration list, or a public `use`
/// declaration none of the shapes that re-exports take.
pub fn file_model_from_tree(source: &str, tree: &SyntaxNode) -> (r: Result<RustFile, ExtractionError>)
    requires
        node_wf(*tree, source@.len()),
    ensures
        file_model(source@, *tree) matches Ok((doc, items)) ==> r matches Ok(f) && opt_view(f.doc_comment) == doc && items_view(f.symbols@) == items,
        file_model(source@, *tree) matches Err(k) ==> r matches Err(e) && error_is(e, k),
{
    let src = chars_of(source);
    let doc = extract_inner_doc_comments(&src, tree);
    match extract_symbols_from_module(&src, tree) {
        Ok(symbols) => Ok(RustFile { doc_comment: opt_string(doc), symbols }),
        Err(e) => Err(e),
    }
}

/// Parses a source file into its model.
///
/// Fails with `Parse` when the parser gives no tree, and otherwise as
/// [`file_model_from_tree`] does on the tree that it gives.
pub fn parse_rust_file(content: &str, parser: &mut tree_sitter::Parser) -> (r: Result<RustFile, ExtractionError>)
    ensures
        r matches Err(e) ==> e is Parse || e is Malformed,
        r matches Ok(f) ==> exists|t: SyntaxNode|
            node_wf(t, content@.len()) && #[trigger] file_model(content@, t) == Ok::<
                (Option<Seq<char>>, Seq<FileItem>),
                ErrKind,
            >((opt_view(f.doc_comment), items_view(f.symbols@))),
{
    let tree = match parse_syntax(parser, content) {
        Ok(t) => t,
        Err(e) => return Err(e),
    };
    let r = file_model_from_tree(content, &tree);
    proof {
        match &r {
            Ok(f) => {
                assert(file_model(content@, tree) == Ok::<(Option<Seq<char>>, Seq<FileItem>), ErrKind>(
                    (opt_view(f.doc_comment), items_view(f.symbols@)),
                ));
            },
            Err(_) => {},
        }
    }
    r
}

} // verus!
