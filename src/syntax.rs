//! A concrete syntax tree held as plain values, and its construction from the
//! tree-sitter parser's output.

use vstd::prelude::*;

use crate::text::{chars_of, copy_string};
use crate::types::ExtractionError;

verus! {

#[verifier::external_type_specification]
#[verifier::external_body]
pub struct ExParser(tree_sitter::Parser);

/// A node of a parse tree as the parser reports it: its kind, its byte range
/// in the source, and its depth below the root.
#[derive(Debug)]
pub struct RawNode {
    pub kind: String,
    pub start_byte: usize,
    pub end_byte: usize,
    pub depth: usize,
}

/// Relies on tree-sitter: `Parser::parse` on the source text (it returns `None`
/// when the parser has no language, or was cancelled), then a walk of the tree
/// with a `TreeCursor` (`goto_first_child`, `goto_next_sibling`, `goto_parent`)
/// that records every node, anonymous ones included, in preorder, with
/// `Node::kind`, `Node::start_byte`, `Node::end_byte` and `TreeCursor::depth`.
#[verifier::external_body]
fn parse_preorder(parser: &mut tree_sitter::Parser, source: &str) -> (r: Option<Vec<RawNode>>) {
    let tree = parser.parse(source, None)?;
    let mut cursor = tree.walk();
    let mut nodes = Vec::new();
    loop {
        let node = cursor.node();
        nodes.push(RawNode { kind: node.kind().to_string(), start_byte: node.start_byte(), end_byte: node.end_byte(), depth: cursor.depth() as usize });
        if cursor.goto_first_child() {
            continue;
        }
        while !cursor.goto_next_sibling() {
            if !cursor.goto_parent() {
                return Some(nodes);
            }
        }
    }
}

/// A node of a concrete syntax tree: its kind, its range of characters in the
/// source, and its children in order.
#[derive(Debug)]
pub struct SyntaxNode {
    pub kind: String,
    pub start: usize,
    pub end: usize,
    pub children: Vec<SyntaxNode>,
}

/// Whether a node and all its descendants have ranges within `len` characters,
/// each child's range within its parent's.
pub open spec fn node_wf(n: SyntaxNode, len: nat) -> bool
    decreases n,
{
    proof {
        broadcast use vstd::std_specs::vec::axiom_vec_index_decreases;
    }
    &&& n.start <= n.end <= len
    &&& forall|i: int|
        0 <= i < n.children.len() ==> node_wf(#[trigger] n.children[i], len) && n.start
            <= n.children[i].start && n.children[i].end <= n.end
}

/// The value that marks a byte inside a character in the offset table.
pub const INSIDE_CHAR: usize = usize::MAX;

/// How many bytes UTF-8 takes for `c`.
pub open spec fn utf8_width(c: char) -> nat {
    if (c as u32) < 0x80 {
        1
    } else if (c as u32) < 0x800 {
        2
    } else if (c as u32) < 0x10000 {
        3
    } else {
        4
    }
}

/// For each byte of the UTF-8 encoding of the first `k` characters, the index
/// of the character that starts there, or `INSIDE_CHAR` inside a character.
pub open spec fn char_table(cs: Seq<char>, k: int) -> Seq<usize>
    decreases k,
{
    if k <= 0 || k > cs.len() {
        Seq::empty()
    } else {
        char_table(cs, k - 1) + seq![(k - 1) as usize] + Seq::new(
            (utf8_width(cs[k - 1]) - 1) as nat,
            |q: int| INSIDE_CHAR,
        )
    }
}

/// The byte-to-character table of `cs`, its end included.
pub open spec fn offset_table(cs: Seq<char>) -> Seq<usize> {
    char_table(cs, cs.len() as int) + seq![cs.len() as usize]
}

proof fn lemma_char_table_bound(cs: Seq<char>, k: int)
    requires
        0 <= k <= cs.len(),
    ensures
        forall|b: int| 0 <= b < char_table(cs, k).len() ==> #[trigger] char_table(cs, k)[b] == INSIDE_CHAR || char_table(cs, k)[b] < k,
    decreases k,
{
    if k > 0 {
        lemma_char_table_bound(cs, k - 1);
        let prev = char_table(cs, k - 1);
        let t = char_table(cs, k);
        assert forall|b: int| 0 <= b < t.len() implies #[trigger] t[b] == INSIDE_CHAR || t[b] < k by {
            if b < prev.len() {
                assert(t[b] == prev[b]);
            } else if b == prev.len() {
                assert(t[b] == (k - 1) as usize);
            } else {
                assert(t[b] == INSIDE_CHAR);
            }
        }
    }
}

/// For each byte offset of the UTF-8 encoding of `chars` (and its end), the
/// index of the character that starts there, or `INSIDE_CHAR`.
fn char_offsets(chars: &Vec<char>) -> (r: Vec<usize>)
    ensures
        r@ == offset_table(chars@),
        forall|b: int| 0 <= b < r@.len() ==> r@[b] == INSIDE_CHAR || r@[b] <= chars@.len(),
{
    let mut r: Vec<usize> = Vec::new();
    let mut k: usize = 0;
    while k < chars.len()
        invariant
            k <= chars@.len(),
            r@ == char_table(chars@, k as int),
        decreases chars@.len() - k,
    {
        let code = chars[k] as u32;
        let width: usize = if code < 0x80 {
            1
        } else if code < 0x800 {
            2
        } else if code < 0x10000 {
            3
        } else {
            4
        };
        assert(width == utf8_width(chars@[k as int]));
        let ghost base = r@;
        r.push(k);
        let mut w: usize = 1;
        while w < width
            invariant
                1 <= w <= width <= 4,
                k < chars@.len(),
                r@ == base + seq![k] + Seq::new((w - 1) as nat, |q: int| INSIDE_CHAR),
            decreases width - w,
        {
            r.push(INSIDE_CHAR);
            w = w + 1;
            assert(r@ =~= base + seq![k] + Seq::new((w - 1) as nat, |q: int| INSIDE_CHAR));
        }
        k = k + 1;
        assert(r@ =~= char_table(chars@, k as int));
    }
    r.push(chars.len());
    proof {
        lemma_char_table_bound(chars@, chars@.len() as int);
        assert(r@ =~= offset_table(chars@));
    }
    r
}

fn char_at_byte(offsets: &Vec<usize>, b: usize, len: usize) -> (r: Option<usize>)
    requires
        forall|x: int| 0 <= x < offsets@.len() ==> offsets@[x] == INSIDE_CHAR || offsets@[x] <= len,
    ensures
        r matches Some(c) ==> c <= len && c as int == char_index(offsets@, b as int),
        r is None ==> char_index(offsets@, b as int) == -1,
{
    if b < offsets.len() && offsets[b] != INSIDE_CHAR {
        Some(offsets[b])
    } else {
        None
    }
}

/// One entry of a preorder listing: kind, depth, and character range.
pub open spec fn listed(kind: Seq<char>, depth: int, start: int, end: int) -> (Seq<char>, int, int, int) {
    (kind, depth, start, end)
}

/// The preorder listing of a tree whose root lies at `depth`.
pub open spec fn preorder(n: SyntaxNode, depth: int) -> Seq<(Seq<char>, int, int, int)>
    decreases n, 1int, 0int,
{
    proof {
        broadcast use vstd::std_specs::vec::axiom_vec_decreases_to_view;
        assert(decreases_to!(n.children => n.children@));
    }
    seq![listed(n.kind@, depth, n.start as int, n.end as int)] + preorder_seq(
        n.children@,
        depth + 1,
        n.children@.len() as int,
    )
}

/// The preorder listings of the first `k` trees of `cs`, one after another.
pub open spec fn preorder_seq(cs: Seq<SyntaxNode>, depth: int, k: int) -> Seq<(Seq<char>, int, int, int)>
    decreases cs, 0int, k,
{
    if k <= 0 || k > cs.len() {
        Seq::empty()
    } else {
        proof {
            broadcast use vstd::seq::axiom_seq_index_decreases;
            assert(decreases_to!(cs => cs[k - 1]));
        }
        preorder_seq(cs, depth, k - 1) + preorder(cs[k - 1], depth)
    }
}

/// The character offset that byte offset `b` maps to, or -1 when it is not
/// the start of a character (or lies outside the table).
pub open spec fn char_index(offsets: Seq<usize>, b: int) -> int {
    if 0 <= b < offsets.len() && offsets[b] != INSIDE_CHAR {
        offsets[b] as int
    } else {
        -1
    }
}

/// Whether every depth of the listing is below the largest `usize`.
pub open spec fn depths_bounded(nodes: Seq<RawNode>) -> bool {
    forall|x: int| 0 <= x < nodes.len() ==> (#[trigger] nodes[x]).depth < usize::MAX
}

/// Whether the listing holds, from position `i` on, the preorder listing of
/// the well-formed tree `t` (rooted at `nodes[i]`'s depth), followed by the
/// end of the listing or by a node no deeper than `t`'s root.
pub open spec fn subtree_at(nodes: Seq<RawNode>, offsets: Seq<usize>, len: nat, i: int, t: SyntaxNode) -> bool {
    let d = nodes[i].depth as int;
    let l = preorder(t, d).len() as int;
    &&& 0 <= i < nodes.len()
    &&& node_wf(t, len)
    &&& i + l <= nodes.len()
    &&& preorder(t, d) == raw_listing(nodes, offsets, i, i + l)
    &&& (i + l == nodes.len() || nodes[i + l].depth as int <= d)
}

proof fn lemma_preorder_seq_take(cs: Seq<SyntaxNode>, depth: int, k: int, n: int)
    requires
        0 <= k <= n <= cs.len(),
    ensures
        preorder_seq(cs, depth, k).len() <= preorder_seq(cs, depth, n).len(),
        preorder_seq(cs, depth, n).subrange(0, preorder_seq(cs, depth, k).len() as int) == preorder_seq(cs, depth, k),
    decreases n,
{
    if k < n {
        lemma_preorder_seq_take(cs, depth, k, n - 1);
        let a = preorder_seq(cs, depth, n - 1);
        let pk = preorder_seq(cs, depth, k).len() as int;
        assert(preorder_seq(cs, depth, n) == a + preorder(cs[n - 1], depth));
        assert((a + preorder(cs[n - 1], depth)).subrange(0, pk) =~= a.subrange(0, pk));
    } else {
        assert(preorder_seq(cs, depth, n).subrange(0, preorder_seq(cs, depth, n).len() as int) =~= preorder_seq(cs, depth, n));
    }
}

/// Within the listing of `t`, child `k`'s listing starts right after its root
/// and the listings of the children before it.
proof fn lemma_child_segment(t: SyntaxNode, d: int, k: int)
    requires
        0 <= k < t.children@.len(),
    ensures
        ({
            let p = 1 + preorder_seq(t.children@, d + 1, k).len() as int;
            let c = preorder(t.children@[k], d + 1);
            &&& p + c.len() <= preorder(t, d).len()
            &&& preorder(t, d).subrange(p, p + c.len() as int) == c
            &&& p + c.len() == 1 + preorder_seq(t.children@, d + 1, k + 1).len()
        }),
{
    let cs = t.children@;
    let n = cs.len() as int;
    lemma_preorder_seq_take(cs, d + 1, k + 1, n);
    let a = preorder_seq(cs, d + 1, k);
    let c = preorder(cs[k], d + 1);
    let all = preorder_seq(cs, d + 1, n);
    assert(preorder_seq(cs, d + 1, k + 1) == a + c);
    let root = seq![listed(t.kind@, d, t.start as int, t.end as int)];
    assert(preorder(t, d) == root + all);
    assert(all.subrange(0, (a + c).len() as int) == a + c);
    assert(preorder(t, d).subrange(1 + a.len() as int, 1 + a.len() + c.len() as int) =~= (a + c).subrange(a.len() as int, (a + c).len() as int));
    assert((a + c).subrange(a.len() as int, (a + c).len() as int) =~= c);
}

/// The parser's listing from `a` up to `b`, byte offsets turned into
/// character offsets through `offsets`.
pub open spec fn raw_listing(nodes: Seq<RawNode>, offsets: Seq<usize>, a: int, b: int) -> Seq<(Seq<char>, int, int, int)> {
    Seq::new(
        (b - a) as nat,
        |q: int|
            listed(
                nodes[a + q].kind@,
                nodes[a + q].depth as int,
                char_index(offsets, nodes[a + q].start_byte as int),
                char_index(offsets, nodes[a + q].end_byte as int),
            ),
    )
}

proof fn lemma_preorder_seq_prefix(cs: Seq<SyntaxNode>, c: SyntaxNode, depth: int, k: int)
    requires
        0 <= k <= cs.len(),
    ensures
        preorder_seq(cs.push(c), depth, k) == preorder_seq(cs, depth, k),
    decreases k,
{
    if k > 0 {
        lemma_preorder_seq_prefix(cs, c, depth, k - 1);
        assert(cs.push(c)[k - 1] == cs[k - 1]);
    }
}

/// Builds the node at position `i` of a preorder listing, with its
/// descendants (the nodes that follow it one level deeper, recursively);
/// returns it with the position after its last descendant. It succeeds
/// whenever the listing holds a well-formed tree there.
fn build_node(nodes: &Vec<RawNode>, offsets: &Vec<usize>, len: usize, i: usize) -> (r: Option<(SyntaxNode, usize)>)
    requires
        i < nodes@.len(),
        forall|x: int| 0 <= x < offsets@.len() ==> offsets@[x] == INSIDE_CHAR || offsets@[x] <= len,
    ensures
        r matches Some((n, next)) ==> {
            &&& i < next <= nodes@.len()
            &&& node_wf(n, len as nat)
            &&& preorder(n, nodes@[i as int].depth as int) == raw_listing(nodes@, offsets@, i as int, next as int)
        },
        depths_bounded(nodes@) ==> forall|t: SyntaxNode| #[trigger] subtree_at(nodes@, offsets@, len as nat, i as int, t) ==> (r matches Some((n, next))
            && next == i + preorder(t, nodes@[i as int].depth as int).len()),
    decreases nodes@.len() - i,
{
    let ghost d = nodes@[i as int].depth as int;
    proof {
        assert forall|t: SyntaxNode| #[trigger] subtree_at(nodes@, offsets@, len as nat, i as int, t) implies
            char_index(offsets@, nodes@[i as int].start_byte as int) == t.start as int
            && char_index(offsets@, nodes@[i as int].end_byte as int) == t.end as int
            && t.start <= t.end by {
            let l = preorder(t, d).len() as int;
            assert(preorder(t, d)[0] == listed(t.kind@, d, t.start as int, t.end as int));
            assert(raw_listing(nodes@, offsets@, i as int, i + l)[0] == preorder(t, d)[0]);
        }
    }
    let start = match char_at_byte(offsets, nodes[i].start_byte, len) {
        Some(c) => c,
        None => return None,
    };
    let end = match char_at_byte(offsets, nodes[i].end_byte, len) {
        Some(c) => c,
        None => return None,
    };
    if start > end {
        return None;
    }
    let depth = nodes[i].depth;
    if depth == usize::MAX {
        proof {
            assert(!depths_bounded(nodes@)) by {
                if depths_bounded(nodes@) {
                    assert(nodes@[i as int].depth < usize::MAX);
                }
            }
        }
        return None;
    }
    let mut children: Vec<SyntaxNode> = Vec::new();
    assert(i < nodes.len());
    let mut j = i + 1;
    proof {
        assert forall|t: SyntaxNode| #[trigger] subtree_at(nodes@, offsets@, len as nat, i as int, t) implies
            j == i + 1 + preorder_seq(t.children@, d + 1, 0).len() by {}
    }
    while j < nodes.len() && nodes[j].depth == depth + 1
        invariant
            i < j <= nodes@.len(),
            depth < usize::MAX,
            depth == nodes@[i as int].depth,
            d == depth as int,
            forall|x: int| 0 <= x < offsets@.len() ==> offsets@[x] == INSIDE_CHAR || offsets@[x] <= len,
            forall|c: int| 0 <= c < children@.len() ==> node_wf(#[trigger] children@[c], len as nat)
                && start <= children@[c].start && children@[c].end <= end,
            preorder_seq(children@, depth + 1, children@.len() as int) == raw_listing(nodes@, offsets@, i + 1, j as int),
            depths_bounded(nodes@) ==> forall|t: SyntaxNode| #[trigger] subtree_at(nodes@, offsets@, len as nat, i as int, t) ==> {
                &&& children@.len() <= t.children@.len()
                &&& j == i + 1 + preorder_seq(t.children@, d + 1, children@.len() as int).len()
                &&& t.start == start && t.end == end
            },
        decreases nodes@.len() - j,
    {
        let ghost k = children@.len() as int;
        proof {
            if depths_bounded(nodes@) {
            assert forall|t: SyntaxNode| #[trigger] subtree_at(nodes@, offsets@, len as nat, i as int, t) implies
                k < t.children@.len() && subtree_at(nodes@, offsets@, len as nat, j as int, t.children@[k]) by {
                let l = preorder(t, d).len() as int;
                let n = t.children@.len() as int;
                if k == n {
                    assert(preorder(t, d) == seq![listed(t.kind@, d, t.start as int, t.end as int)] + preorder_seq(t.children@, d + 1, n));
                    assert(j == i + l);
                    assert(false);
                }
                lemma_child_segment(t, d, k);
                let tc = t.children@[k];
                let lc = preorder(tc, d + 1).len() as int;
                let p = 1 + preorder_seq(t.children@, d + 1, k).len() as int;
                assert(j == i + p);
                assert(node_wf(t.children[k], len as nat));
                assert(raw_listing(nodes@, offsets@, i as int, i + l).subrange(p, p + lc) =~= raw_listing(nodes@, offsets@, j as int, j + lc));
                assert(preorder(tc, d + 1)[0] == listed(tc.kind@, d + 1, tc.start as int, tc.end as int));
                assert(raw_listing(nodes@, offsets@, j as int, j + lc)[0].1 == nodes@[j as int].depth as int);
                assert(nodes@[j as int].depth as int == d + 1);
                if k + 1 < n {
                    lemma_child_segment(t, d, k + 1);
                    let tn = t.children@[k + 1];
                    let p2 = 1 + preorder_seq(t.children@, d + 1, k + 1).len() as int;
                    let ln = preorder(tn, d + 1).len() as int;
                    assert(preorder(tn, d + 1)[0] == listed(tn.kind@, d + 1, tn.start as int, tn.end as int));
                    assert(preorder(t, d)[p2] == preorder(tn, d + 1)[0]);
                    assert(raw_listing(nodes@, offsets@, i as int, i + l)[p2].1 == nodes@[i + p2].depth as int);
                } else {
                    assert(preorder_seq(t.children@, d + 1, k + 1).len() + 1 == l);
                }
            }
            }
        }
        let (child, next) = match build_node(nodes, offsets, len, j) {
            Some(x) => x,
            None => {
                proof {
                    if depths_bounded(nodes@) {
                        assert forall|t: SyntaxNode| #[trigger] subtree_at(nodes@, offsets@, len as nat, i as int, t) implies false by {
                            assert(subtree_at(nodes@, offsets@, len as nat, j as int, t.children@[k]));
                        }
                    }
                }
                return None;
            },
        };
        proof {
            if depths_bounded(nodes@) {
            assert forall|t: SyntaxNode| #[trigger] subtree_at(nodes@, offsets@, len as nat, i as int, t) implies
                next == j + preorder(t.children@[k], d + 1).len() && child.start == t.children@[k].start
                && child.end == t.children@[k].end by {
                let tc = t.children@[k];
                assert(subtree_at(nodes@, offsets@, len as nat, j as int, tc));
                let lc = preorder(tc, d + 1).len() as int;
                assert(preorder(child, d + 1)[0] == listed(child.kind@, d + 1, child.start as int, child.end as int));
                assert(preorder(tc, d + 1)[0] == listed(tc.kind@, d + 1, tc.start as int, tc.end as int));
                assert(preorder(child, d + 1)[0] == raw_listing(nodes@, offsets@, j as int, next as int)[0]);
                assert(preorder(tc, d + 1)[0] == raw_listing(nodes@, offsets@, j as int, j + lc)[0]);
                assert(node_wf(t.children[k], len as nat));
            }
            }
        }
        if child.start < start || child.end > end {
            proof {
                if depths_bounded(nodes@) {
                assert forall|t: SyntaxNode| #[trigger] subtree_at(nodes@, offsets@, len as nat, i as int, t) implies false by {
                    assert(node_wf(t, len as nat));
                    assert(node_wf(t.children[k], len as nat) && t.start <= t.children[k].start && t.children[k].end <= t.end);
                }
                }
            }
            return None;
        }
        let ghost before = children@;
        children.push(child);
        proof {
            lemma_preorder_seq_prefix(before, child, depth + 1, before.len() as int);
            assert(children@ == before.push(child));
            assert(preorder_seq(children@, depth + 1, children@.len() as int) == preorder_seq(before, depth + 1, before.len() as int) + preorder(child, depth + 1));
            assert(raw_listing(nodes@, offsets@, i + 1, j as int) + raw_listing(nodes@, offsets@, j as int, next as int) =~= raw_listing(nodes@, offsets@, i + 1, next as int));
            if depths_bounded(nodes@) {
                assert forall|t: SyntaxNode| #[trigger] subtree_at(nodes@, offsets@, len as nat, i as int, t) implies
                    next == i + 1 + preorder_seq(t.children@, d + 1, k + 1).len() by {
                    lemma_child_segment(t, d, k);
                }
            }
        }
        j = next;
    }
    proof {
        if depths_bounded(nodes@) {
        assert forall|t: SyntaxNode| #[trigger] subtree_at(nodes@, offsets@, len as nat, i as int, t) implies
            j == i + preorder(t, d).len() by {
            let n = t.children@.len() as int;
            let k = children@.len() as int;
            if k < n {
                lemma_child_segment(t, d, k);
                let tc = t.children@[k];
                let l = preorder(t, d).len() as int;
                let lc = preorder(tc, d + 1).len() as int;
                assert(preorder(tc, d + 1)[0] == listed(tc.kind@, d + 1, tc.start as int, tc.end as int));
                assert(preorder(t, d)[j - i] == preorder(tc, d + 1)[0]);
                assert(raw_listing(nodes@, offsets@, i as int, i + l)[j - i].1 == nodes@[j as int].depth as int);
                assert(false);
            }
            assert(preorder(t, d) == seq![listed(t.kind@, d, t.start as int, t.end as int)] + preorder_seq(t.children@, d + 1, n));
        }
        }
    }
    let n = SyntaxNode { kind: copy_string(&nodes[i].kind), start, end, children };
    proof {
        assert(preorder(n, depth as int) == seq![listed(n.kind@, depth as int, start as int, end as int)] + preorder_seq(n.children@, depth + 1, n.children@.len() as int));
        assert(seq![listed(n.kind@, depth as int, start as int, end as int)] + raw_listing(nodes@, offsets@, i + 1, j as int) =~= raw_listing(nodes@, offsets@, i as int, j as int));
    }
    Some((n, j))
}

/// The syntax tree of a parser's preorder listing of `source`: the tree whose
/// preorder listing is the parser's, with byte offsets turned into character
/// offsets.
///
/// Fails with `Malformed` when the listing is empty, is not the preorder of a
/// single tree, or has a range off character boundaries or outside its
/// parent's; it succeeds whenever the listing (its depths below the largest
/// `usize`) is the preorder listing of a well-formed tree.
pub fn syntax_tree_from_preorder(nodes: &Vec<RawNode>, source: &str) -> (r: Result<SyntaxNode, ExtractionError>)
    ensures
        r matches Ok(n) ==> node_wf(n, source@.len()) && nodes@.len() > 0 && preorder(n, nodes@[0].depth as int)
            == raw_listing(nodes@, offset_table(source@), 0, nodes@.len() as int),
        r matches Err(e) ==> e is Malformed,
        depths_bounded(nodes@) && nodes@.len() > 0 && (exists|n: SyntaxNode| node_wf(n, source@.len()) && #[trigger] preorder(n, nodes@[0].depth as int)
            == raw_listing(nodes@, offset_table(source@), 0, nodes@.len() as int)) ==> r is Ok,
{
    let chars = chars_of(source);
    let offsets = char_offsets(&chars);
    if nodes.len() == 0 {
        return Err(ExtractionError::Malformed("Empty syntax tree".to_owned()));
    }
    proof {
        if depths_bounded(nodes@) && (exists|n: SyntaxNode| node_wf(n, source@.len()) && #[trigger] preorder(n, nodes@[0].depth as int)
            == raw_listing(nodes@, offset_table(source@), 0, nodes@.len() as int)) {
            let n = choose|n: SyntaxNode| node_wf(n, source@.len()) && #[trigger] preorder(n, nodes@[0].depth as int)
                == raw_listing(nodes@, offset_table(source@), 0, nodes@.len() as int);
            assert(subtree_at(nodes@, offsets@, chars@.len(), 0, n));
        }
    }
    match build_node(nodes, &offsets, chars.len(), 0) {
        Some((root, next)) => {
            if next == nodes.len() {
                Ok(root)
            } else {
                Err(ExtractionError::Malformed("Syntax tree listing has more than one root".to_owned()))
            }
        },
        None => Err(ExtractionError::Malformed("Syntax tree ranges do not match the source".to_owned())),
    }
}

/// Parses `source` into a syntax tree whose ranges are character offsets.
///
/// Fails with `Parse` when the parser gives no tree, and otherwise as
/// [`syntax_tree_from_preorder`] does on the parser's listing.
pub fn parse_syntax(parser: &mut tree_sitter::Parser, source: &str) -> (r: Result<SyntaxNode, ExtractionError>)
    ensures
        r matches Ok(n) ==> node_wf(n, source@.len()),
        r matches Err(e) ==> e is Parse || e is Malformed,
{
    match parse_preorder(parser, source) {
        Some(nodes) => syntax_tree_from_preorder(&nodes, source),
        None => Err(ExtractionError::Parse("Failed to parse source file".to_owned())),
    }
}

} // verus!
