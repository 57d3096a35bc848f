//! Assembly of the final namespaces from the resolved symbols.

use vstd::prelude::*;
use vstd::string::*;

use crate::symbol_resolution::{
    declarations_view, doc_entries_view, DeclarationView, SymbolResolution,
};
use crate::text::{chars_of, copy_string, sep, sep_at, starts_with, string_of};
use crate::types::{opt_view, Namespace, NamespaceView, Symbol, SymbolView};

verus! {

/// The package name with each `-` replaced by `_`.
pub open spec fn sanitised(name: Seq<char>) -> Seq<char> {
    name.map_values(|c: char| if c == '-' { '_' } else { c })
}

/// The name of the namespace of module path `path` in package `package`.
pub open spec fn namespace_name(package: Seq<char>, path: Seq<char>) -> Seq<char> {
    if path.len() == 0 {
        package
    } else {
        package + sep() + path
    }
}

/// The number of separators in `s` from `i` on, counted left to right
/// without overlap.
pub open spec fn count_sep_from(s: Seq<char>, i: int) -> nat
    decreases s.len() - i,
{
    if i < 0 || i + 1 >= s.len() {
        0
    } else if sep_at(s, i) {
        1 + count_sep_from(s, i + 2)
    } else {
        count_sep_from(s, i + 1)
    }
}

/// The depth of a namespace name: how many separators it holds.
pub open spec fn depth(s: Seq<char>) -> nat {
    count_sep_from(s, 0)
}

/// Lexicographic order on character sequences, by code point.
pub open spec fn lex_lt(a: Seq<char>, b: Seq<char>) -> bool
    decreases a.len(),
{
    if a.len() == 0 {
        b.len() > 0
    } else if b.len() == 0 {
        false
    } else if a[0] < b[0] {
        true
    } else if a[0] > b[0] {
        false
    } else {
        lex_lt(a.drop_first(), b.drop_first())
    }
}

/// The order of namespaces: by depth, then by name.
pub open spec fn name_before(a: Seq<char>, b: Seq<char>) -> bool {
    depth(a) < depth(b) || (depth(a) == depth(b) && lex_lt(a, b))
}

pub proof fn lemma_lex_irreflexive(a: Seq<char>)
    ensures
        !lex_lt(a, a),
    decreases a.len(),
{
    if a.len() > 0 {
        lemma_lex_irreflexive(a.drop_first());
    }
}

pub proof fn lemma_lex_total(a: Seq<char>, b: Seq<char>)
    requires
        a != b,
    ensures
        lex_lt(a, b) || lex_lt(b, a),
    decreases a.len(),
{
    if a.len() > 0 && b.len() > 0 && a[0] == b[0] {
        if a.drop_first() == b.drop_first() {
            assert(a =~= seq![a[0]] + a.drop_first());
            assert(b =~= seq![b[0]] + b.drop_first());
        }
        lemma_lex_total(a.drop_first(), b.drop_first());
    } else if a.len() > 0 && b.len() > 0 {
        assert(a[0] != b[0]);
    } else if a.len() == 0 && b.len() == 0 {
        assert(a =~= b);
    }
}

pub proof fn lemma_lex_transitive(a: Seq<char>, b: Seq<char>, c: Seq<char>)
    requires
        lex_lt(a, b),
        lex_lt(b, c),
    ensures
        lex_lt(a, c),
    decreases a.len(),
{
    if a.len() > 0 && b.len() > 0 && c.len() > 0 {
        if a[0] == b[0] && b[0] == c[0] {
            lemma_lex_transitive(a.drop_first(), b.drop_first(), c.drop_first());
        }
    }
}

pub proof fn lemma_lex_asymmetric(a: Seq<char>, b: Seq<char>)
    requires
        lex_lt(a, b),
    ensures
        !lex_lt(b, a),
{
    if lex_lt(b, a) {
        lemma_lex_transitive(a, b, a);
        lemma_lex_irreflexive(a);
    }
}

/// The documentation recorded for module path `path`, if any.
pub open spec fn doc_lookup(docs: Seq<(Seq<char>, Seq<char>)>, path: Seq<char>, i: int) -> Option<
    Seq<char>,
>
    decreases docs.len() - i,
{
    if i < 0 || i >= docs.len() {
        None
    } else if docs[i].0 == path {
        Some(docs[i].1)
    } else {
        doc_lookup(docs, path, i + 1)
    }
}

/// The first namespace at or after `i` named `name`.
pub open spec fn find_namespace(nss: Seq<NamespaceView>, name: Seq<char>, i: int) -> Option<int>
    decreases nss.len() - i,
{
    if i < 0 || i >= nss.len() {
        None
    } else if nss[i].name == name {
        Some(i)
    } else {
        find_namespace(nss, name, i + 1)
    }
}

/// Adds a symbol to the namespace `name`, which is made (with `doc`) when absent.
pub open spec fn add_symbol(
    nss: Seq<NamespaceView>,
    name: Seq<char>,
    s: SymbolView,
    doc: Option<Seq<char>>,
) -> Seq<NamespaceView> {
    match find_namespace(nss, name, 0) {
        Some(k) => nss.update(
            k,
            NamespaceView { name: nss[k].name, symbols: nss[k].symbols.push(s), doc_comment: nss[k].doc_comment },
        ),
        None => nss.push(NamespaceView { name, symbols: seq![s], doc_comment: doc }),
    }
}

/// The namespaces after the first `k` module paths of declaration `d`.
pub open spec fn group_declaration(
    nss: Seq<NamespaceView>,
    d: DeclarationView,
    package: Seq<char>,
    docs: Seq<(Seq<char>, Seq<char>)>,
    k: int,
) -> Seq<NamespaceView>
    decreases k,
{
    if k <= 0 || k > d.modules.len() {
        nss
    } else {
        add_symbol(
            group_declaration(nss, d, package, docs, k - 1),
            namespace_name(package, d.modules[k - 1]),
            d.symbol,
            doc_lookup(docs, d.modules[k - 1], 0),
        )
    }
}

/// The namespaces, in order of first appearance, of the first `n` declarations.
pub open spec fn group_all(
    decls: Seq<DeclarationView>,
    package: Seq<char>,
    docs: Seq<(Seq<char>, Seq<char>)>,
    n: int,
) -> Seq<NamespaceView>
    decreases n,
{
    if n <= 0 || n > decls.len() {
        Seq::empty()
    } else {
        group_declaration(
            group_all(decls, package, docs, n - 1),
            decls[n - 1],
            package,
            docs,
            decls[n - 1].modules.len() as int,
        )
    }
}

pub open spec fn names_distinct(nss: Seq<NamespaceView>) -> bool {
    forall|i: int, j: int| 0 <= i < j < nss.len() ==> nss[i].name != nss[j].name
}

pub open spec fn sorted_by_name(nss: Seq<NamespaceView>) -> bool {
    forall|i: int, j: int| 0 <= i < j < nss.len() ==> name_before(nss[i].name, nss[j].name)
}

pub open spec fn namespaces_view(v: Seq<Namespace>) -> Seq<NamespaceView> {
    v.map_values(|n: Namespace| n@)
}

pub proof fn lemma_find_namespace(nss: Seq<NamespaceView>, name: Seq<char>, i: int)
    requires
        0 <= i,
    ensures
        find_namespace(nss, name, i) matches Some(k) ==> i <= k < nss.len() && nss[k].name == name,
        find_namespace(nss, name, i) is None ==> forall|k: int| i <= k < nss.len() ==> nss[k].name != name,
    decreases nss.len() - i,
{
    if i < nss.len() && nss[i].name != name {
        lemma_find_namespace(nss, name, i + 1);
    }
}

proof fn lemma_group_declaration_distinct(
    nss: Seq<NamespaceView>,
    d: DeclarationView,
    package: Seq<char>,
    docs: Seq<(Seq<char>, Seq<char>)>,
    k: int,
)
    requires
        names_distinct(nss),
    ensures
        names_distinct(group_declaration(nss, d, package, docs, k)),
    decreases k,
{
    if 0 < k <= d.modules.len() {
        let prev = group_declaration(nss, d, package, docs, k - 1);
        lemma_group_declaration_distinct(nss, d, package, docs, k - 1);
        lemma_find_namespace(prev, namespace_name(package, d.modules[k - 1]), 0);
    }
}

/// The namespaces of one package never share a name.
pub proof fn lemma_group_all_distinct(
    decls: Seq<DeclarationView>,
    package: Seq<char>,
    docs: Seq<(Seq<char>, Seq<char>)>,
    n: int,
)
    ensures
        names_distinct(group_all(decls, package, docs, n)),
    decreases n,
{
    if 0 < n <= decls.len() {
        lemma_group_all_distinct(decls, package, docs, n - 1);
        lemma_group_declaration_distinct(
            group_all(decls, package, docs, n - 1),
            decls[n - 1],
            package,
            docs,
            decls[n - 1].modules.len() as int,
        );
    }
}


pub proof fn lemma_name_before_total(a: Seq<char>, b: Seq<char>)
    requires
        a != b,
    ensures
        name_before(a, b) || name_before(b, a),
{
    lemma_lex_total(a, b);
}

pub proof fn lemma_name_before_transitive(a: Seq<char>, b: Seq<char>, c: Seq<char>)
    requires
        name_before(a, b),
        name_before(b, c),
    ensures
        name_before(a, c),
{
    if depth(a) == depth(b) && depth(b) == depth(c) {
        lemma_lex_transitive(a, b, c);
    }
}

pub proof fn lemma_name_before_asymmetric(a: Seq<char>, b: Seq<char>)
    requires
        name_before(a, b),
    ensures
        !name_before(b, a),
{
    if depth(a) == depth(b) {
        lemma_lex_asymmetric(a, b);
    }
}

/// The namespaces, unsorted, that a resolution gives for package `package`.
pub open spec fn grouped_of(sr: SymbolResolution, package: Seq<char>) -> Seq<NamespaceView> {
    group_all(
        declarations_view(sr.symbols@),
        sanitised(package),
        doc_entries_view(sr.doc_comments.entries@),
        sr.symbols@.len() as int,
    )
}

fn sanitise_exec(name: &str) -> (r: String)
    ensures
        r@ == sanitised(name@),
{
    let cs = chars_of(name);
    let mut out: Vec<char> = Vec::new();
    let mut i: usize = 0;
    while i < cs.len()
        invariant
            i <= cs@.len(),
            out@ == sanitised(cs@).take(i as int),
        decreases cs@.len() - i,
    {
        let c = cs[i];
        out.push(if c == '-' { '_' } else { c });
        i = i + 1;
        assert(out@ =~= sanitised(cs@).take(i as int));
    }
    assert(sanitised(cs@).take(cs@.len() as int) =~= sanitised(cs@));
    string_of(&out)
}

fn namespace_name_exec(package: &String, path: &String) -> (r: String)
    ensures
        r@ == namespace_name(package@, path@),
{
    if path.as_str().is_empty() {
        copy_string(package)
    } else {
        let mut r = copy_string(package);
        proof {
            reveal_strlit("::");
        }
        r.append("::");
        r.append(path.as_str());
        assert(r@ =~= package@ + sep() + path@);
        r
    }
}

fn doc_lookup_exec(docs: &Vec<(String, String)>, path: &String) -> (r: Option<String>)
    ensures
        opt_view(r) == doc_lookup(doc_entries_view(docs@), path@, 0),
{
    let mut i: usize = 0;
    while i < docs.len()
        invariant
            i <= docs@.len(),
            doc_lookup(doc_entries_view(docs@), path@, 0) == doc_lookup(doc_entries_view(docs@), path@, i as int),
        decreases docs@.len() - i,
    {
        if docs[i].0 == *path {
            return Some(copy_string(&docs[i].1));
        }
        i = i + 1;
    }
    None
}

fn find_namespace_exec(nss: &Vec<Namespace>, name: &String) -> (r: Option<usize>)
    ensures
        r matches Some(k) ==> find_namespace(namespaces_view(nss@), name@, 0) == Some(k as int) && k < nss@.len(),
        r is None ==> find_namespace(namespaces_view(nss@), name@, 0) is None,
{
    let mut i: usize = 0;
    while i < nss.len()
        invariant
            i <= nss@.len(),
            find_namespace(namespaces_view(nss@), name@, 0) == find_namespace(namespaces_view(nss@), name@, i as int),
        decreases nss@.len() - i,
    {
        if nss[i].name == *name {
            return Some(i);
        }
        i = i + 1;
    }
    None
}

fn add_symbol_exec(nss: &mut Vec<Namespace>, name: String, s: &Symbol, doc: Option<String>)
    ensures
        namespaces_view(final(nss)@) == add_symbol(namespaces_view(old(nss)@), name@, s@, opt_view(doc)),
{
    let ghost before = namespaces_view(nss@);
    match find_namespace_exec(nss, &name) {
        Some(k) => {
            let mut ns = nss.remove(k);
            let ghost old_ns = ns@;
            ns.symbols.push(s.duplicate());
            assert(ns@.symbols =~= old_ns.symbols.push(s@));
            nss.insert(k, ns);
            assert(namespaces_view(nss@) =~= add_symbol(before, name@, s@, opt_view(doc)));
        },
        None => {
            let ns = Namespace { name, symbols: vec![s.duplicate()], doc_comment: doc };
            assert(ns@.symbols =~= seq![s@]);
            nss.push(ns);
            assert(namespaces_view(nss@) =~= add_symbol(before, name@, s@, opt_view(doc)));
        },
    }
}

fn depth_exec(s: &[char]) -> (r: usize)
    ensures
        r == depth(s@),
{
    let mut count: usize = 0;
    let mut i: usize = 0;
    while i < s.len()
        invariant
            i <= s@.len() + 1,
            count <= i,
            count + count_sep_from(s@, i as int) == depth(s@),
        decreases s@.len() + 1 - i,
    {
        if i + 1 < s.len() && s[i] == ':' && s[i + 1] == ':' {
            count = count + 1;
            i = i + 2;
        } else {
            i = i + 1;
        }
    }
    count
}

fn lex_lt_exec(a: &[char], b: &[char]) -> (r: bool)
    ensures
        r == lex_lt(a@, b@),
{
    let mut i: usize = 0;
    assert(a@.skip(0) =~= a@);
    assert(b@.skip(0) =~= b@);
    while i < a.len() && i < b.len()
        invariant
            i <= a@.len(),
            i <= b@.len(),
            lex_lt(a@, b@) == lex_lt(a@.skip(i as int), b@.skip(i as int)),
        decreases a@.len() - i,
    {
        assert(a@.skip(i as int).drop_first() =~= a@.skip(i + 1));
        assert(b@.skip(i as int).drop_first() =~= b@.skip(i + 1));
        if a[i] < b[i] {
            return true;
        }
        if a[i] > b[i] {
            return false;
        }
        i = i + 1;
    }
    i == a.len() && i < b.len()
}

fn name_before_exec(a: &String, b: &String) -> (r: bool)
    ensures
        r == name_before(a@, b@),
{
    let ac = chars_of(a.as_str());
    let bc = chars_of(b.as_str());
    let da = depth_exec(&ac);
    let db = depth_exec(&bc);
    da < db || (da == db && lex_lt_exec(&ac, &bc))
}

/// Groups the resolved symbols by public module path into namespaces named
/// after the package (with `-` turned into `_`), sorted by depth and then by
/// name. Within a namespace, symbols keep the order of the resolution.
pub fn construct_namespaces(symbol_resolution: SymbolResolution, crate_name: &str) -> (r: Vec<
    Namespace,
>)
    ensures
        namespaces_view(r@).len() == grouped_of(symbol_resolution, crate_name@).len(),
        sorted_by_name(namespaces_view(r@)),
        forall|x: NamespaceView|
            grouped_of(symbol_resolution, crate_name@).contains(x) <==> namespaces_view(r@).contains(x),
{
    let package = sanitise_exec(crate_name);
    let decls = &symbol_resolution.symbols;
    let docs = &symbol_resolution.doc_comments.entries;
    let ghost dv = declarations_view(decls@);
    let ghost docv = doc_entries_view(docs@);
    let mut grouped: Vec<Namespace> = Vec::new();
    let mut i: usize = 0;
    while i < decls.len()
        invariant
            i <= decls@.len(),
            dv == declarations_view(decls@),
            docv == doc_entries_view(docs@),
            namespaces_view(grouped@) == group_all(dv, package@, docv, i as int),
        decreases decls@.len() - i,
    {
        let d = &decls[i];
        assert(dv[i as int] == d@);
        let ghost g0 = namespaces_view(grouped@);
        let mut k: usize = 0;
        while k < d.modules.len()
            invariant
                k <= d.modules@.len(),
                dv == declarations_view(decls@),
                docv == doc_entries_view(docs@),
                i < decls@.len(),
                d == decls@[i as int],
                namespaces_view(grouped@) == group_declaration(g0, d@, package@, docv, k as int),
            decreases d.modules@.len() - k,
        {
            assert(d@.modules[k as int] == d.modules@[k as int]@);
            let name = namespace_name_exec(&package, &d.modules[k]);
            let doc = doc_lookup_exec(docs, &d.modules[k]);
            add_symbol_exec(&mut grouped, name, &d.symbol, doc);
            k = k + 1;
        }
        i = i + 1;
    }
    let ghost g = namespaces_view(grouped@);
    assert(g == grouped_of(symbol_resolution, crate_name@));
    proof {
        lemma_group_all_distinct(dv, package@, docv, decls@.len() as int);
    }
    let mut result: Vec<Namespace> = Vec::new();
    while grouped.len() > 0
        invariant
            grouped@.len() <= g.len(),
            namespaces_view(grouped@) == g.take(grouped@.len() as int),
            names_distinct(g),
            sorted_by_name(namespaces_view(result@)),
            namespaces_view(result@).len() + grouped@.len() == g.len(),
            forall|x: NamespaceView|
                g.skip(grouped@.len() as int).contains(x) <==> namespaces_view(result@).contains(x),
        decreases grouped@.len(),
    {
        let ghost m = grouped@.len() as int;
        let ghost gold = grouped@;
        let ns = grouped.pop().unwrap();
        assert(ns == gold[m - 1]);
        assert(namespaces_view(gold)[m - 1] == ns@);
        assert(g.take(m)[m - 1] == g[m - 1]);
        assert(namespaces_view(grouped@) =~= g.take(m - 1));
        let ghost rv = namespaces_view(result@);
        let mut p: usize = 0;
        while p < result.len() && !name_before_exec(&ns.name, &result[p].name)
            invariant
                p <= result@.len(),
                rv == namespaces_view(result@),
                forall|k: int| 0 <= k < p ==> !name_before(ns@.name, rv[k].name),
            decreases result@.len() - p,
        {
            p = p + 1;
        }
        proof {
            assert forall|k: int| 0 <= k < rv.len() implies rv[k].name != ns@.name by {
                assert(rv.contains(rv[k]));
                assert(g.skip(m).contains(rv[k]));
                let j = choose|j: int| 0 <= j < g.skip(m).len() && g.skip(m)[j] == rv[k];
                assert(g[m + j] == rv[k]);
            }
            assert forall|k: int| 0 <= k < p implies name_before(rv[k].name, ns@.name) by {
                lemma_name_before_total(rv[k].name, ns@.name);
            }
            assert forall|k: int| p <= k < rv.len() implies name_before(ns@.name, rv[k].name) by {
                if k > p {
                    lemma_name_before_transitive(ns@.name, rv[p as int].name, rv[k].name);
                }
            }
        }
        let ghost nv = ns@;
        result.insert(p, ns);
        proof {
            let nr = namespaces_view(result@);
            assert(nr =~= rv.insert(p as int, nv));
            assert forall|a: int, b: int| 0 <= a < b < nr.len() implies name_before(nr[a].name, nr[b].name) by {
                if a < p && b > p {
                    lemma_name_before_transitive(nr[a].name, nv.name, nr[b].name);
                }
            }
            assert(g.skip(m - 1) =~= seq![nv] + g.skip(m));
            assert forall|x: NamespaceView| g.skip(m - 1).contains(x) <==> nr.contains(x) by {
                if g.skip(m - 1).contains(x) {
                    if x != nv {
                        let j = choose|j: int| 0 <= j < g.skip(m - 1).len() && #[trigger] g.skip(m - 1)[j] == x;
                        assert(g.skip(m).contains(x)) by {
                            assert(g.skip(m)[j - 1] == x);
                        }
                        assert(rv.contains(x));
                        let q = choose|q: int| 0 <= q < rv.len() && rv[q] == x;
                        if q < p {
                            assert(nr[q] == x);
                        } else {
                            assert(nr[q + 1] == x);
                        }
                    } else {
                        assert(nr[p as int] == x);
                    }
                }
                if nr.contains(x) {
                    let q = choose|q: int| 0 <= q < nr.len() && nr[q] == x;
                    if q == p {
                        assert(g.skip(m - 1)[0] == x);
                    } else {
                        let q2 = if q < p { q } else { q - 1 };
                        assert(rv[q2] == x);
                        assert(rv.contains(x));
                        let j = choose|j: int| 0 <= j < g.skip(m).len() && g.skip(m)[j] == x;
                        assert(g.skip(m - 1)[j + 1] == x);
                    }
                }
            }
        }
    }
    assert(g.skip(0) =~= g);
    result
}


proof fn lemma_group_declaration_prefix(
    nss: Seq<NamespaceView>,
    d: DeclarationView,
    package: Seq<char>,
    docs: Seq<(Seq<char>, Seq<char>)>,
    k: int,
)
    requires
        forall|i: int| 0 <= i < nss.len() ==> #[trigger] starts_with(nss[i].name, package),
    ensures
        forall|i: int|
            0 <= i < group_declaration(nss, d, package, docs, k).len() ==> #[trigger] starts_with(
                group_declaration(nss, d, package, docs, k)[i].name,
                package,
            ),
    decreases k,
{
    if 0 < k <= d.modules.len() {
        let prev = group_declaration(nss, d, package, docs, k - 1);
        lemma_group_declaration_prefix(nss, d, package, docs, k - 1);
        let name = namespace_name(package, d.modules[k - 1]);
        assert(starts_with(name, package)) by {
            if d.modules[k - 1].len() > 0 {
                assert(name.subrange(0, package.len() as int) =~= package);
            } else {
                assert(name.subrange(0, package.len() as int) =~= package);
            }
        }
        lemma_find_namespace(prev, name, 0);
        let next = group_declaration(nss, d, package, docs, k);
        assert forall|i: int| 0 <= i < next.len() implies #[trigger] starts_with(next[i].name, package) by {
            if i < prev.len() {
                assert(next[i].name == prev[i].name);
            }
        }
    }
}

/// Every namespace of a package is named after the package.
pub proof fn lemma_group_all_prefix(
    decls: Seq<DeclarationView>,
    package: Seq<char>,
    docs: Seq<(Seq<char>, Seq<char>)>,
    n: int,
)
    ensures
        forall|i: int|
            0 <= i < group_all(decls, package, docs, n).len() ==> #[trigger] starts_with(
                group_all(decls, package, docs, n)[i].name,
                package,
            ),
    decreases n,
{
    if 0 < n <= decls.len() {
        lemma_group_all_prefix(decls, package, docs, n - 1);
        lemma_group_declaration_prefix(
            group_all(decls, package, docs, n - 1),
            decls[n - 1],
            package,
            docs,
            decls[n - 1].modules.len() as int,
        );
    }
}

} // verus!
