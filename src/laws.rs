//! Properties of the extraction that relate several of its parts.

use vstd::prelude::*;

use crate::files::ImportKind;
use crate::types::SymbolView;
use crate::module_directory::{ItemView, ModuleView};
use crate::api::api_namespaces;
use crate::namespace_construction::{
    add_symbol, doc_lookup, find_namespace, lemma_find_namespace, group_all, group_declaration,
    lemma_name_before_asymmetric, lemma_lex_irreflexive, name_before, namespace_name, sanitised,
    sorted_by_name,
};
use crate::symbol_collection::{collect_spec, ParsedSources};
use crate::symbol_resolution::{
    alias_contribution, all_refs, all_seeds, docs_spec, module_seeds, SeedView, extended, merge_one, union, lookup, lookup_from, merge_all, module_refs, normalise, normalised, put,
    seed_module, DeclarationView, ReferenceView,
    all_false, bad_item, context, crate_marker, def_contribution, expand_spec, filter_public,
    find_module_from, has_bad_item, is_public_name, public_declarations, qualify, reference_outcome,
    resolution_spec, resolve_all, resolve_spec, seed_table, super_marker, synthetic, use_alias_text,
    use_glob_text, use_text, Ctx, EntryView,
};
use crate::text::{join_path, rfind_sep_before, starts_with};
use crate::types::NamespaceView;

verus! {

/// The root namespace is named exactly after the package, `-` turned into `_`.
pub proof fn law_root_namespace_name(package: Seq<char>)
    ensures
        namespace_name(sanitised(package), Seq::empty()) == sanitised(package),
{
}

proof fn lemma_filter_public(mods: Seq<ModuleView>, names: Seq<Seq<char>>)
    ensures
        forall|i: int| 0 <= i < filter_public(mods, names).len() ==> is_public_name(mods, #[trigger] filter_public(mods, names)[i]),
    decreases names.len(),
{
    if names.len() > 0 {
        lemma_filter_public(mods, names.drop_last());
        let prev = filter_public(mods, names.drop_last());
        let cur = filter_public(mods, names);
        assert forall|i: int| 0 <= i < cur.len() implies is_public_name(mods, #[trigger] cur[i]) by {
            if i < prev.len() {
                assert(cur[i] == prev[i]);
            }
        }
    }
}

/// No private leakage: every module path that resolution lists for a symbol
/// is public (the root, or a module marked public).
pub proof fn law_no_private_leakage(mods: Seq<ModuleView>, t: Seq<EntryView>)
    ensures
        forall|i: int, j: int|
            0 <= i < public_declarations(mods, t).len() && 0 <= j < public_declarations(mods, t)[i].modules.len()
                ==> is_public_name(mods, #[trigger] public_declarations(mods, t)[i].modules[j]),
    decreases t.len(),
{
    if t.len() > 0 {
        law_no_private_leakage(mods, t.drop_last());
        lemma_filter_public(mods, t.last().decl.modules);
        let prev = public_declarations(mods, t.drop_last());
        let cur = public_declarations(mods, t);
        assert forall|i: int, j: int| 0 <= i < cur.len() && 0 <= j < cur[i].modules.len() implies is_public_name(
            mods,
            #[trigger] cur[i].modules[j],
        ) by {
            if i < prev.len() {
                assert(cur[i] == prev[i]);
                assert(is_public_name(mods, prev[i].modules[j]));
            } else {
                let ms = filter_public(mods, t.last().decl.modules);
                assert(cur[i].modules == ms);
                assert(is_public_name(mods, ms[j]));
            }
        }
    }
}

/// No private leakage, for the whole resolution of a list of modules.
pub proof fn law_resolution_is_public(mods: Seq<ModuleView>)
    ensures
        forall|i: int, j: int|
            0 <= i < resolution_spec(mods).len() && 0 <= j < resolution_spec(mods)[i].modules.len()
                ==> is_public_name(mods, #[trigger] resolution_spec(mods)[i].modules[j]),
{
    let c = context(mods);
    law_no_private_leakage(mods, resolve_all(c, seed_table(mods, mods.len() as int), c.refs.len() as int));
}

/// Determinism: a sorted arrangement of a set of namespaces with distinct
/// names is unique, so equal inputs give equal namespace lists, symbol order
/// within each namespace included.
pub proof fn law_namespaces_determined(a: Seq<NamespaceView>, b: Seq<NamespaceView>)
    requires
        a.len() == b.len(),
        sorted_by_name(a),
        sorted_by_name(b),
        forall|x: NamespaceView| a.contains(x) <==> b.contains(x),
    ensures
        a == b,
{
    if exists|i: int| 0 <= i < a.len() && a[i] != b[i] {
        let w = choose|i: int| 0 <= i < a.len() && a[i] != b[i];
        lemma_first_difference(a, b, w);
        let i = choose|i: int| 0 <= i < a.len() && a[i] != b[i] && forall|k: int| 0 <= k < i ==> a[k] == b[k];
        assert(a.contains(a[i]));
        let j = choose|j: int| 0 <= j < b.len() && b[j] == a[i];
        assert(b.contains(b[i]));
        let k = choose|k: int| 0 <= k < a.len() && a[k] == b[i];
        if j < i {
            assert(a[j] == b[j]);
            assert(name_before(a[j].name, a[i].name));
            lemma_lex_irreflexive(a[i].name);
        }
        if k < i {
            assert(b[k] == a[k]);
            assert(name_before(b[k].name, b[i].name));
            lemma_lex_irreflexive(b[i].name);
        }
        assert(j > i && k > i);
        assert(name_before(b[i].name, b[j].name));
        assert(name_before(a[i].name, a[k].name));
        lemma_name_before_asymmetric(a[i].name, b[i].name);
    }
    assert(a =~= b);
}

proof fn lemma_first_difference(a: Seq<NamespaceView>, b: Seq<NamespaceView>, w: int)
    requires
        a.len() == b.len(),
        0 <= w < a.len(),
        a[w] != b[w],
    ensures
        exists|i: int| 0 <= i < a.len() && a[i] != b[i] && forall|k: int| 0 <= k < i ==> a[k] == b[k],
    decreases w,
{
    if exists|k: int| 0 <= k < w && a[k] != b[k] {
        let k = choose|k: int| 0 <= k < w && a[k] != b[k];
        lemma_first_difference(a, b, k);
    } else {
        assert(forall|k: int| 0 <= k < w ==> a[k] == b[k]);
    }
}

/// What an aliased re-export contributes is always a new row at
/// `host::alias`, named `alias` and visible at `host` only: the aliased
/// declaration's own row is never touched by it, and two aliases in one
/// module give rows with distinct keys and names.
pub proof fn law_alias_contributions(c: Ctx, t: Seq<EntryView>, i: int, v: Seq<bool>)
    requires
        0 <= i < c.refs.len(),
        c.refs[i].kind matches ImportKind::Aliased(_),
    ensures
        forall|k: int| 0 <= k < resolve_spec(c, t, i, v).len() ==> {
            let e = #[trigger] resolve_spec(c, t, i, v)[k];
            let a = c.refs[i].kind->Aliased_0;
            &&& e.key == join_path(c.refs[i].host, a)
            &&& e.decl.symbol.name == a
            &&& e.decl.modules == seq![c.refs[i].host]
        },
{
}

/// Two aliases of one module get distinct keys.
pub proof fn law_alias_keys_distinct(host: Seq<char>, a1: Seq<char>, a2: Seq<char>)
    requires
        a1 != a2,
    ensures
        join_path(host, a1) != join_path(host, a2),
{
    if host.len() > 0 {
        let p = host + crate::text::sep();
        if join_path(host, a1) == join_path(host, a2) {
            assert((p + a1).subrange(p.len() as int, (p + a1).len() as int) =~= a1);
            assert((p + a2).subrange(p.len() as int, (p + a2).len() as int) =~= a2);
        }
    }
}

/// A re-export that resolves to nothing is not an error: it is recorded as a
/// `pub use` of its own path, visible at its own module.
pub proof fn law_unresolved_reference(c: Ctx, t: Seq<EntryView>, i: int)
    requires
        0 <= i < c.refs.len(),
        resolve_spec(c, t, i, all_false(c.refs.len())).len() == 0,
    ensures
        reference_outcome(c, t, i) == seq![synthetic(c.refs[i])],
        synthetic(c.refs[i]).decl.modules == seq![c.refs[i].host],
        c.refs[i].kind is Simple ==> synthetic(c.refs[i]).decl.symbol.source_code == use_text(c.refs[i].path),
        c.refs[i].kind is Wildcard ==> synthetic(c.refs[i]).decl.symbol.source_code == use_glob_text(c.refs[i].path),
        c.refs[i].kind matches ImportKind::Aliased(a) ==> synthetic(c.refs[i]).decl.symbol.source_code
            == use_alias_text(c.refs[i].path, a),
{
}

/// A parent-scope re-export (`super::...`) in the root module makes
/// resolution fail.
pub proof fn law_super_from_root(mods: Seq<ModuleView>, m: int, k: int)
    requires
        0 <= m < mods.len(),
        mods[m].name.len() == 0,
        0 <= k < mods[m].items.len(),
        mods[m].items[k] matches ItemView::Reexport(p, _) && starts_with(p, super_marker()),
    ensures
        has_bad_item(mods),
{
    let p = mods[m].items[k]->Reexport_0;
    assert(p[0] == 's');
    assert(!starts_with(p, crate_marker())) by {
        if starts_with(p, crate_marker()) {
            assert(p.subrange(0, 7)[0] == 'c');
        }
    }
    assert(bad_item(mods, m, k));
}

proof fn lemma_expand_defs(c: Ctx, t: Seq<EntryView>, m: int, k: int, v: Seq<bool>, host: Seq<char>)
    requires
        0 <= m < c.seeds.len(),
        m < c.mods.len(),
        0 <= k <= c.seeds[m].len(),
        forall|q: int| 0 <= q < c.seeds[m].len() ==> #[trigger] c.seeds[m][q] is Def,
    ensures
        expand_spec(c, t, m, k, v, host).len() == k,
        forall|q: int|
            0 <= q < k ==> #[trigger] expand_spec(c, t, m, k, v, host)[q] == def_contribution(
                c.mods[m].name,
                c.seeds[m][q]->Def_0,
                host,
            ),
    decreases k,
{
    if k > 0 {
        lemma_expand_defs(c, t, m, k - 1, v, host);
        assert(c.seeds[m][k - 1] is Def);
    }
}

/// Wildcard fanout: a wildcard re-export of a module whose items are all
/// definitions contributes exactly those symbols, in order, with their own
/// rendered source, each visible at the re-exporting module.
pub proof fn law_wildcard_fanout(c: Ctx, t: Seq<EntryView>, i: int, v: Seq<bool>, m: int)
    requires
        0 <= i < c.refs.len(),
        v.len() == c.refs.len(),
        !v[i],
        c.refs[i].kind is Wildcard,
        find_module_from(c.mods, qualify(c.refs[i].path, c.refs[i].host), 0) == Some(m),
        0 <= m < c.seeds.len(),
        forall|q: int| 0 <= q < c.seeds[m].len() ==> #[trigger] c.seeds[m][q] is Def,
    ensures
        resolve_spec(c, t, i, v).len() == c.seeds[m].len(),
        forall|q: int|
            0 <= q < c.seeds[m].len() ==> {
                let e = #[trigger] resolve_spec(c, t, i, v)[q];
                &&& e.decl.symbol == c.seeds[m][q]->Def_0
                &&& e.decl.modules.contains(c.refs[i].host)
            },
{
    let v2 = v.update(i, true);
    crate::symbol_resolution::lemma_find_module_bounds_pub(c.mods, qualify(c.refs[i].path, c.refs[i].host), 0);
    lemma_expand_defs(c, t, m, c.seeds[m].len() as int, v2, c.refs[i].host);
    assert forall|q: int| 0 <= q < c.seeds[m].len() implies {
        let e = #[trigger] resolve_spec(c, t, i, v)[q];
        &&& e.decl.symbol == c.seeds[m][q]->Def_0
        &&& e.decl.modules.contains(c.refs[i].host)
    } by {
        let e = resolve_spec(c, t, i, v)[q];
        assert(e.decl.modules[1] == c.refs[i].host);
    }
}

/// Cycle safety: a directory scope whose entry point is already being
/// collected, or was collected before, contributes nothing and is no error.
pub proof fn law_cycle_ignored(
    ps: ParsedSources,
    entry: Seq<char>,
    dir: Seq<char>,
    is_public: bool,
    prefix: Seq<char>,
    anc: Seq<Seq<char>>,
    seen: Seq<Seq<char>>,
)
    requires
        anc.contains(entry) || seen.contains(entry),
    ensures
        collect_spec(ps, entry, dir, is_public, prefix, anc, seen) == Ok::<
            (Seq<crate::module_directory::DirView>, Seq<Seq<char>>),
            crate::symbol_collection::FailKind,
        >((Seq::empty(), seen)),
{
}

} // verus!

verus! {

/// Two aliases of one symbol: a public module `o` that defines `s`, and a
/// public module `h` that re-exports it (by its path `p`) as `a1` and as `a2`.
/// Resolution gives the symbol at `o` alone, and one entry for each alias,
/// named after it and visible at `h` alone.
pub proof fn law_two_aliases(o: Seq<char>, h: Seq<char>, s: SymbolView, p: Seq<char>, a1: Seq<char>, a2: Seq<char>)
    requires
        o.len() > 0,
        h.len() > 0,
        o != h,
        p == join_path(o, s.name),
        normalise(p, h) == Some(p),
        a1 != a2,
        a1 != p,
        a2 != p,
        join_path(h, a1) != p,
        join_path(h, a2) != p,
    ensures
        ({
            let mods = seq![
                ModuleView { name: o, is_public: true, doc: None, items: seq![ItemView::Def(s)] },
                ModuleView {
                    name: h,
                    is_public: true,
                    doc: None,
                    items: seq![
                        ItemView::Reexport(p, ImportKind::Aliased(a1)),
                        ItemView::Reexport(p, ImportKind::Aliased(a2)),
                    ],
                },
            ];
            let r = resolution_spec(mods);
            &&& r.len() == 3
            &&& r[0] == DeclarationView { symbol: s, modules: seq![o] }
            &&& r[1].symbol.name == a1 && r[1].modules == seq![h]
            &&& r[2].symbol.name == a2 && r[2].modules == seq![h]
        }),
{
    let m0 = ModuleView { name: o, is_public: true, doc: None, items: seq![ItemView::Def(s)] };
    let m1 = ModuleView {
        name: h,
        is_public: true,
        doc: None,
        items: seq![
            ItemView::Reexport(p, ImportKind::Aliased(a1)),
            ItemView::Reexport(p, ImportKind::Aliased(a2)),
        ],
    };
    let mods = seq![m0, m1];
    let es = EntryView { key: p, decl: DeclarationView { symbol: s, modules: seq![o] } };
    // Seeding.
    assert(seed_module(Seq::empty(), m0, 0) == Seq::<EntryView>::empty());
    assert(lookup_from(Seq::<EntryView>::empty(), p, 0) is None);
    assert(seed_table(mods, 1) == seq![es]) by {
        assert(seed_table(mods, 0) == Seq::<EntryView>::empty());
        assert(seed_module(Seq::empty(), m0, 1) == put(Seq::empty(), es));
        assert(Seq::<EntryView>::empty().push(es) =~= seq![es]);
    }
    assert(seed_table(mods, 2) == seq![es]) by {
        assert(seed_module(seq![es], m1, 0) == seq![es]);
        assert(seed_module(seq![es], m1, 1) == seq![es]);
        assert(seed_module(seq![es], m1, 2) == seq![es]);
    }
    // References.
    let r1 = ReferenceView { path: p, host: h, kind: ImportKind::Aliased(a1) };
    let r2 = ReferenceView { path: p, host: h, kind: ImportKind::Aliased(a2) };
    assert(mods[0] == m0 && mods[1] == m1);
    assert(all_refs(mods, 1) == Seq::<ReferenceView>::empty()) by {
        assert(all_refs(mods, 0) == Seq::<ReferenceView>::empty());
        assert(module_refs(m0, 0) == Seq::<ReferenceView>::empty());
        assert(m0.items[0] == ItemView::Def(s));
        assert(module_refs(m0, 1) == Seq::<ReferenceView>::empty());
        assert(Seq::<ReferenceView>::empty() + Seq::<ReferenceView>::empty() =~= Seq::<ReferenceView>::empty());
    }
    assert(normalised(p, h) == p);
    assert(module_refs(m1, 2) == seq![r1, r2]) by {
        assert(module_refs(m1, 0) == Seq::<ReferenceView>::empty());
        assert(m1.items[0] == ItemView::Reexport(p, ImportKind::Aliased(a1)));
        assert(m1.items[1] == ItemView::Reexport(p, ImportKind::Aliased(a2)));
        assert(module_refs(m1, 1) == Seq::<ReferenceView>::empty().push(r1));
        assert(module_refs(m1, 2) == Seq::<ReferenceView>::empty().push(r1).push(r2));
        assert(Seq::<ReferenceView>::empty().push(r1).push(r2) =~= seq![r1, r2]);
    }
    assert(all_refs(mods, 2) == seq![r1, r2]) by {
        assert(Seq::<ReferenceView>::empty() + seq![r1, r2] =~= seq![r1, r2]);
    }
    let c = context(mods);
    assert(c.refs =~= seq![r1, r2]);
    // Resolution of the first alias.
    let t0 = seq![es];
    assert(join_path(h, p) != p) by {
        assert(join_path(h, p).len() > p.len());
    }
    assert(lookup_from(t0, join_path(h, p), 1) is None);
    assert(lookup(t0, join_path(h, p)) is None);
    assert(lookup(t0, p) == Some(0int));
    let c1 = alias_contribution(mods, r1, a1, es);
    assert(resolve_spec(c, t0, 0, all_false(2)) == seq![c1]);
    assert(reference_outcome(c, t0, 0) == seq![c1]);
    assert(lookup_from(t0, join_path(h, a1), 1) is None);
    assert(merge_all(t0, seq![c1]) == t0.push(c1)) by {
        assert(seq![c1].drop_last() =~= Seq::<EntryView>::empty());
        assert(merge_all(t0, Seq::<EntryView>::empty()) == t0);
    }
    let t1 = t0.push(c1);
    assert(resolve_all(c, t0, 1) == t1) by {
        assert(resolve_all(c, t0, 0) == t0);
    }
    // Resolution of the second alias.
    assert(join_path(h, p) != join_path(h, a1)) by {
        crate::laws::law_alias_keys_distinct(h, p, a1);
    }
    assert(lookup_from(t1, join_path(h, p), 2) is None);
    assert(lookup_from(t1, join_path(h, p), 1) is None);
    assert(lookup(t1, join_path(h, p)) is None);
    assert(lookup(t1, p) == Some(0int));
    let c2 = alias_contribution(mods, r2, a2, es);
    assert(t1[0] == es);
    assert(resolve_spec(c, t1, 1, all_false(2)) == seq![c2]);
    assert(join_path(h, a2) != join_path(h, a1)) by {
        law_alias_keys_distinct(h, a2, a1);
    }
    assert(lookup_from(t1, join_path(h, a2), 2) is None);
    assert(lookup_from(t1, join_path(h, a2), 1) is None);
    assert(merge_all(t1, seq![c2]) == t1.push(c2)) by {
        assert(seq![c2].drop_last() =~= Seq::<EntryView>::empty());
        assert(merge_all(t1, Seq::<EntryView>::empty()) == t1);
    }
    let t2 = t1.push(c2);
    assert(resolve_all(c, t0, 2) == t2);
    // The visibility filter keeps every row: both modules are public.
    assert(is_public_name(mods, o)) by {
        assert(mods[0].name == o);
    }
    assert(is_public_name(mods, h)) by {
        assert(mods[1].name == h);
    }
    assert(filter_public(mods, Seq::<Seq<char>>::empty()) == Seq::<Seq<char>>::empty());
    assert(filter_public(mods, seq![o]) == seq![o]) by {
        assert(seq![o].drop_last() =~= Seq::<Seq<char>>::empty());
        assert(seq![o].last() == o);
        assert(Seq::<Seq<char>>::empty().push(o) =~= seq![o]);
    }
    assert(filter_public(mods, seq![h]) == seq![h]) by {
        assert(seq![h].drop_last() =~= Seq::<Seq<char>>::empty());
        assert(seq![h].last() == h);
        assert(Seq::<Seq<char>>::empty().push(h) =~= seq![h]);
    }
    assert(t2.drop_last() == t1);
    assert(t1.drop_last() == t0);
    assert(t0.drop_last() =~= Seq::<EntryView>::empty());
    let pd = public_declarations(mods, t2);
    assert(c1.decl.modules == seq![h]);
    assert(c2.decl.modules == seq![h]);
    let d0 = DeclarationView { symbol: s, modules: seq![o] };
    let d1 = DeclarationView { symbol: c1.decl.symbol, modules: seq![h] };
    let d2 = DeclarationView { symbol: c2.decl.symbol, modules: seq![h] };
    assert(public_declarations(mods, Seq::<EntryView>::empty()) == Seq::<DeclarationView>::empty());
    assert(t0.last() == es);
    assert(public_declarations(mods, t0) == seq![d0]) by {
        assert(Seq::<DeclarationView>::empty().push(d0) =~= seq![d0]);
    }
    assert(t1.last() == c1);
    assert(public_declarations(mods, t1) == seq![d0].push(d1));
    assert(t2.last() == c2);
    assert(public_declarations(mods, t2) == seq![d0].push(d1).push(d2));
    assert(resolution_spec(mods) == public_declarations(mods, t2));
}

} // verus!

verus! {

/// A package whose root defines one public item `f` and whose public child
/// module re-exports it with `pub use super::f;` has exactly two namespaces,
/// the root's and the child's, each listing `f` once with its own source.
pub proof fn law_reexport_through_child(package: Seq<char>, child: Seq<char>, f: SymbolView)
    requires
        child.len() > 0,
        rfind_sep_before(child, child.len() as int) < 0,
    ensures
        ({
            let q = super_marker() + f.name;
            let mods = seq![
                ModuleView { name: Seq::empty(), is_public: true, doc: None, items: seq![ItemView::Def(f)] },
                ModuleView { name: child, is_public: true, doc: None, items: seq![ItemView::Reexport(q, ImportKind::Simple)] },
            ];
            let c = sanitised(package);
            api_namespaces(mods, package) == seq![
                NamespaceView { name: c, symbols: seq![f], doc_comment: None },
                NamespaceView { name: namespace_name(c, child), symbols: seq![f], doc_comment: None },
            ]
        }),
{
    let q = super_marker() + f.name;
    let root: Seq<char> = Seq::empty();
    let m0 = ModuleView { name: root, is_public: true, doc: None, items: seq![ItemView::Def(f)] };
    let m1 = ModuleView { name: child, is_public: true, doc: None, items: seq![ItemView::Reexport(q, ImportKind::Simple)] };
    let mods = seq![m0, m1];
    assert(mods[0] == m0 && mods[1] == m1);
    // Normalisation of `super::f` from the child.
    assert(q.subrange(0, 7) =~= super_marker());
    assert(starts_with(q, super_marker()));
    assert(!starts_with(q, crate_marker())) by {
        if starts_with(q, crate_marker()) {
            assert(q.subrange(0, 7)[0] == 'c');
        }
    }
    assert(q.subrange(7, q.len() as int) =~= f.name);
    assert(normalise(q, child) == Some(f.name));
    let r = ReferenceView { path: f.name, host: child, kind: ImportKind::Simple };
    // Seeding.
    let es = EntryView { key: f.name, decl: DeclarationView { symbol: f, modules: seq![root] } };
    assert(join_path(root, f.name) == f.name);
    assert(lookup_from(Seq::<EntryView>::empty(), f.name, 0) is None);
    assert(seed_table(mods, 1) == seq![es]) by {
        assert(seed_table(mods, 0) == Seq::<EntryView>::empty());
        assert(seed_module(Seq::empty(), m0, 0) == Seq::<EntryView>::empty());
        assert(seed_module(Seq::empty(), m0, 1) == put(Seq::empty(), es));
        assert(Seq::<EntryView>::empty().push(es) =~= seq![es]);
    }
    assert(seed_table(mods, 2) == seq![es]) by {
        assert(seed_module(seq![es], m1, 0) == seq![es]);
        assert(seed_module(seq![es], m1, 1) == seq![es]);
    }
    assert(all_refs(mods, 1) == Seq::<ReferenceView>::empty()) by {
        assert(all_refs(mods, 0) == Seq::<ReferenceView>::empty());
        assert(module_refs(m0, 0) == Seq::<ReferenceView>::empty());
        assert(module_refs(m0, 1) == Seq::<ReferenceView>::empty());
        assert(Seq::<ReferenceView>::empty() + Seq::<ReferenceView>::empty() =~= Seq::<ReferenceView>::empty());
    }
    assert(module_refs(m1, 1) == seq![r]) by {
        assert(module_refs(m1, 0) == Seq::<ReferenceView>::empty());
        assert(normalised(q, child) == f.name);
        assert(Seq::<ReferenceView>::empty().push(r) =~= seq![r]);
    }
    assert(all_refs(mods, 2) == seq![r]) by {
        assert(Seq::<ReferenceView>::empty() + seq![r] =~= seq![r]);
    }
    let c = context(mods);
    assert(c.refs == seq![r]);
    // Resolution of the re-export.
    let t0 = seq![es];
    assert(join_path(child, f.name) != f.name) by {
        assert(join_path(child, f.name).len() > f.name.len());
    }
    assert(lookup_from(t0, join_path(child, f.name), 1) is None);
    assert(lookup(t0, join_path(child, f.name)) is None);
    assert(lookup(t0, f.name) == Some(0int));
    let ext = extended(es, child);
    assert(resolve_spec(c, t0, 0, all_false(1)) == seq![ext]);
    assert(reference_outcome(c, t0, 0) == seq![ext]);
    assert(ext.decl.modules == seq![root, child]);
    let both = seq![root, child];
    assert(union(seq![root], both) == both) by {
        assert(both.drop_last() =~= seq![root]);
        assert(seq![root].drop_last() =~= Seq::<Seq<char>>::empty());
        assert(union(seq![root], Seq::<Seq<char>>::empty()) == seq![root]);
        assert(seq![root][0] == root);
        assert(union(seq![root], seq![root]) == seq![root]);
        assert(!seq![root].contains(child)) by {
            if seq![root].contains(child) {
                assert(seq![root][0] == child);
            }
        }
        assert(seq![root].push(child) =~= both);
    }
    let row = EntryView { key: f.name, decl: DeclarationView { symbol: f, modules: both } };
    assert(merge_all(t0, seq![ext]) == seq![row]) by {
        assert(seq![ext].drop_last() =~= Seq::<EntryView>::empty());
        assert(merge_all(t0, Seq::<EntryView>::empty()) == t0);
        assert(merge_one(t0, ext) == t0.update(0, row));
        assert(t0.update(0, row) =~= seq![row]);
    }
    assert(resolve_all(c, t0, 1) == seq![row]) by {
        assert(resolve_all(c, t0, 0) == t0);
    }
    // Visibility: both modules are public.
    assert(is_public_name(mods, child)) by {
        assert(mods[1].name == child);
    }
    assert(filter_public(mods, both) == both) by {
        assert(both.drop_last() =~= seq![root]);
        assert(seq![root].drop_last() =~= Seq::<Seq<char>>::empty());
        assert(filter_public(mods, Seq::<Seq<char>>::empty()) == Seq::<Seq<char>>::empty());
        assert(filter_public(mods, seq![root]) == seq![root]) by {
            assert(Seq::<Seq<char>>::empty().push(root) =~= seq![root]);
        }
        assert(seq![root].push(child) =~= both);
    }
    let d = DeclarationView { symbol: f, modules: both };
    assert(public_declarations(mods, seq![row]) == seq![d]) by {
        assert(seq![row].drop_last() =~= Seq::<EntryView>::empty());
        assert(public_declarations(mods, Seq::<EntryView>::empty()) == Seq::<DeclarationView>::empty());
        assert(Seq::<DeclarationView>::empty().push(d) =~= seq![d]);
    }
    assert(resolution_spec(mods) == seq![d]);
    // Documentation: none.
    assert(docs_spec(mods, 2) == Seq::<(Seq<char>, Seq<char>)>::empty()) by {
        assert(docs_spec(mods, 0) == Seq::<(Seq<char>, Seq<char>)>::empty());
        assert(docs_spec(mods, 1) == Seq::<(Seq<char>, Seq<char>)>::empty());
    }
    let docs = Seq::<(Seq<char>, Seq<char>)>::empty();
    // Grouping.
    let pkg = sanitised(package);
    let ns0 = NamespaceView { name: pkg, symbols: seq![f], doc_comment: None };
    let ns1 = NamespaceView { name: namespace_name(pkg, child), symbols: seq![f], doc_comment: None };
    assert(namespace_name(pkg, root) == pkg);
    assert(doc_lookup(docs, root, 0) is None);
    assert(doc_lookup(docs, child, 0) is None);
    assert(find_namespace(Seq::<NamespaceView>::empty(), pkg, 0) is None);
    assert(group_declaration(Seq::empty(), d, pkg, docs, 0) == Seq::<NamespaceView>::empty());
    assert(group_declaration(Seq::empty(), d, pkg, docs, 1) == seq![ns0]) by {
        assert(Seq::<NamespaceView>::empty().push(ns0) =~= seq![ns0]);
    }
    assert(namespace_name(pkg, child) != pkg) by {
        assert(namespace_name(pkg, child).len() > pkg.len());
    }
    assert(find_namespace(seq![ns0], namespace_name(pkg, child), 1) is None);
    assert(find_namespace(seq![ns0], namespace_name(pkg, child), 0) is None);
    assert(group_declaration(Seq::empty(), d, pkg, docs, 2) == seq![ns0, ns1]) by {
        assert(seq![ns0].push(ns1) =~= seq![ns0, ns1]);
    }
    assert(group_all(seq![d], pkg, docs, 0) == Seq::<NamespaceView>::empty());
    assert(group_all(seq![d], pkg, docs, 1) == seq![ns0, ns1]);
}

} // verus!

verus! {

/// The row that definition `s` of module `m` seeds.
pub open spec fn seeded_row(m: Seq<char>, s: SymbolView) -> EntryView {
    EntryView { key: join_path(m, s.name), decl: DeclarationView { symbol: s, modules: seq![m] } }
}

/// The definitions `defs`, as module items.
pub open spec fn def_items(defs: Seq<SymbolView>) -> Seq<ItemView> {
    defs.map_values(|s: SymbolView| ItemView::Def(s))
}

pub open spec fn names_distinct_in(defs: Seq<SymbolView>) -> bool {
    forall|i: int, j: int| 0 <= i < j < defs.len() ==> defs[i].name != defs[j].name
}

proof fn lemma_lookup_at(t: Seq<EntryView>, key: Seq<char>, i: int, k: int)
    requires
        0 <= i <= k < t.len(),
        t[k].key == key,
        forall|x: int| i <= x < k ==> t[x].key != key,
    ensures
        lookup_from(t, key, i) == Some(k),
    decreases k - i,
{
    if i < k {
        lemma_lookup_at(t, key, i + 1, k);
    }
}

proof fn lemma_lookup_absent(t: Seq<EntryView>, key: Seq<char>, i: int)
    requires
        0 <= i,
        forall|x: int| i <= x < t.len() ==> t[x].key != key,
    ensures
        lookup_from(t, key, i) is None,
    decreases t.len() - i,
{
    if i < t.len() {
        lemma_lookup_absent(t, key, i + 1);
    }
}

proof fn lemma_seed_defs(m: ModuleView, defs: Seq<SymbolView>, k: int)
    requires
        m.items == def_items(defs),
        names_distinct_in(defs),
        0 <= k <= defs.len(),
    ensures
        seed_module(Seq::empty(), m, k) == Seq::new(k as nat, |i: int| seeded_row(m.name, defs[i])),
        module_refs(m, k) == Seq::<ReferenceView>::empty(),
        module_seeds(m, 1, k) == Seq::new(k as nat, |i: int| SeedView::Def(defs[i])),
    decreases k,
{
    if k > 0 {
        lemma_seed_defs(m, defs, k - 1);
        let prev = Seq::new((k - 1) as nat, |i: int| seeded_row(m.name, defs[i]));
        assert(m.items[k - 1] == ItemView::Def(defs[k - 1]));
        assert forall|x: int| 0 <= x < prev.len() implies prev[x].key != join_path(m.name, defs[k - 1].name) by {
            law_alias_keys_distinct(m.name, defs[x].name, defs[k - 1].name);
        }
        lemma_lookup_absent(prev, join_path(m.name, defs[k - 1].name), 0);
        assert(prev.push(seeded_row(m.name, defs[k - 1])) =~= Seq::new(k as nat, |i: int| seeded_row(m.name, defs[i])));
        assert(Seq::new((k - 1) as nat, |i: int| SeedView::Def(defs[i])).push(SeedView::Def(defs[k - 1])) =~= Seq::new(k as nat, |i: int| SeedView::Def(defs[i])));
    }
}

proof fn lemma_merge_defs(t: Seq<EntryView>, cs: Seq<EntryView>, m: Seq<char>, h: Seq<char>, defs: Seq<SymbolView>, k: int)
    requires
        m != h,
        names_distinct_in(defs),
        0 <= k <= defs.len(),
        t == Seq::new(defs.len(), |i: int| seeded_row(m, defs[i])),
        cs.len() == defs.len(),
        forall|q: int| 0 <= q < cs.len() ==> #[trigger] cs[q] == def_contribution(m, defs[q], h),
    ensures
        merge_all(t, cs.take(k)) == Seq::new(defs.len(), |i: int| if i < k {
            EntryView { key: join_path(m, defs[i].name), decl: DeclarationView { symbol: defs[i], modules: seq![m, h] } }
        } else {
            seeded_row(m, defs[i])
        }),
    decreases k,
{
    let row = |i: int, j: int| if i < j {
        EntryView { key: join_path(m, defs[i].name), decl: DeclarationView { symbol: defs[i], modules: seq![m, h] } }
    } else {
        seeded_row(m, defs[i])
    };
    if k == 0 {
        assert(cs.take(0) =~= Seq::<EntryView>::empty());
        assert(merge_all(t, Seq::<EntryView>::empty()) == t);
        assert(merge_all(t, cs.take(k)) =~= Seq::new(defs.len(), |i: int| if i < k {
            EntryView { key: join_path(m, defs[i].name), decl: DeclarationView { symbol: defs[i], modules: seq![m, h] } }
        } else {
            seeded_row(m, defs[i])
        }));
    } else {
        lemma_merge_defs(t, cs, m, h, defs, k - 1);
        assert(cs.take(k).drop_last() =~= cs.take(k - 1));
        assert(cs.take(k).last() == cs[k - 1]);
        let cur = Seq::new(defs.len(), |i: int| row(i, k - 1));
        let key = join_path(m, defs[k - 1].name);
        assert forall|x: int| 0 <= x < k - 1 implies cur[x].key != key by {
            law_alias_keys_distinct(m, defs[x].name, defs[k - 1].name);
        }
        lemma_lookup_at(cur, key, 0, k - 1);
        assert(union(seq![m], seq![m, h]) == seq![m, h]) by {
            assert(seq![m, h].drop_last() =~= seq![m]);
            assert(seq![m].drop_last() =~= Seq::<Seq<char>>::empty());
            assert(union(seq![m], Seq::<Seq<char>>::empty()) == seq![m]);
            assert(seq![m][0] == m);
            assert(union(seq![m], seq![m]) == seq![m]);
            assert(!seq![m].contains(h)) by {
                if seq![m].contains(h) {
                    assert(seq![m][0] == h);
                }
            }
            assert(seq![m].push(h) =~= seq![m, h]);
        }
        assert(merge_all(t, cs.take(k - 1)) =~= cur);
        assert(cur[k - 1] == seeded_row(m, defs[k - 1]));
        assert(cs[k - 1].decl.modules == seq![m, h]);
        assert(merge_one(cur, cs[k - 1]) =~= Seq::new(defs.len(), |i: int| row(i, k)));
        assert(merge_all(t, cs.take(k)) == merge_one(merge_all(t, cs.take(k - 1)), cs[k - 1]));
        assert(merge_all(t, cs.take(k)) =~= Seq::new(defs.len(), |i: int| if i < k {
            EntryView { key: join_path(m, defs[i].name), decl: DeclarationView { symbol: defs[i], modules: seq![m, h] } }
        } else {
            seeded_row(m, defs[i])
        }));
    }
}

proof fn lemma_public_defs(mods: Seq<ModuleView>, m: Seq<char>, h: Seq<char>, defs: Seq<SymbolView>, k: int)
    requires
        !is_public_name(mods, m),
        is_public_name(mods, h),
        0 <= k <= defs.len(),
    ensures
        public_declarations(mods, Seq::new(k as nat, |i: int| EntryView {
            key: join_path(m, defs[i].name),
            decl: DeclarationView { symbol: defs[i], modules: seq![m, h] },
        })) == Seq::new(k as nat, |i: int| DeclarationView { symbol: defs[i], modules: seq![h] }),
    decreases k,
{
    let t = Seq::new(k as nat, |i: int| EntryView {
        key: join_path(m, defs[i].name),
        decl: DeclarationView { symbol: defs[i], modules: seq![m, h] },
    });
    if k == 0 {
        assert(t =~= Seq::<EntryView>::empty());
        assert(Seq::new(0, |i: int| DeclarationView { symbol: defs[i], modules: seq![h] }) =~= Seq::<DeclarationView>::empty());
    } else {
        lemma_public_defs(mods, m, h, defs, k - 1);
        assert(t.drop_last() =~= Seq::new((k - 1) as nat, |i: int| EntryView {
            key: join_path(m, defs[i].name),
            decl: DeclarationView { symbol: defs[i], modules: seq![m, h] },
        }));
        assert(filter_public(mods, seq![m, h]) == seq![h]) by {
            assert(seq![m, h].drop_last() =~= seq![m]);
            assert(seq![m].drop_last() =~= Seq::<Seq<char>>::empty());
            assert(filter_public(mods, Seq::<Seq<char>>::empty()) == Seq::<Seq<char>>::empty());
            assert(filter_public(mods, seq![m]) == Seq::<Seq<char>>::empty());
            assert(Seq::<Seq<char>>::empty().push(h) =~= seq![h]);
        }
        assert(Seq::new((k - 1) as nat, |i: int| DeclarationView { symbol: defs[i], modules: seq![h] }).push(
            DeclarationView { symbol: defs[k - 1], modules: seq![h] },
        ) =~= Seq::new(k as nat, |i: int| DeclarationView { symbol: defs[i], modules: seq![h] }));
    }
}

/// Wildcard fanout: a public module `h` whose only item is `pub use p::*;`,
/// where `p` names a private module `m` that defines exactly `defs` (with
/// distinct names, at least one): resolution gives exactly the symbols of
/// `defs`, in order,
/// with their own source, each visible at `h` alone.
pub proof fn law_wildcard_fanout_resolution(h: Seq<char>, p: Seq<char>, m: Seq<char>, defs: Seq<SymbolView>)
    requires
        m.len() > 0,
        m != h,
        normalise(p, h) == Some(p),
        qualify(p, h) == m,
        names_distinct_in(defs),
        defs.len() > 0,
    ensures
        resolution_spec(seq![
            ModuleView { name: h, is_public: true, doc: None, items: seq![ItemView::Reexport(p, ImportKind::Wildcard)] },
            ModuleView { name: m, is_public: false, doc: None, items: def_items(defs) },
        ]) == Seq::new(defs.len(), |i: int| DeclarationView { symbol: defs[i], modules: seq![h] }),
{
    let mh = ModuleView { name: h, is_public: true, doc: None, items: seq![ItemView::Reexport(p, ImportKind::Wildcard)] };
    let mm = ModuleView { name: m, is_public: false, doc: None, items: def_items(defs) };
    let mods = seq![mh, mm];
    let n = defs.len() as int;
    assert(mods[0] == mh && mods[1] == mm);
    let r = ReferenceView { path: p, host: h, kind: ImportKind::Wildcard };
    // The first module seeds nothing and makes the one reference.
    assert(seed_module(Seq::empty(), mh, 0) == Seq::<EntryView>::empty());
    assert(seed_module(Seq::empty(), mh, 1) == Seq::<EntryView>::empty());
    assert(seed_table(mods, 0) == Seq::<EntryView>::empty());
    assert(seed_table(mods, 1) == Seq::<EntryView>::empty());
    assert(module_refs(mh, 0) == Seq::<ReferenceView>::empty());
    assert(normalised(p, h) == p);
    assert(module_refs(mh, 1) == seq![r]) by {
        assert(Seq::<ReferenceView>::empty().push(r) =~= seq![r]);
    }
    assert(all_refs(mods, 0) == Seq::<ReferenceView>::empty());
    assert(all_refs(mods, 1) == seq![r]) by {
        assert(Seq::<ReferenceView>::empty() + seq![r] =~= seq![r]);
    }
    assert(mm.items.len() == n);
    lemma_seed_defs(mm, defs, n);
    let t = Seq::new(n as nat, |i: int| seeded_row(m, defs[i]));
    assert(seed_table(mods, 2) == t);
    assert(all_refs(mods, 2) == seq![r]) by {
        assert(seq![r] + Seq::<ReferenceView>::empty() =~= seq![r]);
    }
    assert(module_seeds(mh, 0, 1) == seq![SeedView::Ref(0)]) by {
        assert(module_seeds(mh, 0, 0) == Seq::<SeedView>::empty());
        assert(module_refs(mh, 0).len() == 0);
        assert(Seq::<SeedView>::empty().push(SeedView::Ref(0)) =~= seq![SeedView::Ref(0)]);
    }
    let sd = Seq::new(n as nat, |i: int| SeedView::Def(defs[i]));
    assert(all_seeds(mods, 1) == seq![seq![SeedView::Ref(0)]]) by {
        assert(all_seeds(mods, 0) == Seq::<Seq<SeedView>>::empty());
        assert(Seq::<Seq<SeedView>>::empty().push(seq![SeedView::Ref(0)]) =~= seq![seq![SeedView::Ref(0)]]);
    }
    assert(all_seeds(mods, 2) == seq![seq![SeedView::Ref(0)], sd]) by {
        assert(all_refs(mods, 1).len() == 1);
        assert(seq![seq![SeedView::Ref(0)]].push(sd) =~= seq![seq![SeedView::Ref(0)], sd]);
    }
    let c = context(mods);
    assert(c.refs == seq![r]);
    assert(c.seeds[1] == sd);
    // The wildcard reaches the second module.
    assert(find_module_from(mods, m, 1) == Some(1int));
    assert(find_module_from(mods, m, 0) == Some(1int));
    let v2 = all_false(1).update(0, true);
    assert forall|q: int| 0 <= q < c.seeds[1].len() implies #[trigger] c.seeds[1][q] is Def by {}
    lemma_expand_defs(c, t, 1, n, v2, h);
    let cs = resolve_spec(c, t, 0, all_false(1));
    assert(cs == expand_spec(c, t, 1, n, v2, h));
    assert forall|q: int| 0 <= q < cs.len() implies #[trigger] cs[q] == def_contribution(m, defs[q], h) by {
        assert(c.seeds[1][q] == SeedView::Def(defs[q]));
    }
    assert(reference_outcome(c, t, 0) == cs);
    // Merging.
    lemma_merge_defs(t, cs, m, h, defs, n);
    assert(cs.take(n) =~= cs);
    let merged = Seq::new(n as nat, |i: int| EntryView {
        key: join_path(m, defs[i].name),
        decl: DeclarationView { symbol: defs[i], modules: seq![m, h] },
    });
    assert(merge_all(t, cs) =~= merged);
    assert(resolve_all(c, t, 1) == merged) by {
        assert(resolve_all(c, t, 0) == t);
    }
    // Visibility: `m` is private, `h` public.
    assert(!is_public_name(mods, m)) by {
        assert forall|k: int| 0 <= k < mods.len() && mods[k].is_public implies mods[k].name != m by {
            if k == 1 {
                assert(!mods[1].is_public);
            }
        }
    }
    assert(is_public_name(mods, h)) by {
        if h.len() > 0 {
            assert(mods[0].is_public && mods[0].name == h);
        }
    }
    lemma_public_defs(mods, m, h, defs, n);
    assert(resolution_spec(mods) == public_declarations(mods, merged));
}

} // verus!

verus! {

/// How many of the first `k` module paths of `ms` give the namespace `name`.
pub open spec fn hits(package: Seq<char>, name: Seq<char>, ms: Seq<Seq<char>>, k: int) -> nat
    decreases k,
{
    if k <= 0 || k > ms.len() {
        0
    } else {
        hits(package, name, ms, k - 1) + if namespace_name(package, ms[k - 1]) == name {
            1nat
        } else {
            0nat
        }
    }
}

/// The symbols that the first `n` declarations put in namespace `name`, in
/// the order of the declarations.
pub open spec fn listed_symbols(decls: Seq<DeclarationView>, package: Seq<char>, name: Seq<char>, n: int) -> Seq<SymbolView>
    decreases n,
{
    if n <= 0 || n > decls.len() {
        Seq::empty()
    } else {
        listed_symbols(decls, package, name, n - 1) + Seq::new(
            hits(package, name, decls[n - 1].modules, decls[n - 1].modules.len() as int),
            |q: int| decls[n - 1].symbol,
        )
    }
}

/// The symbols of the namespace named `name`, none when there is no such namespace.
pub open spec fn symbols_of(nss: Seq<NamespaceView>, name: Seq<char>) -> Seq<SymbolView> {
    match find_namespace(nss, name, 0) {
        Some(i) => nss[i].symbols,
        None => Seq::empty(),
    }
}

proof fn lemma_find_namespace_at(nss: Seq<NamespaceView>, name: Seq<char>, i: int, k: int)
    requires
        0 <= i <= k < nss.len(),
        nss[k].name == name,
        forall|x: int| i <= x < k ==> nss[x].name != name,
    ensures
        find_namespace(nss, name, i) == Some(k),
    decreases k - i,
{
    if i < k {
        lemma_find_namespace_at(nss, name, i + 1, k);
    }
}

proof fn lemma_find_namespace_first(nss: Seq<NamespaceView>, name: Seq<char>, j: int)
    requires
        0 <= j,
    ensures
        find_namespace(nss, name, j) matches Some(i) ==> forall|x: int| j <= x < i ==> nss[x].name != name,
    decreases nss.len() - j,
{
    if j < nss.len() && nss[j].name != name {
        lemma_find_namespace_first(nss, name, j + 1);
    }
}

proof fn lemma_find_namespace_none(nss: Seq<NamespaceView>, name: Seq<char>, i: int)
    requires
        0 <= i,
        forall|x: int| i <= x < nss.len() ==> nss[x].name != name,
    ensures
        find_namespace(nss, name, i) is None,
    decreases nss.len() - i,
{
    if i < nss.len() {
        lemma_find_namespace_none(nss, name, i + 1);
    }
}

proof fn lemma_add_symbol(nss: Seq<NamespaceView>, nm: Seq<char>, s: SymbolView, doc: Option<Seq<char>>, name: Seq<char>)
    ensures
        symbols_of(add_symbol(nss, nm, s, doc), name) == if nm == name {
            symbols_of(nss, name).push(s)
        } else {
            symbols_of(nss, name)
        },
{
    let new = add_symbol(nss, nm, s, doc);
    lemma_find_namespace(nss, nm, 0);
    lemma_find_namespace(nss, name, 0);
    lemma_find_namespace_first(nss, name, 0);
    assert forall|x: int| 0 <= x < nss.len() implies new[x].name == nss[x].name by {}
    match find_namespace(nss, nm, 0) {
        Some(k) => {
            assert(new.len() == nss.len());
            assert forall|x: int| 0 <= x < new.len() implies new[x].name == nss[x].name by {}
            match find_namespace(nss, name, 0) {
                Some(i) => {
                    lemma_find_namespace_at(new, name, 0, i);
                },
                None => {
                    lemma_find_namespace_none(new, name, 0);
                },
            }
        },
        None => {
            match find_namespace(nss, name, 0) {
                Some(i) => {
                    lemma_find_namespace_at(new, name, 0, i);
                },
                None => {
                    if nm == name {
                        lemma_find_namespace_at(new, name, 0, nss.len() as int);
                        assert(seq![s] =~= Seq::<SymbolView>::empty().push(s));
                    } else {
                        lemma_find_namespace_none(new, name, 0);
                    }
                },
            }
        },
    }
}

proof fn lemma_group_declaration_symbols(
    nss: Seq<NamespaceView>,
    d: DeclarationView,
    package: Seq<char>,
    docs: Seq<(Seq<char>, Seq<char>)>,
    name: Seq<char>,
    k: int,
)
    requires
        0 <= k <= d.modules.len(),
    ensures
        symbols_of(group_declaration(nss, d, package, docs, k), name) == symbols_of(nss, name) + Seq::new(
            hits(package, name, d.modules, k),
            |q: int| d.symbol,
        ),
    decreases k,
{
    if k == 0 {
        assert(symbols_of(nss, name) + Seq::new(0, |q: int| d.symbol) =~= symbols_of(nss, name));
    } else {
        lemma_group_declaration_symbols(nss, d, package, docs, name, k - 1);
        let prev = group_declaration(nss, d, package, docs, k - 1);
        lemma_add_symbol(prev, namespace_name(package, d.modules[k - 1]), d.symbol, doc_lookup(docs, d.modules[k - 1], 0), name);
        let a = Seq::new(hits(package, name, d.modules, k - 1), |q: int| d.symbol);
        let b = Seq::new(hits(package, name, d.modules, k), |q: int| d.symbol);
        if namespace_name(package, d.modules[k - 1]) == name {
            assert((symbols_of(nss, name) + a).push(d.symbol) =~= symbols_of(nss, name) + b);
        } else {
            assert(a =~= b);
        }
    }
}

/// Within each namespace, symbols come in the order of the resolved
/// declarations that list its module path (once per listing).
pub proof fn law_namespace_symbol_order(
    decls: Seq<DeclarationView>,
    package: Seq<char>,
    docs: Seq<(Seq<char>, Seq<char>)>,
    name: Seq<char>,
    n: int,
)
    requires
        0 <= n <= decls.len(),
    ensures
        symbols_of(group_all(decls, package, docs, n), name) == listed_symbols(decls, package, name, n),
    decreases n,
{
    if n == 0 {
        lemma_find_namespace_none(Seq::<NamespaceView>::empty(), name, 0);
    } else {
        law_namespace_symbol_order(decls, package, docs, name, n - 1);
        lemma_group_declaration_symbols(
            group_all(decls, package, docs, n - 1),
            decls[n - 1],
            package,
            docs,
            name,
            decls[n - 1].modules.len() as int,
        );
    }
}

} // verus!

verus! {

pub open spec fn rows_kept(t: Seq<EntryView>, u: Seq<EntryView>) -> bool {
    &&& t.len() <= u.len()
    &&& forall|k: int| 0 <= k < t.len() ==> #[trigger] u[k].key == t[k].key && u[k].decl.symbol == t[k].decl.symbol
}

proof fn lemma_merge_keeps_rows(t: Seq<EntryView>, cs: Seq<EntryView>)
    ensures
        rows_kept(t, merge_all(t, cs)),
    decreases cs.len(),
{
    if cs.len() > 0 {
        lemma_merge_keeps_rows(t, cs.drop_last());
        let prev = merge_all(t, cs.drop_last());
        let next = merge_one(prev, cs.last());
        crate::symbol_resolution::lemma_lookup_bounds_pub(prev, cs.last().key);
        assert forall|k: int| 0 <= k < t.len() implies #[trigger] next[k].key == t[k].key && next[k].decl.symbol == t[k].decl.symbol by {
            assert(prev[k].key == t[k].key);
        }
    }
}

/// Resolution keeps the seeded rows in place, in source order: it only widens
/// their module lists and adds rows after them, so the declarations of a
/// module keep the order in which the module defines them.
pub proof fn law_rows_keep_order(c: Ctx, t: Seq<EntryView>, n: int)
    ensures
        rows_kept(t, resolve_all(c, t, n)),
    decreases n,
{
    if n > 0 {
        law_rows_keep_order(c, t, n - 1);
        let prev = resolve_all(c, t, n - 1);
        lemma_merge_keeps_rows(prev, reference_outcome(c, prev, n - 1));
        let next = resolve_all(c, t, n);
        assert forall|k: int| 0 <= k < t.len() implies #[trigger] next[k].key == t[k].key && next[k].decl.symbol == t[k].decl.symbol by {
            assert(prev[k].key == t[k].key);
        }
    }
}

} // verus!
