//! The whole extraction: from the package's source files to its namespaces.

use vstd::prelude::*;

use crate::module_directory::{
    all_directory_modules, dirs_view, extract_modules, lemma_all_directory_modules_view,
    modules_of_directories, DirView, ModuleView,
};
use crate::namespace_construction::{
    construct_namespaces, group_all, lemma_group_all_prefix, namespaces_view, sanitised,
    sorted_by_name,
};
use crate::symbol_collection::{
    collect_module_directories, collection, kind_of, lemma_file_index_absent, parsed_content,
    parse_sources, ParsedSources, SourceTree,
};
use crate::symbol_resolution::strings_view;
use crate::text::starts_with;
use crate::symbol_resolution::{docs_spec, has_bad_item, resolution_spec, resolve_symbols};
use crate::types::{ExtractionError, Namespace, NamespaceView};

verus! {

/// The namespaces, in order of first appearance, of a package made of `mods`.
pub open spec fn api_namespaces(mods: Seq<ModuleView>, package: Seq<char>) -> Seq<NamespaceView> {
    let d = resolution_spec(mods);
    group_all(d, sanitised(package), docs_spec(mods, mods.len() as int), d.len() as int)
}

/// Whether `ns` holds exactly the namespaces of `g`, sorted by depth and name.
pub open spec fn sorted_arrangement(ns: Seq<NamespaceView>, g: Seq<NamespaceView>) -> bool {
    &&& ns.len() == g.len()
    &&& sorted_by_name(ns)
    &&& forall|x: NamespaceView| g.contains(x) <==> ns.contains(x)
}

/// The flat modules of the directories that collection gives.
pub open spec fn collected_modules(dv: Seq<DirView>) -> Seq<ModuleView> {
    modules_of_directories(dv, dv.len() as int)
}

/// What the extraction gives for parsed sources `ps`: the collection's error,
/// or, for the directories it collects, `Malformed` exactly when a re-export
/// uses `super::` from the root module, else their namespaces sorted.
pub open spec fn api_outcome(r: Result<Vec<Namespace>, ExtractionError>, ps: ParsedSources, entry: Seq<char>, package: Seq<char>) -> bool {
    &&& (collection(ps, entry) matches Err(k) ==> r matches Err(e) && kind_of(e) == k)
    &&& (collection(ps, entry) matches Ok(dv) ==> {
        &&& (r is Err <==> has_bad_item(collected_modules(dv)))
        &&& (r matches Err(e) ==> e is Malformed)
        &&& (r matches Ok(ns) ==> sorted_arrangement(namespaces_view(ns@), api_namespaces(collected_modules(dv), package)))
    })
}

/// Whether `ps` holds the sources of `tree`, in order, with the same paths and
/// directories, each file's parse as `parsed_content` describes it.
pub open spec fn parsed_from(ps: ParsedSources, tree: SourceTree) -> bool {
    &&& ps.files@.len() == tree.files@.len()
    &&& forall|i: int| 0 <= i < ps.files@.len() ==> #[trigger] ps.files@[i].0@ == tree.files@[i].path@
    &&& forall|i: int| 0 <= i < ps.files@.len() ==> #[trigger] parsed_content(tree.files@[i].content, ps.files@[i].1)
    &&& strings_view(ps.directories@) == strings_view(tree.directories@)
}

/// The namespaces of a package whose files have already been parsed.
///
/// Fails as the collection of its directories fails, and otherwise exactly
/// when a re-export uses `super::` from the root module (with `Malformed`).
pub fn public_api_from_sources(entry_point: &str, crate_name: &str, sources: &ParsedSources) -> (r: Result<Vec<Namespace>, ExtractionError>)
    ensures
        api_outcome(r, *sources, entry_point@, crate_name@),
{
    let directories = match collect_module_directories(entry_point, sources) {
        Ok(d) => d,
        Err(e) => return Err(e),
    };
    let modules = match extract_modules(&directories) {
        Ok(m) => m,
        Err(e) => return Err(e),
    };
    let ghost dirs = directories@;
    let ghost mods = all_directory_modules(dirs, dirs.len() as int);
    proof {
        lemma_all_directory_modules_view(dirs, dirs.len() as int);
        assert(dirs_view(dirs) == collection(*sources, entry_point@)->Ok_0);
        assert(mods == collected_modules(dirs_view(dirs)));
    }
    let resolution = match resolve_symbols(&modules) {
        Ok(res) => res,
        Err(e) => return Err(e),
    };
    let namespaces = construct_namespaces(resolution, crate_name);
    assert(sorted_arrangement(namespaces_view(namespaces@), api_namespaces(mods, crate_name@)));
    Ok(namespaces)
}

/// Extracts the public API of a package: its namespaces, one per public module
/// path at which some symbol is visible, named after the package (with `-`
/// turned into `_`) and sorted by depth, then by name.
///
/// Fails with `Io` when the entry point is not among the sources.
pub fn build_public_api(
    entry_point: &str,
    crate_name: &str,
    sources: &SourceTree,
    parser: &mut tree_sitter::Parser,
) -> (r: Result<Vec<Namespace>, ExtractionError>)
    ensures
        exists|ps: ParsedSources| parsed_from(ps, *sources) && #[trigger] api_outcome(r, ps, entry_point@, crate_name@),
        (forall|i: int| 0 <= i < sources.files@.len() ==> sources.files@[i].path@ != entry_point@) ==> (r matches Err(e) && e is Io),
        r matches Ok(ns) ==> sorted_by_name(namespaces_view(ns@)),
        r matches Ok(ns) ==> forall|i: int| 0 <= i < ns@.len() ==> #[trigger] starts_with(ns@[i].name@, sanitised(crate_name@)),
{
    let parsed = parse_sources(sources, parser);
    proof {
        if forall|i: int| 0 <= i < sources.files@.len() ==> sources.files@[i].path@ != entry_point@ {
            assert forall|i: int| 0 <= i < parsed.files@.len() implies parsed.files@[i].0@ != entry_point@ by {
                assert(parsed.files@[i].0@ == sources.files@[i].path@);
            }
            lemma_file_index_absent(parsed.files@, entry_point@, 0);
        }
    }
    let r = public_api_from_sources(entry_point, crate_name, &parsed);
    assert(parsed_from(parsed, *sources));
    proof {
        match &r {
            Ok(ns) => {
                let mods = collected_modules(collection(parsed, entry_point@)->Ok_0);
                let d = resolution_spec(mods);
                let g = api_namespaces(mods, crate_name@);
                lemma_group_all_prefix(d, sanitised(crate_name@), docs_spec(mods, mods.len() as int), d.len() as int);
                assert forall|i: int| 0 <= i < ns@.len() implies #[trigger] starts_with(ns@[i].name@, sanitised(crate_name@)) by {
                    let nv = namespaces_view(ns@);
                    assert(nv[i] == ns@[i]@);
                    assert(nv.contains(nv[i]));
                    assert(g.contains(nv[i]));
                    let j = choose|j: int| 0 <= j < g.len() && g[j] == nv[i];
                    assert(starts_with(g[j].name, sanitised(crate_name@)));
                }
            },
            Err(_) => {},
        }
    }
    r
}

} // verus!
