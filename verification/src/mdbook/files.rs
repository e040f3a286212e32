//! The source set of a project: which inputs are taken, which files are
//! collected from the directories among them, and the views of the set by
//! file extension.

use vstd::prelude::*;
use vstd::string::*;
use crate::fsnode::{FsNode, TreeView, VisitView};
use crate::paths::{
    clone_names,
    extension_among,
    has_extension_in,
    is_source_file,
    is_source_path,
    join_path,
    joined_path,
    path_names,
};

verus! {

/// Info about user's source files: every file of the source set and every
/// directory on the way to one.
#[derive(Clone, Debug, PartialEq, Eq)]
pub struct SrcFiles {
    pub nodes: FsNode,
}

/// The root of a path tree: a node without a name.
pub open spec fn empty_tree() -> TreeView {
    TreeView::leaf(Seq::empty())
}

/// The paths under which the input `input` is looked for, in the order in
/// which they are tried: the input as given, then the input below each
/// include prefix.
pub open spec fn candidates(input: Seq<char>, includes: Seq<Seq<char>>) -> Seq<Seq<char>> {
    seq![input] + includes.map_values(|prefix: Seq<char>| joined_path(prefix, input))
}

/// Lists the paths under which the input `input` is looked for.
pub fn candidate_paths(input: &str, includes: &Vec<String>) -> (paths: Vec<String>)
    ensures
        paths.deep_view() == candidates(input@, includes.deep_view()),
{
    let mut paths: Vec<String> = Vec::new();
    paths.push(String::from_str(input));
    let mut i: usize = 0;
    while i < includes.len()
        invariant
            i <= includes.len(),
            paths.len() == i + 1,
            paths[0]@ == input@,
            forall|j: int| 0 <= j < i ==> (#[trigger] paths[j + 1])@ == joined_path(
                includes[j]@,
                input@,
            ),
        decreases includes.len() - i,
    {
        paths.push(join_path(includes[i].as_str(), input));
        i += 1;
    }
    proof {
        let wanted = candidates(input@, includes.deep_view());
        assert forall|j: int| 0 <= j < wanted.len() implies paths.deep_view()[j] == wanted[j] by {
            if j > 0 {
                assert(paths[(j - 1) + 1]@ == joined_path(includes[j - 1]@, input@));
            }
        }
    }
    paths
}

/// `i` is the position of the first `true` in `found`.
pub open spec fn is_first_true(found: Seq<bool>, i: int) -> bool {
    &&& 0 <= i < found.len()
    &&& found[i]
    &&& forall|j: int| 0 <= j < i ==> !found[j]
}

/// The position of the first `true` in `found`.
pub open spec fn first_true(found: Seq<bool>) -> Option<int> {
    if exists|i: int| is_first_true(found, i) {
        Some(choose|i: int| is_first_true(found, i))
    } else {
        None
    }
}

/// The path taken for the input `input`, where `found` says of each
/// candidate path in turn whether it exists: the first candidate that
/// exists, or none. Candidates of which `found` says nothing count as
/// missing.
pub open spec fn resolved_input(input: Seq<char>, includes: Seq<Seq<char>>, found: Seq<bool>)
    -> Option<Seq<char>> {
    match first_true(found) {
        Some(k) => if k < candidates(input, includes).len() {
            Some(candidates(input, includes)[k])
        } else {
            None
        },
        None => None,
    }
}

/// Resolves the input `input` against the include prefixes. `found` says of
/// each candidate path, in the order of `candidate_paths`, whether it
/// exists. An input that exists as given is taken as given; otherwise the
/// first prefix below which it exists is adopted; otherwise the input is
/// dropped.
pub fn resolve_input(input: &str, includes: &Vec<String>, found: &Vec<bool>) -> (resolved:
    Option<String>)
    ensures
        resolved.deep_view() == resolved_input(input@, includes.deep_view(), found@),
{
    let paths = candidate_paths(input, includes);
    let mut i: usize = 0;
    while i < found.len()
        invariant
            i <= found.len(),
            paths.deep_view() == candidates(input@, includes.deep_view()),
            forall|j: int| 0 <= j < i ==> !found[j],
        decreases found.len() - i,
    {
        if found[i] {
            proof {
                assert(is_first_true(found@, i as int));
                let k = choose|k: int| is_first_true(found@, k);
                assert(k == i);
            }
            if i < paths.len() {
                return Some(paths[i].clone());
            } else {
                return None;
            }
        }
        i += 1;
    }
    proof {
        if first_true(found@) is Some {
            let k = choose|k: int| is_first_true(found@, k);
            assert(is_first_true(found@, k));
        }
    }
    None
}

/// What `found` says of the candidates of the input `k`. An input of which
/// it says nothing was found nowhere.
pub open spec fn found_at(found: Seq<Seq<bool>>, k: int) -> Seq<bool> {
    if 0 <= k < found.len() {
        found[k]
    } else {
        Seq::empty()
    }
}

/// The paths taken for the first `n` inputs, in their order; an input that
/// is found nowhere gives none.
pub open spec fn resolved_inputs(
    inputs: Seq<Seq<char>>,
    includes: Seq<Seq<char>>,
    found: Seq<Seq<bool>>,
    n: int,
) -> Seq<Seq<char>>
    decreases n,
{
    if n <= 0 || n > inputs.len() {
        Seq::empty()
    } else {
        match resolved_input(inputs[n - 1], includes, found_at(found, n - 1)) {
            Some(path) => resolved_inputs(inputs, includes, found, n - 1).push(path),
            None => resolved_inputs(inputs, includes, found, n - 1),
        }
    }
}

/// Those among the first `n` inputs that are found nowhere.
pub open spec fn missing_inputs(
    inputs: Seq<Seq<char>>,
    includes: Seq<Seq<char>>,
    found: Seq<Seq<bool>>,
    n: int,
) -> Seq<Seq<char>>
    decreases n,
{
    if n <= 0 || n > inputs.len() {
        Seq::empty()
    } else {
        match resolved_input(inputs[n - 1], includes, found_at(found, n - 1)) {
            Some(path) => missing_inputs(inputs, includes, found, n - 1),
            None => missing_inputs(inputs, includes, found, n - 1).push(inputs[n - 1]),
        }
    }
}

/// Resolves the inputs against the include prefixes, each as
/// `resolve_input` does. `found` holds for each input what is known of its
/// candidates. The paths taken are handed back, and beside them the inputs
/// that were found nowhere.
pub fn resolve_inputs(inputs: &Vec<String>, includes: &Vec<String>, found: &Vec<Vec<bool>>)
    -> (out: (Vec<String>, Vec<String>))
    ensures
        out.0.deep_view() == resolved_inputs(
            inputs.deep_view(),
            includes.deep_view(),
            found.deep_view(),
            inputs.len() as int,
        ),
        out.1.deep_view() == missing_inputs(
            inputs.deep_view(),
            includes.deep_view(),
            found.deep_view(),
            inputs.len() as int,
        ),
{
    let ghost views = inputs.deep_view();
    let mut resolved: Vec<String> = Vec::new();
    let mut missing: Vec<String> = Vec::new();
    let none: Vec<bool> = Vec::new();
    let mut i: usize = 0;
    while i < inputs.len()
        invariant
            i <= inputs.len(),
            views == inputs.deep_view(),
            none@.len() == 0,
            resolved.deep_view() == resolved_inputs(
                views,
                includes.deep_view(),
                found.deep_view(),
                i as int,
            ),
            missing.deep_view() == missing_inputs(
                views,
                includes.deep_view(),
                found.deep_view(),
                i as int,
            ),
        decreases inputs.len() - i,
    {
        let input = &inputs[i];
        let known: &Vec<bool> = if i < found.len() {
            &found[i]
        } else {
            &none
        };
        assert(known@ =~= found_at(found.deep_view(), i as int));
        match resolve_input(input.as_str(), includes, known) {
            Some(path) => {
                resolved.push(path);
            },
            None => {
                missing.push(input.clone());
            },
        }
        i += 1;
    }
    (resolved, missing)
}

/// The tree of the first `n` inputs: each input is inserted as the branch
/// of its `Normal` components, in the order given.
pub open spec fn inputs_tree(inputs: Seq<Seq<char>>, n: int) -> TreeView
    decreases n,
{
    if n <= 0 || n > inputs.len() {
        empty_tree()
    } else {
        inputs_tree(inputs, n - 1).insert(path_names(inputs[n - 1]))
    }
}

/// Those among the first `n` inputs that were in the tree already when
/// their turn came.
pub open spec fn duplicate_inputs(inputs: Seq<Seq<char>>, n: int) -> Seq<Seq<char>>
    decreases n,
{
    if n <= 0 || n > inputs.len() {
        Seq::empty()
    } else if inputs_tree(inputs, n - 1).contains(path_names(inputs[n - 1])) {
        duplicate_inputs(inputs, n - 1).push(inputs[n - 1])
    } else {
        duplicate_inputs(inputs, n - 1)
    }
}

/// Builds the tree of the inputs. An input that is in the tree already is
/// not inserted again; it is handed back among the duplicates.
pub fn insert_inputs(inputs: &Vec<String>) -> (out: (FsNode, Vec<String>))
    ensures
        out.0@ == inputs_tree(inputs.deep_view(), inputs.len() as int),
        out.0@.wf(),
        out.1.deep_view() == duplicate_inputs(inputs.deep_view(), inputs.len() as int),
{
    let ghost views = inputs.deep_view();
    let mut nodes = FsNode::new(String::new());
    let mut duplicates: Vec<String> = Vec::new();
    let mut i: usize = 0;
    while i < inputs.len()
        invariant
            i <= inputs.len(),
            views == inputs.deep_view(),
            nodes@ == inputs_tree(views, i as int),
            nodes@.wf(),
            duplicates.deep_view() == duplicate_inputs(views, i as int),
        decreases inputs.len() - i,
    {
        let input = &inputs[i];
        if nodes.contains(input.as_str()) {
            proof {
                nodes@.lemma_insert_contained(path_names(input@));
            }
            duplicates.push(input.clone());
        } else {
            nodes.push(input.as_str());
        }
        i += 1;
    }
    (nodes, duplicates)
}

/// The branches of the leaves among the first `n` stops of a walk.
pub open spec fn leaf_paths(walk: Seq<VisitView>, n: int) -> Seq<Seq<Seq<char>>>
    decreases n,
{
    if n <= 0 || n > walk.len() {
        Seq::empty()
    } else if walk[n - 1].node.children.len() == 0 {
        leaf_paths(walk, n - 1).push(walk[n - 1].path)
    } else {
        leaf_paths(walk, n - 1)
    }
}

/// Lists the branches that may be directories to search: those of the nodes
/// without children, in the order of the walk.
pub fn directory_candidates(nodes: &FsNode) -> (paths: Vec<Vec<String>>)
    ensures
        paths.deep_view() == leaf_paths(
            nodes@.walk(Seq::empty(), 0),
            nodes@.walk(Seq::empty(), 0).len() as int,
        ),
{
    let visits = nodes.traverse_top();
    let ghost walk = visits.deep_view();
    let mut paths: Vec<Vec<String>> = Vec::new();
    let mut i: usize = 0;
    while i < visits.len()
        invariant
            i <= visits.len(),
            walk == visits.deep_view(),
            paths.deep_view() == leaf_paths(walk, i as int),
        decreases visits.len() - i,
    {
        let visit = &visits[i];
        proof {
            visit.node.lemma_view();
        }
        if visit.node.children.len() == 0 {
            paths.push(clone_names(&visit.path));
        }
        i += 1;
    }
    paths
}

/// The tree `tree` after the files among the first `n` of `found` have
/// been inserted that have one of the extensions `sv`, `v` and `md`.
pub open spec fn with_found(tree: TreeView, found: Seq<Seq<char>>, n: int) -> TreeView
    decreases n,
{
    if n <= 0 || n > found.len() {
        tree
    } else if is_source_path(found[n - 1]) {
        with_found(tree, found, n - 1).insert(path_names(found[n - 1]))
    } else {
        with_found(tree, found, n - 1)
    }
}

/// Inserts the files that were met in the directories of the source set.
/// A file is collected if and only if its extension is `sv`, `v` or `md`.
pub fn insert_found(nodes: &mut FsNode, found: &Vec<String>)
    ensures
        final(nodes)@ == with_found(old(nodes)@, found.deep_view(), found.len() as int),
        old(nodes)@.wf() ==> final(nodes)@.wf(),
{
    let ghost views = found.deep_view();
    let ghost start = nodes@;
    let mut i: usize = 0;
    while i < found.len()
        invariant
            i <= found.len(),
            views == found.deep_view(),
            nodes@ == with_found(start, views, i as int),
            start.wf() ==> nodes@.wf(),
        decreases found.len() - i,
    {
        let path = &found[i];
        if is_source_file(path.as_str()) {
            nodes.push(path.as_str());
        }
        i += 1;
    }
}

/// Collects the source set: the inputs, and the files with a source
/// extension among `found`, the files met in the directories of the
/// inputs. Duplicate inputs are handed back beside the set.
pub fn collect_sources(inputs: &Vec<String>, found: &Vec<String>) -> (out: (
    SrcFiles,
    Vec<String>,
))
    ensures
        out.0.nodes@ == with_found(
            inputs_tree(inputs.deep_view(), inputs.len() as int),
            found.deep_view(),
            found.len() as int,
        ),
        out.0.nodes@.wf(),
        out.1.deep_view() == duplicate_inputs(inputs.deep_view(), inputs.len() as int),
{
    let (mut nodes, duplicates) = insert_inputs(inputs);
    insert_found(&mut nodes, found);
    (SrcFiles { nodes }, duplicates)
}

/// Whether `flags` says of the stop `k` of a walk that it is a file. A stop
/// of which `flags` says nothing is none.
pub open spec fn flagged(flags: Seq<bool>, k: int) -> bool {
    0 <= k < flags.len() && flags[k]
}

/// Whether the name at the end of the branch of `visit` has one of the
/// extensions `extensions`.
pub open spec fn has_wanted_extension(visit: VisitView, extensions: Seq<Seq<char>>) -> bool {
    visit.path.len() > 0 && has_extension_in(visit.path.last(), extensions)
}

/// The tree of the files among the first `n` stops of a walk whose
/// extension is wanted: the branch of each is inserted again, in the order
/// of the walk, so that the directories on its way are there too.
pub open spec fn selected_files(
    walk: Seq<VisitView>,
    extensions: Seq<Seq<char>>,
    is_file: Seq<bool>,
    n: int,
) -> TreeView
    decreases n,
{
    if n <= 0 || n > walk.len() {
        empty_tree()
    } else if flagged(is_file, n - 1) && has_wanted_extension(walk[n - 1], extensions) {
        selected_files(walk, extensions, is_file, n - 1).insert(walk[n - 1].path)
    } else {
        selected_files(walk, extensions, is_file, n - 1)
    }
}

/// The view of the tree `tree` that holds the files with one of the
/// extensions `extensions`.
pub open spec fn files_with_extensions(
    tree: TreeView,
    extensions: Seq<Seq<char>>,
    is_file: Seq<bool>,
) -> TreeView {
    let walk = tree.walk(Seq::empty(), 0);
    selected_files(walk, extensions, is_file, walk.len() as int)
}

/// Makes a fresh tree of the files of `all_files` whose extension is one
/// of `extensions`. `is_file` says of each stop of `traverse_top`, in its
/// order, whether it is a regular file.
pub fn get_files_with_extensions(all_files: &FsNode, extensions: &[&str], is_file: &Vec<bool>)
    -> (files: Result<FsNode, String>)
    ensures
        files is Ok,
        files->Ok_0@ == files_with_extensions(
            all_files@,
            extensions@.map_values(|e: &str| e@),
            is_file@,
        ),
        files->Ok_0@.wf(),
{
    Ok(select_files(all_files, extensions, is_file))
}

/// Makes a fresh tree of the files of `all_files` whose extension is one
/// of `extensions`: the branch of each is inserted again, in the order of
/// the walk. No node of the tree has two children of the same name.
pub fn select_files(all_files: &FsNode, extensions: &[&str], is_file: &Vec<bool>) -> (files:
    FsNode)
    ensures
        files@ == files_with_extensions(
            all_files@,
            extensions@.map_values(|e: &str| e@),
            is_file@,
        ),
        files@.wf(),
{
    let ghost wanted = extensions@.map_values(|e: &str| e@);
    let visits = all_files.traverse_top();
    let ghost walk = visits.deep_view();
    let mut files_with_ext = FsNode::new(String::new());
    let mut i: usize = 0;
    while i < visits.len()
        invariant
            i <= visits.len(),
            walk == visits.deep_view(),
            wanted == extensions@.map_values(|e: &str| e@),
            files_with_ext@ == selected_files(walk, wanted, is_file@, i as int),
            files_with_ext@.wf(),
        decreases visits.len() - i,
    {
        let visit = &visits[i];
        if i < is_file.len() && is_file[i] && visit.path.len() > 0 {
            let name = &visit.path[visit.path.len() - 1];
            if extension_among(name.as_str(), extensions) {
                files_with_ext.push_names(&visit.path);
            }
        }
        i += 1;
    }
    files_with_ext
}

/// The user's documentation: the files with the extension `md`.
pub fn get_md_files(all_files: &FsNode, is_file: &Vec<bool>) -> (files: Result<FsNode, String>)
    ensures
        files is Ok,
        files->Ok_0@ == files_with_extensions(all_files@, seq!["md"@], is_file@),
        files->Ok_0@.wf(),
{
    let extensions = ["md"];
    assert(extensions@.map_values(|e: &str| e@) =~= seq!["md"@]);
    get_files_with_extensions(all_files, &extensions, is_file)
}

/// The hardware sources: the files with the extension `sv` or `v`.
pub fn get_sv_files(all_files: &FsNode, is_file: &Vec<bool>) -> (files: Result<FsNode, String>)
    ensures
        files is Ok,
        files->Ok_0@ == files_with_extensions(all_files@, seq!["sv"@, "v"@], is_file@),
        files->Ok_0@.wf(),
{
    let extensions = ["sv", "v"];
    assert(extensions@.map_values(|e: &str| e@) =~= seq!["sv"@, "v"@]);
    get_files_with_extensions(all_files, &extensions, is_file)
}

} // verus!
