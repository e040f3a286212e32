//! The documents of the book: the table of contents, the indices of the
//! files and of the design units, the configuration of the book, and the
//! plan by which the sources are copied beside them.

use vstd::prelude::*;
use vstd::string::*;
use crate::args::ParsedOptions;
use crate::fsnode::{FsNode, TreeView, VisitView};
use crate::mdbook::escape::{escape_toml, toml_escaped};
use crate::mdbook::files::{files_with_extensions, select_files, SrcFiles};
use crate::mdbook::svpar::{SyntaxNodeView, SyntaxTree};
use crate::mdbook::units::{
    append_docs,
    docs_result,
    extract_units,
    file_docs,
    join_docs,
    ExtractError,
    Page,
    PageView,
    UnitDocs,
    UnitDocsView,
    UnitKind,
    UnitRecord,
    UnitRecordView,
};
use crate::mdbook::units::{copy_records, index_line, no_docs, print_index_line};
use crate::order::{
    ascending,
    key_le,
    lemma_bytes_le_antisym,
    lemma_bytes_le_total,
    lemma_text_bytes_injective,
    text_before,
    text_bytes,
    Keyed,
};
use crate::paths::{extension_among, has_extension_in, join_names, path_text};

verus! {

impl Keyed for UnitRecord {
    /// Records are sorted by name, then by file, then by document.
    open spec fn key(model: UnitRecordView) -> Seq<Seq<u8>> {
        seq![text_bytes(model.name), text_bytes(model.file), text_bytes(model.doc)]
    }

    fn before(&self, other: &Self) -> (yes: bool) {
        let ghost a = Self::key(self.deep_view());
        let ghost b = Self::key(other.deep_view());
        proof {
            lemma_bytes_le_total(a[0], a[0]);
            lemma_bytes_le_total(a[1], a[1]);
            lemma_bytes_le_total(a[2], a[2]);
            reveal_with_fuel(key_le, 4);
        }
        let name_le = text_before(self.name.as_str(), other.name.as_str());
        let name_ge = text_before(other.name.as_str(), self.name.as_str());
        if !(name_le && name_ge) {
            return name_le;
        }
        proof {
            lemma_bytes_le_antisym(a[0], b[0]);
        }
        let file_le = text_before(self.file.as_str(), other.file.as_str());
        let file_ge = text_before(other.file.as_str(), self.file.as_str());
        if !(file_le && file_ge) {
            return file_le;
        }
        proof {
            lemma_bytes_le_antisym(a[1], b[1]);
        }
        let doc_le = text_before(self.doc.as_str(), other.doc.as_str());
        let doc_ge = text_before(other.doc.as_str(), self.doc.as_str());
        proof {
            if doc_le && doc_ge {
                lemma_bytes_le_antisym(a[2], b[2]);
            }
        }
        doc_le
    }
}

impl Keyed for String {
    /// Texts are sorted as strings are.
    open spec fn key(model: Seq<char>) -> Seq<Seq<u8>> {
        seq![text_bytes(model)]
    }

    fn before(&self, other: &Self) -> (yes: bool) {
        let ghost a = Self::key(self.deep_view());
        proof {
            lemma_bytes_le_total(a[0], a[0]);
            reveal_with_fuel(key_le, 2);
        }
        text_before(self.as_str(), other.as_str())
    }
}

/// No two records have the same key.
pub proof fn lemma_record_key_injective()
    ensures
        crate::order::is_injective::<UnitRecord>(),
{
    assert forall|x: UnitRecordView, y: UnitRecordView| #[trigger]
        UnitRecord::key(x) == #[trigger] UnitRecord::key(y) implies x == y by {
        lemma_text_bytes_injective(x.name, y.name);
        lemma_text_bytes_injective(x.file, y.file);
        lemma_text_bytes_injective(x.doc, y.doc);
    }
}

/// No two texts have the same key.
pub proof fn lemma_text_key_injective()
    ensures
        crate::order::is_injective::<String>(),
{
    assert forall|x: Seq<char>, y: Seq<char>| #[trigger]
        String::key(x) == #[trigger] String::key(y) implies x == y by {
        assert(String::key(x)[0] == String::key(y)[0]);
        lemma_text_bytes_injective(x, y);
    }
}

/// The texts of `lines` one after another.
pub open spec fn concat(lines: Seq<Seq<char>>) -> Seq<char>
    decreases lines.len(),
{
    if lines.len() == 0 {
        Seq::empty()
    } else {
        concat(lines.drop_last()) + lines.last()
    }
}

/// Puts the texts of `lines` one after another.
pub fn concat_all(lines: &Vec<String>) -> (text: String)
    ensures
        text@ == concat(lines.deep_view()),
{
    let ghost views = lines.deep_view();
    let mut text = String::new();
    let mut i: usize = 0;
    while i < lines.len()
        invariant
            i <= lines.len(),
            views == lines.deep_view(),
            text@ == concat(views.take(i as int)),
        decreases lines.len() - i,
    {
        assert(views.take(i as int + 1).drop_last() =~= views.take(i as int));
        text.append(lines[i].as_str());
        i += 1;
    }
    assert(views.take(i as int) =~= views);
    text
}

/// The configuration of the book for a project called `project_name`. The
/// title is the name, written as a basic string.
pub open spec fn book_toml_text(project_name: Seq<char>) -> Seq<char> {
    "\n[book]\ntitle = \""@ + toml_escaped(project_name)
        + "\"\nauthors = [\"Godzilla\"]\n\n[output.html]\nadditional-js = [\"loadwavedrom.js\"]\n\n"@
}

/// Writes the configuration of the book: its title, its authors and the
/// script that the pages load.
pub fn create_book_toml(project_name: &str) -> (text: String)
    ensures
        text@ == book_toml_text(project_name@),
{
    let mut text = String::from_str("\n[book]\ntitle = \"");
    text.append(escape_toml(project_name).as_str());
    text.append(
        "\"\nauthors = [\"Godzilla\"]\n\n[output.html]\nadditional-js = [\"loadwavedrom.js\"]\n\n",
    );
    text
}

/// The page that stands beside the copy of the source file `file_name` and
/// shows its text.
pub open spec fn stub_text(file_name: Seq<char>) -> Seq<char> {
    "## "@ + file_name + "\n\n```verilog\n{{#include "@ + file_name + "}}\n```\n"@
}

/// Writes the page that shows the text of the source file `file_name`.
pub fn source_stub(file_name: &str) -> (text: String)
    ensures
        text@ == stub_text(file_name@),
{
    let mut text = String::from_str("## ");
    text.append(file_name);
    text.append("\n\n```verilog\n{{#include ");
    text.append(file_name);
    text.append("}}\n```\n");
    text
}

/// What the file system says of a path.
#[derive(Clone, Copy, Debug, PartialEq, Eq, Structural)]
pub enum PathKind {
    Directory,
    File,
    Other,
}

/// One step of the plan that copies the sources into the book. Sources are
/// named as the source set names them, targets by their path below the
/// output directory.
#[derive(Clone, Debug, PartialEq, Eq)]
pub enum CopyStep {
    /// Create the directory `path` and those above it.
    MakeDir { path: String },
    /// Copy the file `from` to `to`.
    CopyFile { from: String, to: String },
    /// Write the page `text` to `to`.
    WriteStub { to: String, text: String },
}

/// Mathematical model of a step of the copy plan.
pub ghost enum CopyStepView {
    MakeDir { path: Seq<char> },
    CopyFile { from: Seq<char>, to: Seq<char> },
    WriteStub { to: Seq<char>, text: Seq<char> },
}

impl DeepView for CopyStep {
    type V = CopyStepView;

    open spec fn deep_view(&self) -> CopyStepView {
        match self {
            CopyStep::MakeDir { path } => CopyStepView::MakeDir { path: path@ },
            CopyStep::CopyFile { from, to } => CopyStepView::CopyFile { from: from@, to: to@ },
            CopyStep::WriteStub { to, text } => CopyStepView::WriteStub { to: to@, text: text@ },
        }
    }
}

/// What `kinds` says of the stop `k` of a walk. A stop of which it says
/// nothing is neither a directory nor a file.
pub open spec fn kind_at(kinds: Seq<PathKind>, k: int) -> PathKind {
    if 0 <= k < kinds.len() {
        kinds[k]
    } else {
        PathKind::Other
    }
}

/// Where the copy of the branch `path` lies below the output directory.
pub open spec fn target_path(path: Seq<Seq<char>>) -> Seq<char> {
    "src/"@ + path_text(path)
}

/// The steps that mirror the directories among the first `n` stops of a
/// walk.
pub open spec fn directory_steps(walk: Seq<VisitView>, kinds: Seq<PathKind>, n: int) -> Seq<
    CopyStepView,
>
    decreases n,
{
    if n <= 0 || n > walk.len() {
        Seq::empty()
    } else if kind_at(kinds, n - 1) == PathKind::Directory {
        directory_steps(walk, kinds, n - 1).push(
            CopyStepView::MakeDir { path: target_path(walk[n - 1].path) },
        )
    } else {
        directory_steps(walk, kinds, n - 1)
    }
}

/// The steps for one file: its copy, and for a source in `sv` or `v` the
/// page that shows its text.
pub open spec fn file_steps(stop: VisitView) -> Seq<CopyStepView> {
    let copy = CopyStepView::CopyFile {
        from: path_text(stop.path),
        to: target_path(stop.path),
    };
    if stop.path.len() > 0 && has_extension_in(stop.path.last(), seq!["v"@, "sv"@]) {
        seq![
            copy,
            CopyStepView::WriteStub {
                to: target_path(stop.path) + ".md"@,
                text: stub_text(stop.path.last()),
            },
        ]
    } else {
        seq![copy]
    }
}

/// The steps that copy the files among the first `n` stops of a walk.
pub open spec fn files_steps(walk: Seq<VisitView>, kinds: Seq<PathKind>, n: int) -> Seq<
    CopyStepView,
>
    decreases n,
{
    if n <= 0 || n > walk.len() {
        Seq::empty()
    } else if kind_at(kinds, n - 1) == PathKind::File {
        files_steps(walk, kinds, n - 1) + file_steps(walk[n - 1])
    } else {
        files_steps(walk, kinds, n - 1)
    }
}

/// The plan that copies the source set `tree` into the book: first every
/// directory is mirrored, then every file is copied, each in the order of
/// the walk.
pub open spec fn copy_plan(tree: TreeView, kinds: Seq<PathKind>) -> Seq<CopyStepView> {
    let walk = tree.walk(Seq::empty(), 0);
    directory_steps(walk, kinds, walk.len() as int) + files_steps(walk, kinds, walk.len() as int)
}

/// Where the copy of the branch `path` lies below the output directory.
pub fn target_of(path: &Vec<String>) -> (target: String)
    ensures
        target@ == target_path(path.deep_view()),
{
    let mut target = String::from_str("src/");
    target.append(join_names(path).as_str());
    target
}

/// Plans how all input files are copied into the book. `kinds` says of each
/// stop of `traverse_top`, in its order, what the file system holds there.
pub fn copy_src_files(files: &SrcFiles, kinds: &Vec<PathKind>) -> (steps: Vec<CopyStep>)
    ensures
        steps.deep_view() == copy_plan(files.nodes@, kinds@),
{
    let visits = files.nodes.traverse_top();
    let ghost walk = visits.deep_view();
    let mut steps: Vec<CopyStep> = Vec::new();
    assert(steps.deep_view() =~= Seq::empty());
    let mut i: usize = 0;
    while i < visits.len()
        invariant
            i <= visits.len(),
            walk == visits.deep_view(),
            steps.deep_view() == directory_steps(walk, kinds@, i as int),
        decreases visits.len() - i,
    {
        let ghost before = steps.deep_view();
        assert(walk[i as int] == visits[i as int].deep_view());
        if i < kinds.len() && kinds[i] == PathKind::Directory {
            let step = CopyStep::MakeDir { path: target_of(&visits[i].path) };
            let ghost view = step.deep_view();
            steps.push(step);
            assert(steps.deep_view() =~= before.push(view));
        }
        i += 1;
    }
    let ghost directories = steps.deep_view();
    assert(steps.deep_view() =~= directories + files_steps(walk, kinds@, 0));
    let mut i: usize = 0;
    while i < visits.len()
        invariant
            i <= visits.len(),
            walk == visits.deep_view(),
            steps.deep_view() == directories + files_steps(walk, kinds@, i as int),
        decreases visits.len() - i,
    {
        let ghost before = steps.deep_view();
        let visit = &visits[i];
        assert(walk[i as int] == visit.deep_view());
        if i < kinds.len() && kinds[i] == PathKind::File {
            let target = target_of(&visit.path);
            let copy = CopyStep::CopyFile { from: join_names(&visit.path), to: target.clone() };
            let ghost copy_view = copy.deep_view();
            steps.push(copy);
            let mut stub = false;
            if visit.path.len() > 0 {
                let name = &visit.path[visit.path.len() - 1];
                assert(visit.path.deep_view().last() == name@);
                let extensions = ["v", "sv"];
                assert(extensions@.map_values(|e: &str| e@) =~= seq!["v"@, "sv"@]);
                if extension_among(name.as_str(), &extensions) {
                    let mut to = target;
                    to.append(".md");
                    let page = CopyStep::WriteStub { to, text: source_stub(name.as_str()) };
                    let ghost page_view = page.deep_view();
                    steps.push(page);
                    stub = true;
                    assert(steps.deep_view() =~= before + seq![copy_view, page_view]);
                }
            }
            if !stub {
                assert(steps.deep_view() =~= before + seq![copy_view]);
            }
        }
        i += 1;
    }
    steps
}

/// The texts of the branches of the files among the first `n` stops of a
/// walk. The files of a view are the nodes without children.
pub open spec fn file_paths(walk: Seq<VisitView>, n: int) -> Seq<Seq<char>>
    decreases n,
{
    if n <= 0 || n > walk.len() {
        Seq::empty()
    } else if walk[n - 1].node.children.len() == 0 {
        file_paths(walk, n - 1).push(path_text(walk[n - 1].path))
    } else {
        file_paths(walk, n - 1)
    }
}

/// The entry that leads to the page of the source file `path`.
pub open spec fn file_entry(path: Seq<char>) -> Seq<char> {
    "- ["@ + path + "](src/"@ + path + ".md)\n"@
}

/// The index of the files: its heading and one entry for each of the first
/// `n` of `paths`.
pub open spec fn files_index(paths: Seq<Seq<char>>, n: int) -> Seq<Seq<char>>
    decreases n,
{
    if n <= 0 || n > paths.len() {
        seq!["# Files\n\n"@]
    } else {
        files_index(paths, n - 1).push(file_entry(paths[n - 1]))
    }
}

/// One indented entry for each of the first `n` of `paths`.
pub open spec fn files_list(paths: Seq<Seq<char>>, n: int) -> Seq<char>
    decreases n,
{
    if n <= 0 || n > paths.len() {
        Seq::empty()
    } else {
        files_list(paths, n - 1) + "  "@ + file_entry(paths[n - 1])
    }
}

/// Writes the entry that leads to the page of the source file `path`.
pub fn print_file_entry(path: &str) -> (line: String)
    ensures
        line@ == file_entry(path@),
{
    let mut line = String::from_str("- [");
    line.append(path);
    line.append("](src/");
    line.append(path);
    line.append(".md)\n");
    line
}

/// Lists the files of the view `files`: the texts of their branches, in
/// the order of the walk.
pub fn list_file_paths(files: &FsNode) -> (paths: Vec<String>)
    ensures
        paths.deep_view() == file_paths(
            files@.walk(Seq::empty(), 0),
            files@.walk(Seq::empty(), 0).len() as int,
        ),
{
    let visits = files.traverse_top();
    let ghost walk = visits.deep_view();
    let mut paths: Vec<String> = Vec::new();
    let mut i: usize = 0;
    while i < visits.len()
        invariant
            i <= visits.len(),
            walk == visits.deep_view(),
            paths.deep_view() == file_paths(walk, i as int),
        decreases visits.len() - i,
    {
        let visit = &visits[i];
        proof {
            visit.node.lemma_view();
        }
        if visit.node.children.len() == 0 {
            let path = join_names(&visit.path);
            paths.push(path);
        }
        i += 1;
    }
    paths
}

/// The texts of the branches of the files of the view `files`, in
/// alphabetical order.
pub open spec fn sorted_file_paths(files: TreeView) -> Seq<Seq<char>> {
    let walk = files.walk(Seq::empty(), 0);
    ascending::<String>(file_paths(walk, walk.len() as int))
}

/// Writes the index of the files of the view `files` and the entries of
/// the same files for the table of contents, both in alphabetical order.
pub fn create_files_md(files: &FsNode) -> (out: (Vec<String>, String))
    ensures
        out.0.deep_view() == files_index(
            sorted_file_paths(files@),
            sorted_file_paths(files@).len() as int,
        ),
        out.1@ == files_list(sorted_file_paths(files@), sorted_file_paths(files@).len() as int),
{
    let paths = list_file_paths(files);
    let ghost views = paths.deep_view();
    let sorted = crate::order::sort_by_key(paths);
    let ghost order = sorted.deep_view();
    proof {
        lemma_text_key_injective();
        crate::order::lemma_ascending_is::<String>(order, views);
    }
    let mut data: Vec<String> = Vec::new();
    data.push(String::from_str("# Files\n\n"));
    let mut list = String::new();
    let mut i: usize = 0;
    while i < sorted.len()
        invariant
            i <= sorted.len(),
            order == sorted.deep_view(),
            data.deep_view() == files_index(order, i as int),
            list@ == files_list(order, i as int),
        decreases sorted.len() - i,
    {
        let ghost before = data.deep_view();
        assert(order[i as int] == sorted[i as int]@);
        let line = print_file_entry(sorted[i].as_str());
        list.append("  ");
        list.append(line.as_str());
        data.push(line);
        assert(data.deep_view() =~= before.push(file_entry(order[i as int])));
        i += 1;
    }
    (data, list)
}

/// The syntax tree that `parsed` holds for the file `k` of a view. A file
/// for which it holds none counts as a file that could not be parsed.
pub open spec fn parsed_at(parsed: Seq<Option<Seq<SyntaxNodeView>>>, k: int) -> Option<
    Seq<SyntaxNodeView>,
> {
    if 0 <= k < parsed.len() {
        parsed[k]
    } else {
        None
    }
}

/// The heading of the index of the units of kind `unit`.
pub open spec fn index_heading(unit: UnitKind) -> Seq<char> {
    match unit {
        UnitKind::Module => "# Modules\n\n"@,
        UnitKind::Interface => "# Interfaces\n\n"@,
        UnitKind::Class => "# Classes\n\n"@,
        UnitKind::Package => "# Packages\n\n"@,
    }
}

/// What the files among the first `n` stops of a walk give for the units
/// of kind `unit`, or the first error met: the records and the documents of
/// the units, file by file in the order of the walk. `parsed` holds the
/// syntax trees of the files, one for each file in the order of the walk.
pub open spec fn gathered_units(
    walk: Seq<VisitView>,
    unit: UnitKind,
    parsed: Seq<Option<Seq<SyntaxNodeView>>>,
    n: int,
) -> Result<UnitDocsView, ExtractError>
    decreases n,
{
    if n <= 0 || n > walk.len() {
        Ok(no_docs())
    } else {
        match gathered_units(walk, unit, parsed, n - 1) {
            Ok(docs) => if walk[n - 1].node.children.len() == 0 {
                match file_docs(
                    parsed_at(parsed, file_paths(walk, n - 1).len() as int),
                    unit,
                    path_text(walk[n - 1].path),
                ) {
                    Ok(more) => Ok(join_docs(docs, more)),
                    Err(e) => Err(e),
                }
            } else {
                Ok(docs)
            },
            Err(e) => Err(e),
        }
    }
}

/// One line of the index for each of the first `n` of `records`.
pub open spec fn index_lines(records: Seq<UnitRecordView>, n: int) -> Seq<Seq<char>>
    decreases n,
{
    if n <= 0 || n > records.len() {
        Seq::empty()
    } else {
        index_lines(records, n - 1).push(
            index_line(records[n - 1].name, records[n - 1].file, records[n - 1].doc),
        )
    }
}

/// The index of the units of kind `unit`: its heading and below it one
/// line for each unit, the units in ascending order of name, file and
/// document.
pub open spec fn index_text(unit: UnitKind, records: Seq<UnitRecordView>) -> Seq<Seq<char>> {
    let sorted = ascending::<UnitRecord>(records);
    seq![index_heading(unit)] + index_lines(sorted, sorted.len() as int)
}

/// The index of the units of one kind does not depend on the order in
/// which the records were gathered: lists that hold the same records, each
/// as often, give the same index.
pub proof fn lemma_index_text_of_permutation(
    unit: UnitKind,
    a: Seq<UnitRecordView>,
    b: Seq<UnitRecordView>,
)
    requires
        a.to_multiset() == b.to_multiset(),
    ensures
        index_text(unit, a) == index_text(unit, b),
{
    crate::order::lemma_ascending_of_permutation::<UnitRecord>(a, b);
}

/// The documents of the units of kind `unit` in the files among the first
/// `n` stops of a walk, or the first error met: the sorted index, and the
/// records and the documents of the units, file by file in the order of
/// the walk.
pub open spec fn units_index(
    walk: Seq<VisitView>,
    unit: UnitKind,
    parsed: Seq<Option<Seq<SyntaxNodeView>>>,
    n: int,
) -> Result<UnitDocsView, ExtractError> {
    match gathered_units(walk, unit, parsed, n) {
        Ok(docs) => Ok(
            UnitDocsView {
                text: index_text(unit, docs.list),
                list: docs.list,
                pages: docs.pages,
            },
        ),
        Err(e) => Err(e),
    }
}

/// Once an error has been met, it stays however far the walk goes on.
pub proof fn lemma_gathered_units_stay_err(
    walk: Seq<VisitView>,
    unit: UnitKind,
    parsed: Seq<Option<Seq<SyntaxNodeView>>>,
    mid: int,
    to: int,
)
    requires
        0 <= mid <= to <= walk.len(),
        gathered_units(walk, unit, parsed, mid) is Err,
    ensures
        gathered_units(walk, unit, parsed, to) == gathered_units(walk, unit, parsed, mid),
    decreases to - mid,
{
    if mid < to {
        lemma_gathered_units_stay_err(walk, unit, parsed, mid, to - 1);
    }
}

/// Writes the heading of the index of the units of kind `unit`.
pub fn index_heading_of(unit: UnitKind) -> (text: &'static str)
    ensures
        text@ == index_heading(unit),
{
    match unit {
        UnitKind::Module => "# Modules\n\n",
        UnitKind::Interface => "# Interfaces\n\n",
        UnitKind::Class => "# Classes\n\n",
        UnitKind::Package => "# Packages\n\n",
    }
}

/// Gathers what the files of the view `files` give for the units of kind
/// `unit`: their records and their documents, file by file in the order of
/// the walk.
fn gather_units(unit: UnitKind, files: &FsNode, parsed: &Vec<Option<SyntaxTree>>) -> (docs:
    Result<UnitDocs, ExtractError>)
    ensures
        docs_result(docs) == gathered_units(
            files@.walk(Seq::empty(), 0),
            unit,
            parsed.deep_view(),
            files@.walk(Seq::empty(), 0).len() as int,
        ),
{
    let visits = files.traverse_top();
    let ghost walk = visits.deep_view();
    let mut docs = UnitDocs { text: Vec::new(), list: Vec::new(), pages: Vec::new() };
    proof {
        assert(docs.text.deep_view() =~= Seq::empty());
        assert(docs.list.deep_view() =~= Seq::empty());
        assert(docs.pages.deep_view() =~= Seq::empty());
    }
    let mut seen: usize = 0;
    let mut i: usize = 0;
    while i < visits.len()
        invariant
            i <= visits.len(),
            walk == visits.deep_view(),
            walk == files@.walk(Seq::empty(), 0),
            seen <= i,
            seen == file_paths(walk, i as int).len(),
            gathered_units(walk, unit, parsed.deep_view(), i as int) == Ok::<
                UnitDocsView,
                ExtractError,
            >(docs.deep_view()),
        decreases visits.len() - i,
    {
        let visit = &visits[i];
        assert(walk[i as int] == visit.deep_view());
        proof {
            visit.node.lemma_view();
        }
        if visit.node.children.len() == 0 {
            let path = join_names(&visit.path);
            let tree: Option<&SyntaxTree> = if seen < parsed.len() {
                parsed[seen].as_ref()
            } else {
                None
            };
            assert(match tree {
                Some(t) => Some(t@),
                None => None,
            } == parsed_at(parsed.deep_view(), seen as int));
            seen += 1;
            match extract_units(tree, unit, path.as_str()) {
                Ok(more) => {
                    append_docs(&mut docs, more);
                },
                Err(e) => {
                    proof {
                        assert(gathered_units(walk, unit, parsed.deep_view(), i as int + 1)
                            == Err::<UnitDocsView, ExtractError>(e));
                        lemma_gathered_units_stay_err(
                            walk,
                            unit,
                            parsed.deep_view(),
                            i as int + 1,
                            walk.len() as int,
                        );
                    }
                    return Err(e);
                },
            }
        }
        i += 1;
    }
    Ok(docs)
}

/// Writes the index of the units of kind `unit` whose records are
/// `records`: the heading and one line for each unit, in ascending order.
pub fn print_index(unit: UnitKind, records: &Vec<UnitRecord>) -> (text: Vec<String>)
    ensures
        text.deep_view() == index_text(unit, records.deep_view()),
{
    let sorted = crate::order::sort_by_key(copy_records(records));
    let ghost order = sorted.deep_view();
    proof {
        lemma_record_key_injective();
        crate::order::lemma_ascending_is::<UnitRecord>(order, records.deep_view());
    }
    let mut text: Vec<String> = Vec::new();
    text.push(String::from_str(index_heading_of(unit)));
    assert(text.deep_view() =~= seq![index_heading(unit)] + index_lines(order, 0));
    let mut i: usize = 0;
    while i < sorted.len()
        invariant
            i <= sorted.len(),
            order == sorted.deep_view(),
            text.deep_view() == seq![index_heading(unit)] + index_lines(order, i as int),
        decreases sorted.len() - i,
    {
        let ghost before = text.deep_view();
        let record = &sorted[i];
        assert(order[i as int] == record.deep_view());
        let line = print_index_line(record);
        text.push(line);
        assert(text.deep_view() =~= before.push(
            index_line(order[i as int].name, order[i as int].file, order[i as int].doc),
        ));
        i += 1;
    }
    text
}

/// Writes the index of the units of kind `unit` that the files of the view
/// `files` declare, in ascending order of the units, with their records
/// and their documents. `parsed` holds for each file of the view, in the
/// order of `list_file_paths`, its syntax tree, or `None` where it could
/// not be parsed.
pub fn create_units_md(unit: UnitKind, files: &FsNode, parsed: &Vec<Option<SyntaxTree>>) -> (docs:
    Result<UnitDocs, ExtractError>)
    ensures
        docs_result(docs) == units_index(
            files@.walk(Seq::empty(), 0),
            unit,
            parsed.deep_view(),
            files@.walk(Seq::empty(), 0).len() as int,
        ),
{
    match gather_units(unit, files, parsed) {
        Ok(gathered) => {
            let text = print_index(unit, &gathered.list);
            Ok(UnitDocs { text, list: gathered.list, pages: gathered.pages })
        },
        Err(e) => Err(e),
    }
}

/// Writes the index of the modules with their records and documents.
pub fn create_modules_md(files: &FsNode, parsed: &Vec<Option<SyntaxTree>>) -> (docs: Result<
    UnitDocs,
    ExtractError,
>)
    ensures
        docs_result(docs) == units_index(
            files@.walk(Seq::empty(), 0),
            UnitKind::Module,
            parsed.deep_view(),
            files@.walk(Seq::empty(), 0).len() as int,
        ),
{
    create_units_md(UnitKind::Module, files, parsed)
}

/// Writes the index of the interfaces with their records and documents.
pub fn create_ifaces_md(files: &FsNode, parsed: &Vec<Option<SyntaxTree>>) -> (docs: Result<
    UnitDocs,
    ExtractError,
>)
    ensures
        docs_result(docs) == units_index(
            files@.walk(Seq::empty(), 0),
            UnitKind::Interface,
            parsed.deep_view(),
            files@.walk(Seq::empty(), 0).len() as int,
        ),
{
    create_units_md(UnitKind::Interface, files, parsed)
}

/// Writes the index of the classes with their records and documents.
pub fn create_classes_md(files: &FsNode, parsed: &Vec<Option<SyntaxTree>>) -> (docs: Result<
    UnitDocs,
    ExtractError,
>)
    ensures
        docs_result(docs) == units_index(
            files@.walk(Seq::empty(), 0),
            UnitKind::Class,
            parsed.deep_view(),
            files@.walk(Seq::empty(), 0).len() as int,
        ),
{
    create_units_md(UnitKind::Class, files, parsed)
}

/// Writes the index of the packages with their records and documents.
pub fn create_packages_md(files: &FsNode, parsed: &Vec<Option<SyntaxTree>>) -> (docs: Result<
    UnitDocs,
    ExtractError,
>)
    ensures
        docs_result(docs) == units_index(
            files@.walk(Seq::empty(), 0),
            UnitKind::Package,
            parsed.deep_view(),
            files@.walk(Seq::empty(), 0).len() as int,
        ),
{
    create_units_md(UnitKind::Package, files, parsed)
}

/// One entry of the user's documentation in the table of contents: its
/// level, its name and where it leads. A directory leads nowhere.
#[derive(Clone, Debug, PartialEq, Eq)]
pub struct DocEntry {
    pub level: usize,
    pub name: String,
    pub link: String,
}

/// Mathematical model of an entry of the user's documentation.
pub ghost struct DocEntryView {
    pub level: nat,
    pub name: Seq<char>,
    pub link: Seq<char>,
}

impl DeepView for DocEntry {
    type V = DocEntryView;

    open spec fn deep_view(&self) -> DocEntryView {
        DocEntryView { level: self.level as nat, name: self.name@, link: self.link@ }
    }
}

/// The entry for a stop of the walk of the user's documentation. The
/// children of the root are at level 1. A file leads to its copy in the
/// book.
pub open spec fn doc_entry(stop: VisitView) -> DocEntryView {
    DocEntryView {
        level: stop.level + 1,
        name: stop.node.name,
        link: if stop.node.children.len() == 0 {
            target_path(stop.path)
        } else {
            Seq::empty()
        },
    }
}

/// The entries for the first `n` stops of a walk.
pub open spec fn doc_entries(walk: Seq<VisitView>, n: int) -> Seq<DocEntryView>
    decreases n,
{
    if n <= 0 || n > walk.len() {
        Seq::empty()
    } else {
        doc_entries(walk, n - 1).push(doc_entry(walk[n - 1]))
    }
}

/// The entries of the user's documentation in the source set `tree`: one
/// for each file with the extension `md` and for each directory on the way
/// to one, in the order of the walk.
pub open spec fn users_md_docs(tree: TreeView, is_file: Seq<bool>) -> Seq<DocEntryView> {
    let walk = files_with_extensions(tree, seq!["md"@], is_file).walk(Seq::empty(), 0);
    doc_entries(walk, walk.len() as int)
}

/// Lists the user's documentation for the table of contents. `is_file`
/// says of each stop of `traverse_top` of the source set, in its order,
/// whether it is a regular file.
pub fn list_users_md_docs(src_files: &SrcFiles, is_file: &Vec<bool>) -> (list: Vec<DocEntry>)
    ensures
        list.deep_view() == users_md_docs(src_files.nodes@, is_file@),
{
    let extensions = ["md"];
    assert(extensions@.map_values(|e: &str| e@) =~= seq!["md"@]);
    let md_files = select_files(&src_files.nodes, &extensions, is_file);
    let visits = md_files.traverse_top();
    let ghost walk = visits.deep_view();
    proof {
        md_files@.lemma_walk_stops(Seq::empty(), 0);
    }
    let mut list: Vec<DocEntry> = Vec::new();
    let mut i: usize = 0;
    while i < visits.len()
        invariant
            i <= visits.len(),
            walk == visits.deep_view(),
            forall|k: int|
                0 <= k < walk.len() ==> {
                    let stop = #[trigger] walk[k];
                    stop.path.len() == stop.level + 1
                },
            list.deep_view() == doc_entries(walk, i as int),
        decreases visits.len() - i,
    {
        let visit = &visits[i];
        proof {
            visit.node.lemma_view();
        }
        let link = if visit.node.children.len() == 0 {
            target_of(&visit.path)
        } else {
            String::new()
        };
        let entry = DocEntry { level: visit.path.len(), name: visit.node.name.clone(), link };
        list.push(entry);
        i += 1;
    }
    list
}

/// Two spaces for each level.
pub open spec fn indentation(level: nat) -> Seq<char>
    decreases level,
{
    if level == 0 {
        Seq::empty()
    } else {
        indentation((level - 1) as nat) + "  "@
    }
}

/// The line of the table of contents for an entry of the user's
/// documentation.
pub open spec fn doc_entry_line(entry: DocEntryView) -> Seq<char> {
    indentation(entry.level) + "- ["@ + entry.name + "]("@ + entry.link + ")\n"@
}

/// The lines for the first `n` entries of the user's documentation.
pub open spec fn doc_entry_lines(entries: Seq<DocEntryView>, n: int) -> Seq<char>
    decreases n,
{
    if n <= 0 || n > entries.len() {
        Seq::empty()
    } else {
        doc_entry_lines(entries, n - 1) + doc_entry_line(entries[n - 1])
    }
}

/// Writes the line of the table of contents for an entry of the user's
/// documentation.
pub fn print_doc_entry(entry: &DocEntry) -> (line: String)
    ensures
        line@ == doc_entry_line(entry.deep_view()),
{
    let mut line = String::new();
    let mut i: usize = 0;
    while i < entry.level
        invariant
            i <= entry.level,
            line@ == indentation(i as nat),
        decreases entry.level - i,
    {
        line.append("  ");
        i += 1;
    }
    line.append("- [");
    line.append(entry.name.as_str());
    line.append("](");
    line.append(entry.link.as_str());
    line.append(")\n");
    line
}

/// The line of the table of contents that leads to the document of a unit.
pub open spec fn unit_entry(record: UnitRecordView) -> Seq<char> {
    "  - [`"@ + record.name + "  :"@ + record.file + "`]("@ + record.doc + ")\n"@
}

/// The lines for the first `n` of `records`.
pub open spec fn unit_entries(records: Seq<UnitRecordView>, n: int) -> Seq<Seq<char>>
    decreases n,
{
    if n <= 0 || n > records.len() {
        Seq::empty()
    } else {
        unit_entries(records, n - 1).push(unit_entry(records[n - 1]))
    }
}

/// The section of the table of contents for the units of one kind: the
/// line `title` and below it one line for each unit, the units in
/// ascending order of name, file and document.
pub open spec fn units_section(title: Seq<char>, records: Seq<UnitRecordView>) -> Seq<
    Seq<char>,
> {
    let sorted = ascending::<UnitRecord>(records);
    seq![title] + unit_entries(sorted, sorted.len() as int)
}

/// The section of the units of one kind does not depend on the order in
/// which the records were gathered: lists that hold the same records, each
/// as often, give the same section.
pub proof fn lemma_units_section_of_permutation(
    title: Seq<char>,
    a: Seq<UnitRecordView>,
    b: Seq<UnitRecordView>,
)
    requires
        a.to_multiset() == b.to_multiset(),
    ensures
        units_section(title, a) == units_section(title, b),
{
    crate::order::lemma_ascending_of_permutation::<UnitRecord>(a, b);
}

/// Writes the section of the table of contents for the units of one kind
/// behind the lines of `text`.
pub fn print_units_section(text: &mut Vec<String>, title: &str, records: Vec<UnitRecord>)
    ensures
        final(text).deep_view() == old(text).deep_view() + units_section(
            title@,
            records.deep_view(),
        ),
{
    let ghost start = text.deep_view();
    let ghost views = records.deep_view();
    let sorted = crate::order::sort_by_key(records);
    let ghost order = sorted.deep_view();
    proof {
        lemma_record_key_injective();
        crate::order::lemma_ascending_is::<UnitRecord>(order, views);
    }
    text.push(String::from_str(title));
    let mut i: usize = 0;
    while i < sorted.len()
        invariant
            i <= sorted.len(),
            order == sorted.deep_view(),
            text.deep_view() == start + seq![title@] + unit_entries(order, i as int),
        decreases sorted.len() - i,
    {
        let ghost before = text.deep_view();
        let record = &sorted[i];
        let mut line = String::from_str("  - [`");
        line.append(record.name.as_str());
        line.append("  :");
        line.append(record.file.as_str());
        line.append("`](");
        line.append(record.doc.as_str());
        line.append(")\n");
        text.push(line);
        assert(text.deep_view() =~= before.push(unit_entry(order[i as int])));
        i += 1;
    }
}

/// What the hardware sources give to the book: the lines of the table of
/// contents that lead to them, and the documents to write.
#[derive(Clone, Debug, PartialEq, Eq)]
pub struct SvDocs {
    pub text: Vec<String>,
    pub pages: Vec<Page>,
}

/// Mathematical model of what the hardware sources give to the book.
pub ghost struct SvDocsView {
    pub text: Seq<Seq<char>>,
    pub pages: Seq<PageView>,
}

impl DeepView for SvDocs {
    type V = SvDocsView;

    open spec fn deep_view(&self) -> SvDocsView {
        SvDocsView { text: self.text.deep_view(), pages: self.pages.deep_view() }
    }
}

/// The documents of the book or the error that stood in their way, as
/// mathematical values.
pub open spec fn sv_docs_result(docs: Result<SvDocs, ExtractError>) -> Result<
    SvDocsView,
    ExtractError,
> {
    match docs {
        Ok(d) => Ok(d.deep_view()),
        Err(e) => Err(e),
    }
}

/// The index of the units of one kind as a document at `path`, followed by
/// the documents of the units.
pub open spec fn index_pages(path: Seq<char>, docs: UnitDocsView) -> Seq<PageView> {
    seq![PageView { path, text: concat(docs.text) }] + docs.pages
}

/// The sections of the table of contents that lead to the hardware
/// sources: the files, then the units of each kind, at last the functions.
pub open spec fn sections_text(
    file_list: Seq<char>,
    modules: Seq<UnitRecordView>,
    packages: Seq<UnitRecordView>,
    ifaces: Seq<UnitRecordView>,
    classes: Seq<UnitRecordView>,
) -> Seq<Seq<char>> {
    seq!["- [Files](files.md)\n"@, file_list] + units_section(
        "- [Modules](modules.md)\n"@,
        modules,
    ) + units_section("- [Packages](packages.md)\n"@, packages) + units_section(
        "- [Interfaces](ifaces.md)\n"@,
        ifaces,
    ) + units_section("- [Classes](classes.md)\n"@, classes) + seq!["- [Functions]()\n"@]
}

/// The documents that describe the hardware sources: the index of the
/// files, then for each kind of unit its index and the documents of its
/// units.
pub open spec fn sv_pages(
    files_index: Seq<Seq<char>>,
    modules: UnitDocsView,
    packages: UnitDocsView,
    ifaces: UnitDocsView,
    classes: UnitDocsView,
) -> Seq<PageView> {
    seq![PageView { path: "src/files.md"@, text: concat(files_index) }] + index_pages(
        "src/modules.md"@,
        modules,
    ) + index_pages("src/packages.md"@, packages) + index_pages("src/ifaces.md"@, ifaces)
        + index_pages("src/classes.md"@, classes)
}

/// What the view `files` of the hardware sources gives to the book, or the
/// first error met. The indices are written in the order files, modules,
/// packages, interfaces, classes; so are the sections of the table of
/// contents, which ends with the section of the functions.
pub open spec fn sv_docs(files: TreeView, parsed: Seq<Option<Seq<SyntaxNodeView>>>) -> Result<
    SvDocsView,
    ExtractError,
> {
    let walk = files.walk(Seq::empty(), 0);
    let n = walk.len() as int;
    let sorted = sorted_file_paths(files);
    match units_index(walk, UnitKind::Module, parsed, n) {
        Ok(modules) => match units_index(walk, UnitKind::Package, parsed, n) {
            Ok(packages) => match units_index(walk, UnitKind::Interface, parsed, n) {
                Ok(ifaces) => match units_index(walk, UnitKind::Class, parsed, n) {
                    Ok(classes) => Ok(
                        SvDocsView {
                            text: sections_text(
                                files_list(sorted, sorted.len() as int),
                                modules.list,
                                packages.list,
                                ifaces.list,
                                classes.list,
                            ),
                            pages: sv_pages(
                                files_index(sorted, sorted.len() as int),
                                modules,
                                packages,
                                ifaces,
                                classes,
                            ),
                        },
                    ),
                    Err(e) => Err(e),
                },
                Err(e) => Err(e),
            },
            Err(e) => Err(e),
        },
        Err(e) => Err(e),
    }
}

/// Moves the index of the units of one kind, as a document at `path`, and
/// the documents of the units behind `pages`.
fn take_index(pages: &mut Vec<Page>, path: &str, text: Vec<String>, more: Vec<Page>)
    ensures
        final(pages).deep_view() == old(pages).deep_view() + (seq![
            PageView { path: path@, text: concat(text.deep_view()) },
        ] + more.deep_view()),
{
    let ghost before = pages.deep_view();
    let ghost added = more.deep_view();
    let ghost index = PageView { path: path@, text: concat(text.deep_view()) };
    let mut more = more;
    pages.push(Page { path: String::from_str(path), text: concat_all(&text) });
    assert(pages.deep_view() =~= before.push(index));
    pages.append(&mut more);
    assert(pages.deep_view() =~= before + (seq![index] + added));
}

/// Puts the documents that describe the hardware sources in their order
/// and hands back, beside them, the records of the modules, the packages,
/// the interfaces and the classes.
fn collect_pages(
    files_index: Vec<String>,
    modules: UnitDocs,
    packages: UnitDocs,
    ifaces: UnitDocs,
    classes: UnitDocs,
) -> (out: (Vec<Page>, Vec<UnitRecord>, Vec<UnitRecord>, Vec<UnitRecord>, Vec<UnitRecord>))
    ensures
        out.0.deep_view() == sv_pages(
            files_index.deep_view(),
            modules.deep_view(),
            packages.deep_view(),
            ifaces.deep_view(),
            classes.deep_view(),
        ),
        out.1.deep_view() == modules.deep_view().list,
        out.2.deep_view() == packages.deep_view().list,
        out.3.deep_view() == ifaces.deep_view().list,
        out.4.deep_view() == classes.deep_view().list,
{
    let mut pages: Vec<Page> = Vec::new();
    pages.push(Page { path: String::from_str("src/files.md"), text: concat_all(&files_index) });
    assert(pages.deep_view() =~= seq![
        PageView { path: "src/files.md"@, text: concat(files_index.deep_view()) },
    ]);
    take_index(&mut pages, "src/modules.md", modules.text, modules.pages);
    take_index(&mut pages, "src/packages.md", packages.text, packages.pages);
    take_index(&mut pages, "src/ifaces.md", ifaces.text, ifaces.pages);
    take_index(&mut pages, "src/classes.md", classes.text, classes.pages);
    (pages, modules.list, packages.list, ifaces.list, classes.list)
}

/// Writes the sections of the table of contents that lead to the hardware
/// sources.
fn print_sections(
    file_list: String,
    modules: Vec<UnitRecord>,
    packages: Vec<UnitRecord>,
    ifaces: Vec<UnitRecord>,
    classes: Vec<UnitRecord>,
) -> (text: Vec<String>)
    ensures
        text.deep_view() == sections_text(
            file_list@,
            modules.deep_view(),
            packages.deep_view(),
            ifaces.deep_view(),
            classes.deep_view(),
        ),
{
    let mut text: Vec<String> = Vec::new();
    text.push(String::from_str("- [Files](files.md)\n"));
    text.push(file_list);
    assert(text.deep_view() =~= seq!["- [Files](files.md)\n"@, file_list@]);
    print_units_section(&mut text, "- [Modules](modules.md)\n", modules);
    print_units_section(&mut text, "- [Packages](packages.md)\n", packages);
    print_units_section(&mut text, "- [Interfaces](ifaces.md)\n", ifaces);
    print_units_section(&mut text, "- [Classes](classes.md)\n", classes);
    let ghost body = text.deep_view();
    text.push(String::from_str("- [Functions]()\n"));
    assert(text.deep_view() =~= body + seq!["- [Functions]()\n"@]);
    text
}

/// Writes what the hardware sources give to the book. `files` is the view
/// of the hardware sources; `parsed` holds for each file of the view, in
/// the order of `list_file_paths`, its syntax tree, or `None` where it
/// could not be parsed.
pub fn create_sv_docs(files: &FsNode, parsed: &Vec<Option<SyntaxTree>>) -> (docs: Result<
    SvDocs,
    ExtractError,
>)
    ensures
        sv_docs_result(docs) == sv_docs(files@, parsed.deep_view()),
{
    let (index, file_list) = create_files_md(files);
    let modules = match create_modules_md(files, parsed) {
        Ok(docs) => docs,
        Err(e) => {
            return Err(e);
        },
    };
    let packages = match create_packages_md(files, parsed) {
        Ok(docs) => docs,
        Err(e) => {
            return Err(e);
        },
    };
    let ifaces = match create_ifaces_md(files, parsed) {
        Ok(docs) => docs,
        Err(e) => {
            return Err(e);
        },
    };
    let classes = match create_classes_md(files, parsed) {
        Ok(docs) => docs,
        Err(e) => {
            return Err(e);
        },
    };
    let (pages, module_list, package_list, iface_list, class_list) = collect_pages(
        index,
        modules,
        packages,
        ifaces,
        classes,
    );
    let text = print_sections(file_list, module_list, package_list, iface_list, class_list);
    Ok(SvDocs { text, pages })
}

/// The table of contents: its heading, the user's documentation, a rule,
/// and the sections of the hardware sources.
pub open spec fn summary_text(users: Seq<DocEntryView>, sv_text: Seq<Seq<char>>) -> Seq<char> {
    "# Summary\n"@ + "\n- [User's Documentation]()\n"@ + doc_entry_lines(
        users,
        users.len() as int,
    ) + "\n---\n\n"@ + concat(sv_text)
}

/// Documents or the error that stood in their way, as mathematical values.
pub open spec fn pages_result(pages: Result<Vec<Page>, ExtractError>) -> Result<
    Seq<PageView>,
    ExtractError,
> {
    match pages {
        Ok(p) => Ok(p.deep_view()),
        Err(e) => Err(e),
    }
}

/// The documents that describe the source set `tree`: those of the hardware
/// sources and behind them the table of contents.
pub open spec fn summary_pages(
    tree: TreeView,
    is_file: Seq<bool>,
    parsed: Seq<Option<Seq<SyntaxNodeView>>>,
) -> Result<Seq<PageView>, ExtractError> {
    match sv_docs(files_with_extensions(tree, seq!["sv"@, "v"@], is_file), parsed) {
        Ok(sv) => Ok(
            sv.pages.push(
                PageView {
                    path: "src/SUMMARY.md"@,
                    text: summary_text(users_md_docs(tree, is_file), sv.text),
                },
            ),
        ),
        Err(e) => Err(e),
    }
}

/// The documents of the whole book: those that describe the source set and
/// behind them the configuration of the book.
pub open spec fn book_pages(
    project_name: Seq<char>,
    tree: TreeView,
    is_file: Seq<bool>,
    parsed: Seq<Option<Seq<SyntaxNodeView>>>,
) -> Result<Seq<PageView>, ExtractError> {
    match summary_pages(tree, is_file, parsed) {
        Ok(pages) => Ok(
            pages.push(PageView { path: "book.toml"@, text: book_toml_text(project_name) }),
        ),
        Err(e) => Err(e),
    }
}

/// Writes the table of contents and the documents it leads to. `is_file`
/// says of each stop of `traverse_top` of the source set, in its order,
/// whether it is a regular file; `parsed` holds for each file of the view
/// of the hardware sources, in the order of `list_file_paths`, its syntax
/// tree, or `None` where it could not be parsed.
pub fn create_summary_md(
    src_files: &SrcFiles,
    is_file: &Vec<bool>,
    parsed: &Vec<Option<SyntaxTree>>,
) -> (pages: Result<Vec<Page>, ExtractError>)
    ensures
        pages_result(pages) == summary_pages(src_files.nodes@, is_file@, parsed.deep_view()),
{
    let users = list_users_md_docs(src_files, is_file);
    let ghost entries = users.deep_view();
    let mut text = String::from_str("# Summary\n");
    text.append("\n- [User's Documentation]()\n");
    let ghost head = text@;
    let mut i: usize = 0;
    while i < users.len()
        invariant
            i <= users.len(),
            entries == users.deep_view(),
            text@ == head + doc_entry_lines(entries, i as int),
        decreases users.len() - i,
    {
        let line = print_doc_entry(&users[i]);
        text.append(line.as_str());
        i += 1;
    }
    text.append("\n---\n\n");
    let extensions = ["sv", "v"];
    assert(extensions@.map_values(|e: &str| e@) =~= seq!["sv"@, "v"@]);
    let sv_files = select_files(&src_files.nodes, &extensions, is_file);
    match create_sv_docs(&sv_files, parsed) {
        Ok(sv) => {
            let ghost sv_view = sv.deep_view();
            let sv_text = concat_all(&sv.text);
            text.append(sv_text.as_str());
            let mut pages = sv.pages;
            pages.push(Page { path: String::from_str("src/SUMMARY.md"), text });
            assert(pages.deep_view() =~= sv_view.pages.push(
                PageView {
                    path: "src/SUMMARY.md"@,
                    text: summary_text(entries, sv_view.text),
                },
            ));
            Ok(pages)
        },
        Err(e) => Err(e),
    }
}

/// Writes every document of the book for the source set `src_files`: the
/// indices, the documents of the design units, the table of contents and
/// the configuration of the book, each with its path below the output
/// directory.
pub fn generate(
    options: &ParsedOptions,
    src_files: &SrcFiles,
    is_file: &Vec<bool>,
    parsed: &Vec<Option<SyntaxTree>>,
) -> (pages: Result<Vec<Page>, ExtractError>)
    ensures
        pages_result(pages) == book_pages(
            options.project_name@,
            src_files.nodes@,
            is_file@,
            parsed.deep_view(),
        ),
{
    match create_summary_md(src_files, is_file, parsed) {
        Ok(pages) => {
            let ghost before = pages.deep_view();
            let mut pages = pages;
            let text = create_book_toml(options.project_name.as_str());
            pages.push(Page { path: String::from_str("book.toml"), text });
            assert(pages.deep_view() =~= before.push(
                PageView { path: "book.toml"@, text: book_toml_text(options.project_name@) },
            ));
            Ok(pages)
        },
        Err(e) => Err(e),
    }
}

} // verus!
