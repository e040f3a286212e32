//! The design units that a source file declares and the documents written
//! for them.
//!
//! The tree of a file is walked once in pre-order. Each declaration of a
//! unit of the wanted kind gives a record, a line for the index of the kind
//! and a document. The walk keeps the node visited last that may matter to
//! the declaration that follows it.

use vstd::prelude::*;
use vstd::string::*;
use crate::mdbook::svpar::{
    as_position,
    get_name_below,
    name_below,
    NodeKind,
    SyntaxNodeView,
    SyntaxTree,
};

verus! {

/// The kinds of design units that are documented.
#[derive(Clone, Copy, Debug, PartialEq, Eq, Structural)]
pub enum UnitKind {
    Module,
    Interface,
    Class,
    Package,
}

/// Why the documents of a file could not be written.
#[derive(Clone, Copy, Debug, PartialEq, Eq, Structural)]
pub enum ExtractError {
    /// A declaration, a port or an instantiation holds no identifier.
    MissingName,
    /// A comment holds no text.
    MissingText,
    /// A pattern that strips comments was not accepted as a regular
    /// expression.
    RejectedPattern,
}

/// One declared design unit: its name, the source file that declares it
/// and the path of its document below the output directory.
#[derive(Clone, Debug, PartialEq, Eq)]
pub struct UnitRecord {
    pub name: String,
    pub file: String,
    pub doc: String,
}

/// Mathematical model of a unit record.
pub ghost struct UnitRecordView {
    pub name: Seq<char>,
    pub file: Seq<char>,
    pub doc: Seq<char>,
}

impl DeepView for UnitRecord {
    type V = UnitRecordView;

    open spec fn deep_view(&self) -> UnitRecordView {
        UnitRecordView { name: self.name@, file: self.file@, doc: self.doc@ }
    }
}

/// A document to write: its path below the output directory and its text.
#[derive(Clone, Debug, PartialEq, Eq)]
pub struct Page {
    pub path: String,
    pub text: String,
}

/// Mathematical model of a document to write.
pub ghost struct PageView {
    pub path: Seq<char>,
    pub text: Seq<char>,
}

impl DeepView for Page {
    type V = PageView;

    open spec fn deep_view(&self) -> PageView {
        PageView { path: self.path@, text: self.text@ }
    }
}

/// What the units of one kind in one source file give: the lines for the
/// index of the kind, the records of the units and their documents, each
/// in source order.
#[derive(Clone, Debug, PartialEq, Eq)]
pub struct UnitDocs {
    pub text: Vec<String>,
    pub list: Vec<UnitRecord>,
    pub pages: Vec<Page>,
}

/// Mathematical model of the documents of a source file.
pub ghost struct UnitDocsView {
    pub text: Seq<Seq<char>>,
    pub list: Seq<UnitRecordView>,
    pub pages: Seq<PageView>,
}

impl DeepView for UnitDocs {
    type V = UnitDocsView;

    open spec fn deep_view(&self) -> UnitDocsView {
        UnitDocsView {
            text: self.text.deep_view(),
            list: self.list.deep_view(),
            pages: self.pages.deep_view(),
        }
    }
}

/// A text or the error that stood in its way, the text as a sequence of
/// characters.
pub open spec fn text_result(text: Result<String, ExtractError>) -> Result<
    Seq<char>,
    ExtractError,
> {
    match text {
        Ok(t) => Ok(t@),
        Err(e) => Err(e),
    }
}

/// The documents of a file or the error that stood in their way, as
/// mathematical values.
pub open spec fn docs_result(docs: Result<UnitDocs, ExtractError>) -> Result<
    UnitDocsView,
    ExtractError,
> {
    match docs {
        Ok(d) => Ok(d.deep_view()),
        Err(e) => Err(e),
    }
}

/// No documents.
pub open spec fn no_docs() -> UnitDocsView {
    UnitDocsView { text: Seq::empty(), list: Seq::empty(), pages: Seq::empty() }
}

/// Whether a node of kind `kind` declares a unit of kind `unit`.
pub open spec fn is_target(unit: UnitKind, kind: NodeKind) -> bool {
    match unit {
        UnitKind::Module => kind == NodeKind::ModuleDeclarationNonansi || kind
            == NodeKind::ModuleDeclarationAnsi,
        UnitKind::Interface => kind == NodeKind::InterfaceDeclaration,
        UnitKind::Class => kind == NodeKind::ClassDeclaration,
        UnitKind::Package => kind == NodeKind::PackageDeclaration,
    }
}

/// The kinds of nodes that may stand between a declaration and the comment
/// that documents it.
pub open spec fn is_ignorable(kind: NodeKind) -> bool {
    kind == NodeKind::Description || kind == NodeKind::WhiteSpace || kind == NodeKind::Locate
}

/// Whether a visit of a node of kind `kind` makes it the previous node of
/// what follows: it is neither ignorable nor a declaration of the wanted
/// kind, and for modules it is not the node that wraps both forms of a
/// module declaration.
pub open spec fn keeps_context(unit: UnitKind, kind: NodeKind) -> bool {
    &&& !is_ignorable(kind)
    &&& !is_target(unit, kind)
    &&& !(unit == UnitKind::Module && kind == NodeKind::ModuleDeclaration)
}

/// The previous node of the node at `at`: the last node before it whose
/// visit keeps the context.
pub open spec fn previous_node(nodes: Seq<SyntaxNodeView>, unit: UnitKind, at: int) -> Option<
    int,
>
    decreases at,
{
    if at <= 0 || at > nodes.len() {
        None
    } else if keeps_context(unit, nodes[at - 1].kind) {
        Some(at - 1)
    } else {
        previous_node(nodes, unit, at - 1)
    }
}

/// The kind of node that holds the name of a unit of kind `unit`.
pub open spec fn identifier_kind(unit: UnitKind) -> NodeKind {
    match unit {
        UnitKind::Module => NodeKind::ModuleIdentifier,
        UnitKind::Interface => NodeKind::InterfaceIdentifier,
        UnitKind::Class => NodeKind::ClassIdentifier,
        UnitKind::Package => NodeKind::PackageIdentifier,
    }
}

/// The word for a unit of kind `unit` in the name of its document.
pub open spec fn unit_tag(unit: UnitKind) -> Seq<char> {
    match unit {
        UnitKind::Module => "module"@,
        UnitKind::Interface => "iface"@,
        UnitKind::Class => "class"@,
        UnitKind::Package => "pkg"@,
    }
}

/// The word for a unit of kind `unit` in the heading of its document.
pub open spec fn unit_title(unit: UnitKind) -> Seq<char> {
    match unit {
        UnitKind::Module => "Module"@,
        UnitKind::Interface => "Interface"@,
        UnitKind::Class => "Class"@,
        UnitKind::Package => "Package"@,
    }
}

/// The path, below the output directory, of the document of the unit
/// `name` of kind `unit` that the file `file` declares.
pub open spec fn doc_path(unit: UnitKind, file: Seq<char>, name: Seq<char>) -> Seq<char> {
    "src/"@ + file + "."@ + unit_tag(unit) + "."@ + name + ".md"@
}

/// The line of an index that leads to the document of a unit.
pub open spec fn index_line(name: Seq<char>, file: Seq<char>, doc: Seq<char>) -> Seq<char> {
    "- [`"@ + name + "  :"@ + file + "`]("@ + doc + ")\n"@
}

/// The heading of the document of a unit and the line that names its file.
pub open spec fn unit_heading(unit: UnitKind, name: Seq<char>, file: Seq<char>) -> Seq<char> {
    "## "@ + unit_title(unit) + " `"@ + name + "`\n\n"@ + "File: `"@ + file + "`\n\n"@
}

/// The document of the unit `name` of kind `unit` that is declared at `at`.
/// Only the document of a module holds more than the heading.
pub open spec fn page_text(
    nodes: Seq<SyntaxNodeView>,
    unit: UnitKind,
    file: Seq<char>,
    at: int,
    prev: Option<int>,
    name: Seq<char>,
) -> Result<Seq<char>, ExtractError> {
    match unit {
        UnitKind::Module => crate::mdbook::svmodule::module_page(nodes, file, at, prev, name),
        _ => Ok(unit_heading(unit, name, file)),
    }
}

/// The documents `docs` with those of one more unit behind them.
pub open spec fn add_unit(
    docs: UnitDocsView,
    unit: UnitKind,
    name: Seq<char>,
    file: Seq<char>,
    page: Seq<char>,
) -> UnitDocsView {
    let doc = doc_path(unit, file, name);
    UnitDocsView {
        text: docs.text.push(index_line(name, file, doc)),
        list: docs.list.push(UnitRecordView { name, file, doc }),
        pages: docs.pages.push(PageView { path: doc, text: page }),
    }
}

/// The documents of the units of kind `unit` that the first `n` nodes
/// declare, in source order, or the first error met on the way: the tree is
/// walked in pre-order, each declaration of the wanted kind gives a unit,
/// and a declaration without a name is an error.
pub open spec fn unit_docs(nodes: Seq<SyntaxNodeView>, unit: UnitKind, file: Seq<char>, n: int)
    -> Result<UnitDocsView, ExtractError>
    decreases n,
{
    if n <= 0 {
        Ok(no_docs())
    } else {
        match unit_docs(nodes, unit, file, n - 1) {
            Ok(docs) => if n <= nodes.len() && is_target(unit, nodes[n - 1].kind) {
                match name_below(nodes, n - 1, identifier_kind(unit)) {
                    Some(name) => match page_text(
                        nodes,
                        unit,
                        file,
                        n - 1,
                        previous_node(nodes, unit, n - 1),
                        name,
                    ) {
                        Ok(page) => Ok(add_unit(docs, unit, name, file, page)),
                        Err(e) => Err(e),
                    },
                    None => Err(ExtractError::MissingName),
                }
            } else {
                Ok(docs)
            },
            Err(e) => Err(e),
        }
    }
}

/// What a source file gives for the units of kind `unit`: nothing where the
/// file could not be parsed, else the documents of the units that its tree
/// declares.
pub open spec fn file_docs(parsed: Option<Seq<SyntaxNodeView>>, unit: UnitKind, file: Seq<char>)
    -> Result<UnitDocsView, ExtractError> {
    match parsed {
        Some(nodes) => unit_docs(nodes, unit, file, nodes.len() as int),
        None => Ok(no_docs()),
    }
}

/// Once an error has been met, it stays however far the walk goes on.
pub proof fn lemma_unit_docs_stay_err(
    nodes: Seq<SyntaxNodeView>,
    unit: UnitKind,
    file: Seq<char>,
    mid: int,
    to: int,
)
    requires
        mid <= to,
        unit_docs(nodes, unit, file, mid) is Err,
    ensures
        unit_docs(nodes, unit, file, to) == unit_docs(nodes, unit, file, mid),
    decreases to - mid,
{
    if mid < to {
        lemma_unit_docs_stay_err(nodes, unit, file, mid, to - 1);
    }
}

/// The documents `first` with the documents `second` behind them.
pub open spec fn join_docs(first: UnitDocsView, second: UnitDocsView) -> UnitDocsView {
    UnitDocsView {
        text: first.text + second.text,
        list: first.list + second.list,
        pages: first.pages + second.pages,
    }
}

/// Whether a node of kind `kind` declares a unit of kind `unit`.
pub fn kind_is_target(unit: UnitKind, kind: NodeKind) -> (yes: bool)
    ensures
        yes == is_target(unit, kind),
{
    match unit {
        UnitKind::Module => kind == NodeKind::ModuleDeclarationNonansi || kind
            == NodeKind::ModuleDeclarationAnsi,
        UnitKind::Interface => kind == NodeKind::InterfaceDeclaration,
        UnitKind::Class => kind == NodeKind::ClassDeclaration,
        UnitKind::Package => kind == NodeKind::PackageDeclaration,
    }
}

/// Whether a visit of a node of kind `kind` makes it the previous node of
/// what follows.
pub fn kind_keeps_context(unit: UnitKind, kind: NodeKind) -> (yes: bool)
    ensures
        yes == keeps_context(unit, kind),
{
    let ignorable = kind == NodeKind::Description || kind == NodeKind::WhiteSpace || kind
        == NodeKind::Locate;
    let wrapper = unit == UnitKind::Module && kind == NodeKind::ModuleDeclaration;
    !ignorable && !kind_is_target(unit, kind) && !wrapper
}

/// The kind of node that holds the name of a unit of kind `unit`.
pub fn identifier_kind_of(unit: UnitKind) -> (kind: NodeKind)
    ensures
        kind == identifier_kind(unit),
{
    match unit {
        UnitKind::Module => NodeKind::ModuleIdentifier,
        UnitKind::Interface => NodeKind::InterfaceIdentifier,
        UnitKind::Class => NodeKind::ClassIdentifier,
        UnitKind::Package => NodeKind::PackageIdentifier,
    }
}

/// The word for a unit of kind `unit` in the name of its document.
pub fn unit_tag_of(unit: UnitKind) -> (tag: &'static str)
    ensures
        tag@ == unit_tag(unit),
{
    match unit {
        UnitKind::Module => "module",
        UnitKind::Interface => "iface",
        UnitKind::Class => "class",
        UnitKind::Package => "pkg",
    }
}

/// The word for a unit of kind `unit` in the heading of its document.
pub fn unit_title_of(unit: UnitKind) -> (title: &'static str)
    ensures
        title@ == unit_title(unit),
{
    match unit {
        UnitKind::Module => "Module",
        UnitKind::Interface => "Interface",
        UnitKind::Class => "Class",
        UnitKind::Package => "Package",
    }
}

/// Writes the heading of the document of a unit and the line that names
/// its file.
pub fn print_heading(unit: UnitKind, name: &str, file_path: &str) -> (text: String)
    ensures
        text@ == unit_heading(unit, name@, file_path@),
{
    let mut text = String::from_str("## ");
    text.append(unit_title_of(unit));
    text.append(" `");
    text.append(name);
    text.append("`\n\n");
    text.append("File: `");
    text.append(file_path);
    text.append("`\n\n");
    text
}

/// Adds to `docs` what one unit gives: the line for the index, the record
/// and the document.
pub fn record_unit(docs: &mut UnitDocs, unit: UnitKind, name: String, file_path: &str, page: String)
    ensures
        final(docs).deep_view() == add_unit(
            old(docs).deep_view(),
            unit,
            name@,
            file_path@,
            page@,
        ),
{
    let ghost before = docs.deep_view();
    let mut doc = String::from_str("src/");
    doc.append(file_path);
    doc.append(".");
    doc.append(unit_tag_of(unit));
    doc.append(".");
    doc.append(name.as_str());
    doc.append(".md");
    let mut line = String::from_str("- [`");
    line.append(name.as_str());
    line.append("  :");
    line.append(file_path);
    line.append("`](");
    line.append(doc.as_str());
    line.append(")\n");
    docs.text.push(line);
    docs.pages.push(Page { path: doc.clone(), text: page });
    docs.list.push(UnitRecord { name, file: String::from_str(file_path), doc });
    proof {
        let after = add_unit(before, unit, name@, file_path@, page@);
        assert(docs.text.deep_view() =~= after.text);
        assert(docs.list.deep_view() =~= after.list);
        assert(docs.pages.deep_view() =~= after.pages);
    }
}

/// Writes the line of an index that leads to the document of a unit.
pub fn print_index_line(record: &UnitRecord) -> (line: String)
    ensures
        line@ == index_line(record.name@, record.file@, record.doc@),
{
    let mut line = String::from_str("- [`");
    line.append(record.name.as_str());
    line.append("  :");
    line.append(record.file.as_str());
    line.append("`](");
    line.append(record.doc.as_str());
    line.append(")\n");
    line
}

/// A copy of the records `list`.
pub fn copy_records(list: &Vec<UnitRecord>) -> (copy: Vec<UnitRecord>)
    ensures
        copy.deep_view() == list.deep_view(),
{
    let mut copy: Vec<UnitRecord> = Vec::new();
    let mut i: usize = 0;
    while i < list.len()
        invariant
            i <= list.len(),
            copy.len() == i,
            forall|j: int| 0 <= j < i ==> (#[trigger] copy[j]).deep_view() == list[j].deep_view(),
        decreases list.len() - i,
    {
        let record = &list[i];
        copy.push(
            UnitRecord {
                name: record.name.clone(),
                file: record.file.clone(),
                doc: record.doc.clone(),
            },
        );
        i += 1;
    }
    assert(copy.deep_view() =~= list.deep_view());
    copy
}

/// Moves the documents `more` behind the documents `docs`.
pub fn append_docs(docs: &mut UnitDocs, more: UnitDocs)
    ensures
        final(docs).deep_view() == join_docs(old(docs).deep_view(), more.deep_view()),
{
    let ghost before = docs.deep_view();
    let ghost added = more.deep_view();
    let mut more = more;
    docs.text.append(&mut more.text);
    docs.list.append(&mut more.list);
    docs.pages.append(&mut more.pages);
    proof {
        assert(docs.text.deep_view() =~= before.text + added.text);
        assert(docs.list.deep_view() =~= before.list + added.list);
        assert(docs.pages.deep_view() =~= before.pages + added.pages);
    }
}

/// Walks the tree of a source file in pre-order and writes, for each
/// declaration of a unit of kind `unit`, its document, its record and its
/// line for the index. A file that could not be parsed gives nothing. The
/// walk keeps the previous node: the node visited last that was neither
/// ignorable nor a declaration of the wanted kind. It lets the document of
/// a module hold the comment that stands before the declaration.
pub fn extract_units(parsed: Option<&SyntaxTree>, unit: UnitKind, file_path: &str) -> (docs:
    Result<UnitDocs, ExtractError>)
    ensures
        docs_result(docs) == file_docs(
            match parsed {
                Some(tree) => Some(tree@),
                None => None,
            },
            unit,
            file_path@,
        ),
{
    let mut docs = UnitDocs { text: Vec::new(), list: Vec::new(), pages: Vec::new() };
    proof {
        assert(docs.text.deep_view() =~= Seq::empty());
        assert(docs.list.deep_view() =~= Seq::empty());
        assert(docs.pages.deep_view() =~= Seq::empty());
    }
    let tree = match parsed {
        Some(tree) => tree,
        None => {
            return Ok(docs);
        },
    };
    let mut prev_node: Option<usize> = None;
    let mut i: usize = 0;
    while i < tree.nodes.len()
        invariant
            i <= tree.nodes.len(),
            parsed == Some(tree),
            tree@.len() == tree.nodes.len(),
            unit_docs(tree@, unit, file_path@, i as int) == Ok::<UnitDocsView, ExtractError>(
                docs.deep_view(),
            ),
            as_position(prev_node) == previous_node(tree@, unit, i as int),
            prev_node matches Some(p) ==> p < i,
        decreases tree.nodes.len() - i,
    {
        proof {
            tree.lemma_view();
        }
        let kind = tree.nodes[i].kind;
        if kind_is_target(unit, kind) {
            let page = match get_name_below(tree, i, identifier_kind_of(unit)) {
                Some(name) => {
                    let page = match unit {
                        UnitKind::Module => crate::mdbook::svmodule::print_module(
                            tree,
                            file_path,
                            name.as_str(),
                            i,
                            prev_node,
                        ),
                        UnitKind::Interface => Ok(
                            crate::mdbook::sviface::print_iface(name.as_str(), file_path),
                        ),
                        UnitKind::Class => Ok(
                            crate::mdbook::svclass::print_class(name.as_str(), file_path),
                        ),
                        UnitKind::Package => Ok(
                            crate::mdbook::svpkg::print_package(name.as_str(), file_path),
                        ),
                    };
                    match page {
                        Ok(page) => Ok((name, page)),
                        Err(e) => Err(e),
                    }
                },
                None => Err(ExtractError::MissingName),
            };
            match page {
                Ok((name, page)) => {
                    record_unit(&mut docs, unit, name, file_path, page);
                },
                Err(e) => {
                    proof {
                        lemma_unit_docs_stay_err(
                            tree@,
                            unit,
                            file_path@,
                            i as int + 1,
                            tree@.len() as int,
                        );
                    }
                    return Err(e);
                },
            }
        } else if kind_keeps_context(unit, kind) {
            prev_node = Some(i);
        }
        i += 1;
    }
    Ok(docs)
}

} // verus!
