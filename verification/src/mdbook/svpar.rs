//! A syntax tree as the extractors read it, and helpers to look into it.
//!
//! The tree is held as the list of its nodes in pre-order. Each node knows
//! how many nodes its subtree has, itself included, so a subtree is a
//! stretch of the list.

use vstd::prelude::*;
use vstd::string::*;

verus! {

/// Direction of a port. Only `input`, `output` and `inout` are told apart
/// from the others.
#[derive(Clone, Copy, Debug, PartialEq, Eq, Structural)]
pub enum PortDirection {
    Input,
    Output,
    Inout,
    Other,
}

/// Net type of a port. Only `wire` is told apart from the others.
#[derive(Clone, Copy, Debug, PartialEq, Eq, Structural)]
pub enum NetType {
    Wire,
    Other,
}

/// Integer vector type of a port.
#[derive(Clone, Copy, Debug, PartialEq, Eq, Structural)]
pub enum IntegerVectorType {
    Bit,
    Logic,
    Reg,
    Other,
}

/// The kinds of syntax nodes that the extractors tell apart.
#[derive(Clone, Copy, Debug, PartialEq, Eq, Structural)]
pub enum NodeKind {
    Description,
    WhiteSpace,
    Locate,
    Comment,
    ModuleDeclaration,
    ModuleDeclarationNonansi,
    ModuleDeclarationAnsi,
    InterfaceDeclaration,
    ClassDeclaration,
    PackageDeclaration,
    ModuleIdentifier,
    InterfaceIdentifier,
    ClassIdentifier,
    PackageIdentifier,
    PortIdentifier,
    InstanceIdentifier,
    SimpleIdentifier,
    EscapedIdentifier,
    AnsiPortDeclaration,
    PortDirection(PortDirection),
    NetType(NetType),
    IntegerVectorType(IntegerVectorType),
    PackedDimensionRange,
    ModuleInstantiation,
    Other,
}

/// A group of node kinds that a search looks for.
#[derive(Clone, Copy, Debug, PartialEq, Eq, Structural)]
pub enum NodeClass {
    /// Nodes of exactly this kind.
    Kind(NodeKind),
    /// A plain or an escaped identifier.
    Identifier,
    /// A port direction, whichever.
    PortDirection,
    /// A net type, whichever.
    NetType,
    /// An integer vector type, whichever.
    IntegerVectorType,
}

/// One node of a syntax tree.
#[derive(Clone, Debug, PartialEq, Eq)]
pub struct SyntaxNode {
    pub kind: NodeKind,
    /// Number of nodes in the subtree of this node, itself included.
    pub span: usize,
    /// Source text of a `Locate` node; empty for every other kind.
    pub text: String,
}

/// Mathematical model of a syntax node.
pub ghost struct SyntaxNodeView {
    pub kind: NodeKind,
    pub span: nat,
    pub text: Seq<char>,
}

impl DeepView for SyntaxNode {
    type V = SyntaxNodeView;

    open spec fn deep_view(&self) -> SyntaxNodeView {
        SyntaxNodeView { kind: self.kind, span: self.span as nat, text: self.text@ }
    }
}

/// A syntax tree: its nodes in pre-order.
#[derive(Clone, Debug, PartialEq, Eq)]
pub struct SyntaxTree {
    pub nodes: Vec<SyntaxNode>,
}

impl View for SyntaxTree {
    type V = Seq<SyntaxNodeView>;

    open spec fn view(&self) -> Seq<SyntaxNodeView> {
        self.nodes.deep_view()
    }
}

/// A position in a tree as a mathematical integer.
pub open spec fn as_position(at: Option<usize>) -> Option<int> {
    match at {
        Some(i) => Some(i as int),
        None => None,
    }
}

impl DeepView for SyntaxTree {
    type V = Seq<SyntaxNodeView>;

    open spec fn deep_view(&self) -> Seq<SyntaxNodeView> {
        self@
    }
}

/// One node of a syntax tree as the parser hands it out: the name of its
/// kind, the number of nodes in its subtree, itself included, and for a
/// `Locate` node its source text.
#[derive(Clone, Debug, PartialEq, Eq)]
pub struct ParsedNode {
    pub kind: String,
    pub span: usize,
    pub text: Option<String>,
}

/// Mathematical model of a node as the parser hands it out.
pub ghost struct ParsedNodeView {
    pub kind: Seq<char>,
    pub span: nat,
    pub text: Option<Seq<char>>,
}

impl DeepView for ParsedNode {
    type V = ParsedNodeView;

    open spec fn deep_view(&self) -> ParsedNodeView {
        ParsedNodeView {
            kind: self.kind@,
            span: self.span as nat,
            text: self.text.deep_view(),
        }
    }
}

/// Parses `source` with `sv_parser::parse_sv_str`, with no macro defined,
/// no include path and include directives skipped, and lists the nodes that
/// the iterator of the tree hands out: each with the name that its
/// `Display` gives, the count of the nodes that its own iterator hands out,
/// and for a `Locate` the text that `SyntaxTree::get_str` gives. Nothing is
/// claimed of the result: where the text uses a macro that it defines as an
/// include directive, the parser looks for the file, so the nodes may
/// depend on what is on disk.
#[verifier::external_body]
fn parse_nodes(source: &str, path: &str) -> (nodes: Option<Vec<ParsedNode>>) {
    let defines = std::collections::HashMap::new();
    let includes: Vec<std::path::PathBuf> = Vec::new();
    let (tree, _) = sv_parser::parse_sv_str(source, path, &defines, &includes, true, true).ok()?;
    let mut nodes = Vec::new();
    for node in &tree {
        let text = match &node {
            sv_parser::RefNode::Locate(locate) => tree.get_str(*locate).map(String::from),
            _ => None,
        };
        let span = node.clone().into_iter().count();
        nodes.push(ParsedNode { kind: node.to_string(), span, text });
    }
    Some(nodes)
}

/// The position behind the subtree of the parsed node at `at`.
pub open spec fn parsed_end(nodes: Seq<ParsedNodeView>, at: int) -> int {
    if 0 <= at < nodes.len() && at + nodes[at].span <= nodes.len() {
        at + nodes[at].span
    } else {
        nodes.len() as int
    }
}

/// `i` is the position of the first `Locate` node in `from..to`.
pub open spec fn is_first_locate(nodes: Seq<ParsedNodeView>, from: int, to: int, i: int) -> bool {
    &&& 0 <= from <= i < to <= nodes.len()
    &&& nodes[i].kind == "Locate"@
    &&& forall|j: int| from <= j < i ==> (#[trigger] nodes[j]).kind != "Locate"@
}

/// The keyword of the parsed node at `at`: the source text of the first
/// `Locate` node in its subtree.
pub open spec fn keyword_of(nodes: Seq<ParsedNodeView>, at: int) -> Option<Seq<char>> {
    if exists|i: int| is_first_locate(nodes, at, parsed_end(nodes, at), i) {
        nodes[choose|i: int| is_first_locate(nodes, at, parsed_end(nodes, at), i)].text
    } else {
        None
    }
}

/// The direction that the keyword `keyword` names.
pub open spec fn direction_of_keyword(keyword: Option<Seq<char>>) -> PortDirection {
    if keyword == Some("input"@) {
        PortDirection::Input
    } else if keyword == Some("output"@) {
        PortDirection::Output
    } else if keyword == Some("inout"@) {
        PortDirection::Inout
    } else {
        PortDirection::Other
    }
}

/// The net type that the keyword `keyword` names.
pub open spec fn net_type_of_keyword(keyword: Option<Seq<char>>) -> NetType {
    if keyword == Some("wire"@) {
        NetType::Wire
    } else {
        NetType::Other
    }
}

/// The integer vector type that the keyword `keyword` names.
pub open spec fn vector_type_of_keyword(keyword: Option<Seq<char>>) -> IntegerVectorType {
    if keyword == Some("bit"@) {
        IntegerVectorType::Bit
    } else if keyword == Some("logic"@) {
        IntegerVectorType::Logic
    } else if keyword == Some("reg"@) {
        IntegerVectorType::Reg
    } else {
        IntegerVectorType::Other
    }
}

/// The kind of a node that the parser calls `name`. The keyword of the
/// node tells the directions and the types apart.
pub open spec fn node_kind(name: Seq<char>, keyword: Option<Seq<char>>) -> NodeKind {
    if name == "Description"@ {
        NodeKind::Description
    } else if name == "WhiteSpace"@ {
        NodeKind::WhiteSpace
    } else if name == "Locate"@ {
        NodeKind::Locate
    } else if name == "Comment"@ {
        NodeKind::Comment
    } else if name == "ModuleDeclaration"@ {
        NodeKind::ModuleDeclaration
    } else if name == "ModuleDeclarationNonansi"@ {
        NodeKind::ModuleDeclarationNonansi
    } else if name == "ModuleDeclarationAnsi"@ {
        NodeKind::ModuleDeclarationAnsi
    } else if name == "InterfaceDeclaration"@ {
        NodeKind::InterfaceDeclaration
    } else if name == "ClassDeclaration"@ {
        NodeKind::ClassDeclaration
    } else if name == "PackageDeclaration"@ {
        NodeKind::PackageDeclaration
    } else if name == "ModuleIdentifier"@ {
        NodeKind::ModuleIdentifier
    } else if name == "InterfaceIdentifier"@ {
        NodeKind::InterfaceIdentifier
    } else if name == "ClassIdentifier"@ {
        NodeKind::ClassIdentifier
    } else if name == "PackageIdentifier"@ {
        NodeKind::PackageIdentifier
    } else if name == "PortIdentifier"@ {
        NodeKind::PortIdentifier
    } else if name == "InstanceIdentifier"@ {
        NodeKind::InstanceIdentifier
    } else if name == "SimpleIdentifier"@ {
        NodeKind::SimpleIdentifier
    } else if name == "EscapedIdentifier"@ {
        NodeKind::EscapedIdentifier
    } else if name == "AnsiPortDeclaration"@ {
        NodeKind::AnsiPortDeclaration
    } else if name == "PortDirection"@ {
        NodeKind::PortDirection(direction_of_keyword(keyword))
    } else if name == "NetType"@ {
        NodeKind::NetType(net_type_of_keyword(keyword))
    } else if name == "IntegerVectorType"@ {
        NodeKind::IntegerVectorType(vector_type_of_keyword(keyword))
    } else if name == "PackedDimensionRange"@ {
        NodeKind::PackedDimensionRange
    } else if name == "ModuleInstantiation"@ {
        NodeKind::ModuleInstantiation
    } else {
        NodeKind::Other
    }
}

/// The node that the extractors read for the parsed node at `at`.
pub open spec fn syntax_node(nodes: Seq<ParsedNodeView>, at: int) -> SyntaxNodeView {
    SyntaxNodeView {
        kind: node_kind(nodes[at].kind, keyword_of(nodes, at)),
        span: nodes[at].span,
        text: match nodes[at].text {
            Some(text) => text,
            None => Seq::empty(),
        },
    }
}

/// The tree that the extractors read for the nodes that the parser hands
/// out: node for node, with the kinds told apart.
pub open spec fn syntax_nodes(nodes: Seq<ParsedNodeView>) -> Seq<SyntaxNodeView> {
    Seq::new(nodes.len(), |i: int| syntax_node(nodes, i))
}

/// Whether `tree` is the tree that the extractors read for some list of
/// nodes that a parser may hand out.
pub open spec fn is_syntax_of_nodes(tree: Seq<SyntaxNodeView>) -> bool {
    exists|nodes: Seq<ParsedNodeView>| tree == #[trigger] syntax_nodes(nodes)
}

/// Whether a node of kind `kind` belongs to `class`.
pub open spec fn in_class(kind: NodeKind, class: NodeClass) -> bool {
    match class {
        NodeClass::Kind(wanted) => kind == wanted,
        NodeClass::Identifier => kind == NodeKind::SimpleIdentifier || kind
            == NodeKind::EscapedIdentifier,
        NodeClass::PortDirection => kind is PortDirection,
        NodeClass::NetType => kind is NetType,
        NodeClass::IntegerVectorType => kind is IntegerVectorType,
    }
}

/// The position behind the subtree of the node at `at`: the subtree is the
/// stretch from `at` up to it. A span that reaches behind the list ends
/// with the list.
pub open spec fn subtree_end(nodes: Seq<SyntaxNodeView>, at: int) -> int {
    if 0 <= at < nodes.len() {
        if at + nodes[at].span > nodes.len() {
            nodes.len() as int
        } else {
            at + nodes[at].span
        }
    } else {
        at
    }
}

/// `i` is the first position in `from..to` that holds a node of `class`.
pub open spec fn is_first_of(
    nodes: Seq<SyntaxNodeView>,
    from: int,
    to: int,
    class: NodeClass,
    i: int,
) -> bool {
    &&& 0 <= from <= i < to <= nodes.len()
    &&& in_class(nodes[i].kind, class)
    &&& forall|j: int| from <= j < i ==> !in_class((#[trigger] nodes[j]).kind, class)
}

/// The first position in `from..to` that holds a node of `class`.
pub open spec fn first_of(nodes: Seq<SyntaxNodeView>, from: int, to: int, class: NodeClass)
    -> Option<int> {
    if exists|i: int| is_first_of(nodes, from, to, class, i) {
        Some(choose|i: int| is_first_of(nodes, from, to, class, i))
    } else {
        None
    }
}

/// The first node of `class` in the subtree of the node at `at`, that node
/// included.
pub open spec fn first_below(nodes: Seq<SyntaxNodeView>, at: int, class: NodeClass) -> Option<
    int,
> {
    first_of(nodes, at, subtree_end(nodes, at), class)
}

/// The source text of the first `Locate` node in the subtree of `at`.
pub open spec fn located_text(nodes: Seq<SyntaxNodeView>, at: int) -> Option<Seq<char>> {
    match first_below(nodes, at, NodeClass::Kind(NodeKind::Locate)) {
        Some(i) => Some(nodes[i].text),
        None => None,
    }
}

/// The position of the `Locate` node that holds the text of the nearest
/// identifier below `at`: the first plain or escaped identifier of the
/// subtree, and in it the first `Locate`.
pub open spec fn identifier(nodes: Seq<SyntaxNodeView>, at: int) -> Option<int> {
    match first_below(nodes, at, NodeClass::Identifier) {
        Some(id) => first_below(nodes, id, NodeClass::Kind(NodeKind::Locate)),
        None => None,
    }
}

/// The name that the node at `at` declares or refers to: below the first
/// node of kind `id_kind` in its subtree, the text of the nearest
/// identifier.
pub open spec fn name_below(nodes: Seq<SyntaxNodeView>, at: int, id_kind: NodeKind) -> Option<
    Seq<char>,
> {
    match first_below(nodes, at, NodeClass::Kind(id_kind)) {
        Some(id) => match identifier(nodes, id) {
            Some(locate) => Some(nodes[locate].text),
            None => None,
        },
        None => None,
    }
}

/// The texts of the `Locate` nodes in `from..to`, one after another.
pub open spec fn locate_texts(nodes: Seq<SyntaxNodeView>, from: int, to: int) -> Seq<char>
    decreases to - from,
{
    if from >= to || to > nodes.len() || from < 0 {
        Seq::empty()
    } else if nodes[to - 1].kind == NodeKind::Locate {
        locate_texts(nodes, from, to - 1) + nodes[to - 1].text
    } else {
        locate_texts(nodes, from, to - 1)
    }
}

/// The source text of the subtree of `at`: the text of every `Locate` leaf
/// in it, in source order.
pub open spec fn whole_text(nodes: Seq<SyntaxNodeView>, at: int) -> Seq<char> {
    locate_texts(nodes, at, subtree_end(nodes, at))
}

impl SyntaxTree {
    /// The model of the tree is the list of the models of its nodes.
    pub proof fn lemma_view(&self)
        ensures
            self@.len() == self.nodes@.len(),
            forall|i: int|
                0 <= i < self.nodes@.len() ==> {
                    &&& (#[trigger] self@[i]).kind == self.nodes@[i].kind
                    &&& self@[i].span == self.nodes@[i].span
                    &&& self@[i].text == self.nodes@[i].text@
                },
    {
    }

    /// The position behind the subtree of the node at `at`.
    pub fn subtree_end(&self, at: usize) -> (end: usize)
        requires
            at < self@.len(),
        ensures
            end == subtree_end(self@, at as int),
            at <= end <= self@.len(),
    {
        let len = self.nodes.len();
        let span = self.nodes[at].span;
        if span > len - at {
            len
        } else {
            at + span
        }
    }

    /// Looks in `from..to` for the first node of `class`.
    pub fn find_first(&self, from: usize, to: usize, class: NodeClass) -> (found: Option<usize>)
        requires
            from <= to <= self@.len(),
        ensures
            match found {
                Some(i) => first_of(self@, from as int, to as int, class) == Some(i as int)
                    && from <= i < to,
                None => first_of(self@, from as int, to as int, class) is None,
            },
    {
        let mut i: usize = from;
        while i < to
            invariant
                from <= i <= to <= self@.len(),
                forall|j: int| from <= j < i ==> !in_class((#[trigger] self@[j]).kind, class),
            decreases to - i,
        {
            if kind_in_class(self.nodes[i].kind, class) {
                proof {
                    lemma_first_of_is(self@, from as int, to as int, class, i as int);
                }
                return Some(i);
            }
            i += 1;
        }
        None
    }

    /// Looks in the subtree of `at` for the first node of `class`.
    pub fn find_below(&self, at: usize, class: NodeClass) -> (found: Option<usize>)
        requires
            at < self@.len(),
        ensures
            match found {
                Some(i) => first_below(self@, at as int, class) == Some(i as int) && at <= i
                    < self@.len(),
                None => first_below(self@, at as int, class) is None,
            },
    {
        let end = self.subtree_end(at);
        self.find_first(at, end, class)
    }
}

/// The keyword of the parsed node at `at`.
fn keyword_at(nodes: &Vec<ParsedNode>, at: usize) -> (keyword: Option<&String>)
    requires
        at < nodes.len(),
    ensures
        match keyword {
            Some(text) => keyword_of(nodes.deep_view(), at as int) == Some(text@),
            None => keyword_of(nodes.deep_view(), at as int) is None,
        },
{
    let ghost views = nodes.deep_view();
    let span = nodes[at].span;
    let end = if span > nodes.len() - at {
        nodes.len()
    } else {
        at + span
    };
    let mut i: usize = at;
    while i < end
        invariant
            at <= i <= end <= nodes.len(),
            views == nodes.deep_view(),
            end == parsed_end(views, at as int),
            forall|j: int| at <= j < i ==> (#[trigger] views[j]).kind != "Locate"@,
        decreases end - i,
    {
        if crate::order::same_text(nodes[i].kind.as_str(), "Locate") {
            proof {
                assert(is_first_locate(views, at as int, end as int, i as int));
            }
            return nodes[i].text.as_ref();
        }
        i += 1;
    }
    None
}

/// Whether the keyword `keyword` is the word `word`.
fn keyword_is(keyword: Option<&String>, word: &str) -> (yes: bool)
    ensures
        yes == (match keyword {
            Some(text) => text@ == word@,
            None => false,
        }),
{
    match keyword {
        Some(text) => crate::order::same_text(text.as_str(), word),
        None => false,
    }
}

/// Tells the kind of a node that the parser calls `name`.
pub fn classify(name: &str, keyword: Option<&String>) -> (kind: NodeKind)
    ensures
        kind == node_kind(
            name@,
            match keyword {
                Some(text) => Some(text@),
                None => None,
            },
        ),
{
    let same = |word: &str| -> (yes: bool)
        ensures
            yes == (name@ == word@),
        { crate::order::same_text(name, word) };
    if same("Description") {
        NodeKind::Description
    } else if same("WhiteSpace") {
        NodeKind::WhiteSpace
    } else if same("Locate") {
        NodeKind::Locate
    } else if same("Comment") {
        NodeKind::Comment
    } else if same("ModuleDeclaration") {
        NodeKind::ModuleDeclaration
    } else if same("ModuleDeclarationNonansi") {
        NodeKind::ModuleDeclarationNonansi
    } else if same("ModuleDeclarationAnsi") {
        NodeKind::ModuleDeclarationAnsi
    } else if same("InterfaceDeclaration") {
        NodeKind::InterfaceDeclaration
    } else if same("ClassDeclaration") {
        NodeKind::ClassDeclaration
    } else if same("PackageDeclaration") {
        NodeKind::PackageDeclaration
    } else if same("ModuleIdentifier") {
        NodeKind::ModuleIdentifier
    } else if same("InterfaceIdentifier") {
        NodeKind::InterfaceIdentifier
    } else if same("ClassIdentifier") {
        NodeKind::ClassIdentifier
    } else if same("PackageIdentifier") {
        NodeKind::PackageIdentifier
    } else if same("PortIdentifier") {
        NodeKind::PortIdentifier
    } else if same("InstanceIdentifier") {
        NodeKind::InstanceIdentifier
    } else if same("SimpleIdentifier") {
        NodeKind::SimpleIdentifier
    } else if same("EscapedIdentifier") {
        NodeKind::EscapedIdentifier
    } else if same("AnsiPortDeclaration") {
        NodeKind::AnsiPortDeclaration
    } else if same("PortDirection") {
        if keyword_is(keyword, "input") {
            NodeKind::PortDirection(PortDirection::Input)
        } else if keyword_is(keyword, "output") {
            NodeKind::PortDirection(PortDirection::Output)
        } else if keyword_is(keyword, "inout") {
            NodeKind::PortDirection(PortDirection::Inout)
        } else {
            NodeKind::PortDirection(PortDirection::Other)
        }
    } else if same("NetType") {
        if keyword_is(keyword, "wire") {
            NodeKind::NetType(NetType::Wire)
        } else {
            NodeKind::NetType(NetType::Other)
        }
    } else if same("IntegerVectorType") {
        if keyword_is(keyword, "bit") {
            NodeKind::IntegerVectorType(IntegerVectorType::Bit)
        } else if keyword_is(keyword, "logic") {
            NodeKind::IntegerVectorType(IntegerVectorType::Logic)
        } else if keyword_is(keyword, "reg") {
            NodeKind::IntegerVectorType(IntegerVectorType::Reg)
        } else {
            NodeKind::IntegerVectorType(IntegerVectorType::Other)
        }
    } else if same("PackedDimensionRange") {
        NodeKind::PackedDimensionRange
    } else if same("ModuleInstantiation") {
        NodeKind::ModuleInstantiation
    } else {
        NodeKind::Other
    }
}

/// Makes the tree that the extractors read of the nodes that the parser
/// hands out.
pub fn tree_of_nodes(nodes: &Vec<ParsedNode>) -> (tree: SyntaxTree)
    ensures
        tree@ == syntax_nodes(nodes.deep_view()),
{
    let ghost views = nodes.deep_view();
    let mut out: Vec<SyntaxNode> = Vec::new();
    let mut i: usize = 0;
    while i < nodes.len()
        invariant
            i <= nodes.len(),
            views == nodes.deep_view(),
            out.len() == i,
            forall|j: int| 0 <= j < i ==> (#[trigger] out[j]).deep_view() == syntax_node(views, j),
        decreases nodes.len() - i,
    {
        let node = &nodes[i];
        let kind = classify(node.kind.as_str(), keyword_at(nodes, i));
        let text = match &node.text {
            Some(text) => text.clone(),
            None => String::new(),
        };
        out.push(SyntaxNode { kind, span: node.span, text });
        i += 1;
    }
    let tree = SyntaxTree { nodes: out };
    tree
}

/// Parses the source text `source` of the file `path`. No macro is
/// defined and include directives are skipped. The result is `None` where
/// the parser fails. Which tree comes is the parser's matter, and where a
/// macro of the text stands for an include directive it may depend on the
/// files on disk; whatever comes is the tree of the nodes that the parser
/// handed out, with the kinds told apart as `tree_of_nodes` does.
pub fn parse_source(source: &str, path: &str) -> (tree: Option<SyntaxTree>)
    ensures
        tree matches Some(t) ==> is_syntax_of_nodes(t@),
{
    match parse_nodes(source, path) {
        Some(nodes) => {
            let tree = tree_of_nodes(&nodes);
            assert(tree@ == syntax_nodes(nodes.deep_view()));
            Some(tree)
        },
        None => None,
    }
}

/// Whether a node of kind `kind` belongs to `class`.
pub fn kind_in_class(kind: NodeKind, class: NodeClass) -> (yes: bool)
    ensures
        yes == in_class(kind, class),
{
    match class {
        NodeClass::Kind(wanted) => kind == wanted,
        NodeClass::Identifier => kind == NodeKind::SimpleIdentifier || kind
            == NodeKind::EscapedIdentifier,
        NodeClass::PortDirection => match kind {
            NodeKind::PortDirection(_) => true,
            _ => false,
        },
        NodeClass::NetType => match kind {
            NodeKind::NetType(_) => true,
            _ => false,
        },
        NodeClass::IntegerVectorType => match kind {
            NodeKind::IntegerVectorType(_) => true,
            _ => false,
        },
    }
}

/// The first node of a class is found at `i` exactly when `i` is its
/// position.
pub proof fn lemma_first_of_is(
    nodes: Seq<SyntaxNodeView>,
    from: int,
    to: int,
    class: NodeClass,
    i: int,
)
    requires
        is_first_of(nodes, from, to, class, i),
    ensures
        first_of(nodes, from, to, class) == Some(i),
{
}

/// Finds the text of the nearest identifier below the node at `at`:
/// the position of its `Locate` node, or `None` where the subtree holds no
/// identifier.
pub fn get_identifier(tree: &SyntaxTree, at: usize) -> (found: Option<usize>)
    requires
        at < tree@.len(),
    ensures
        match found {
            Some(i) => identifier(tree@, at as int) == Some(i as int) && i < tree@.len()
                && tree@[i as int].kind == NodeKind::Locate,
            None => identifier(tree@, at as int) is None,
        },
{
    match tree.find_below(at, NodeClass::Identifier) {
        Some(id) => {
            let found = tree.find_below(id, NodeClass::Kind(NodeKind::Locate));
            found
        },
        None => None,
    }
}

/// Finds the name that the node at `at` declares or refers to.
pub fn get_name_below(tree: &SyntaxTree, at: usize, id_kind: NodeKind) -> (name: Option<String>)
    requires
        at < tree@.len(),
    ensures
        name.deep_view() == name_below(tree@, at as int, id_kind),
{
    match tree.find_below(at, NodeClass::Kind(id_kind)) {
        Some(id) => match get_identifier(tree, id) {
            Some(locate) => {
                proof {
                    tree.lemma_view();
                }
                Some(tree.nodes[locate].text.clone())
            },
            None => None,
        },
        None => None,
    }
}

/// Finds the source text of the first `Locate` node in the subtree of the
/// node at `at`.
pub fn get_located_text(tree: &SyntaxTree, at: usize) -> (text: Option<String>)
    requires
        at < tree@.len(),
    ensures
        text.deep_view() == located_text(tree@, at as int),
{
    match tree.find_below(at, NodeClass::Kind(NodeKind::Locate)) {
        Some(locate) => {
            proof {
                tree.lemma_view();
            }
            Some(tree.nodes[locate].text.clone())
        },
        None => None,
    }
}

/// Concatenates the text of every `Locate` leaf in the subtree of the node
/// at `at`, in source order.
pub fn get_whole_str(tree: &SyntaxTree, at: usize) -> (text: String)
    requires
        at < tree@.len(),
    ensures
        text@ == whole_text(tree@, at as int),
{
    let end = tree.subtree_end(at);
    let mut text = String::new();
    let mut i: usize = at;
    while i < end
        invariant
            at <= i <= end <= tree@.len(),
            text@ == locate_texts(tree@, at as int, i as int),
        decreases end - i,
    {
        proof {
            tree.lemma_view();
        }
        if tree.nodes[i].kind == NodeKind::Locate {
            text.append(tree.nodes[i].text.as_str());
        }
        i += 1;
    }
    text
}

} // verus!
