//! The document that describes one module: its ports, the modules it
//! instantiates and the comment that stands before it.

use vstd::prelude::*;
use vstd::string::*;
use crate::mdbook::svpar::{
    first_below,
    located_text,
    name_below,
    whole_text,
    IntegerVectorType,
    NetType,
    NodeClass,
    NodeKind,
    PortDirection,
    SyntaxNodeView,
    SyntaxTree,
};
use crate::mdbook::svpar::{
    as_position,
    get_located_text,
    get_name_below,
    get_whole_str,
    subtree_end,
};
use crate::mdbook::units::{
    docs_result,
    extract_units,
    file_docs,
    text_result,
    ExtractError,
    UnitDocs,
    UnitKind,
};

verus! {

/// Pattern of the opening of a block comment: a slash and its stars at the
/// start of the text, after optional white space.
pub const COMMENT_OPENING: &'static str = r"^\s*/(\*)+";

/// Pattern of the closing of a block comment: stars and a slash at the end
/// of the text, before optional white space.
pub const COMMENT_CLOSING: &'static str = r"(\*)+/\s*$";

/// Pattern of a line that holds nothing but stars and white space.
pub const STAR_LINE: &'static str = r"(?m)^\s*(\*)+\s*$";

/// Pattern of the stars that lead a line, with the white space before them.
pub const STAR_PREFIX: &'static str = r"(?m)^\s*(\*)+";

/// What stands for a line of stars until the leading stars are gone, so
/// that the paragraphs around it do not run together.
pub const EMPTY_LINE_MARK: &'static str = "<!--empty_line-->";

/// Pattern of a line that holds the mark of an empty line and nothing else.
pub const EMPTY_LINE_MARK_LINE: &'static str = r"(?m)^<!--empty_line-->$";

/// The text in which every match of the regular expression `pattern` in
/// `text`, taken from the left and without overlap, is replaced by `with`;
/// `None` where `pattern` is not accepted as a regular expression.
pub uninterp spec fn regex_replace_all(pattern: Seq<char>, text: Seq<char>, with: Seq<char>)
    -> Option<Seq<char>>;

/// Compiles `pattern` with `regex::Regex::new` and rewrites `text` with
/// `regex::Regex::replace_all`. The result is `None` exactly where the
/// pattern is rejected; otherwise it is the rewritten text, which is taken
/// to be a function of the three texts alone.
#[verifier::external_body]
fn replace_all(pattern: &str, text: &str, with: &str) -> (out: Option<String>)
    ensures
        out.deep_view() == regex_replace_all(pattern@, text@, with@),
{
    match regex::Regex::new(pattern) {
        Ok(re) => Some(re.replace_all(text, with).into_owned()),
        Err(_) => None,
    }
}

/// The text of a block comment without its comment signs: five rewrites,
/// each applied to the result of the one before. The opening is removed,
/// then the closing; each line of nothing but stars is replaced by the mark
/// of an empty line; the stars that lead a line are removed; at last the
/// marks are removed. The text is `None` where one of the patterns is
/// rejected.
pub open spec fn stripped_comment(raw: Seq<char>) -> Option<Seq<char>> {
    match regex_replace_all(COMMENT_OPENING@, raw, ""@) {
        Some(opened) => match regex_replace_all(COMMENT_CLOSING@, opened, ""@) {
            Some(closed) => match regex_replace_all(STAR_LINE@, closed, EMPTY_LINE_MARK@) {
                Some(marked) => match regex_replace_all(STAR_PREFIX@, marked, ""@) {
                    Some(bare) => regex_replace_all(EMPTY_LINE_MARK_LINE@, bare, ""@),
                    None => None,
                },
                None => None,
            },
            None => None,
        },
        None => None,
    }
}

/// Strips the comment signs from the raw text of a block comment: the
/// opening, the closing, and the stars that lead its lines. A line of
/// nothing but stars becomes an empty line.
pub fn extract_text_from_comment(raw_text: &str) -> (text: Option<String>)
    ensures
        text.deep_view() == stripped_comment(raw_text@),
{
    match replace_all(COMMENT_OPENING, raw_text, "") {
        Some(opened) => match replace_all(COMMENT_CLOSING, opened.as_str(), "") {
            Some(closed) => match replace_all(STAR_LINE, closed.as_str(), EMPTY_LINE_MARK) {
                Some(marked) => match replace_all(STAR_PREFIX, marked.as_str(), "") {
                    Some(bare) => replace_all(EMPTY_LINE_MARK_LINE, bare.as_str(), ""),
                    None => None,
                },
                None => None,
            },
            None => None,
        },
        None => None,
    }
}

/// How the direction of the port declared at `port` is shown.
pub open spec fn direction_text(nodes: Seq<SyntaxNodeView>, port: int) -> Seq<char> {
    match first_below(nodes, port, NodeClass::PortDirection) {
        Some(i) => match nodes[i].kind {
            NodeKind::PortDirection(PortDirection::Input) => "\u{2794} input"@,
            NodeKind::PortDirection(PortDirection::Output) => "output \u{2794}"@,
            NodeKind::PortDirection(PortDirection::Inout) => "inout"@,
            _ => "?"@,
        },
        None => "?"@,
    }
}

/// The line that shows the net type of the port declared at `port`: one
/// for `wire`, none for any other net type.
pub open spec fn net_type_line(nodes: Seq<SyntaxNodeView>, port: int) -> Seq<char> {
    match first_below(nodes, port, NodeClass::NetType) {
        Some(i) => match nodes[i].kind {
            NodeKind::NetType(NetType::Wire) => "  * type: wire\n"@,
            _ => Seq::empty(),
        },
        None => Seq::empty(),
    }
}

/// The line that shows the integer vector type of the port declared at
/// `port`.
pub open spec fn vector_type_line(nodes: Seq<SyntaxNodeView>, port: int) -> Seq<char> {
    match first_below(nodes, port, NodeClass::IntegerVectorType) {
        Some(i) => match nodes[i].kind {
            NodeKind::IntegerVectorType(IntegerVectorType::Reg) => "  * type: reg\n"@,
            NodeKind::IntegerVectorType(IntegerVectorType::Logic) => "  * type: logic\n"@,
            NodeKind::IntegerVectorType(IntegerVectorType::Bit) => "  * type: bit\n"@,
            _ => Seq::empty(),
        },
        None => Seq::empty(),
    }
}

/// The line that shows the packed width of the port declared at `port`,
/// in the words of the source.
pub open spec fn width_line(nodes: Seq<SyntaxNodeView>, port: int) -> Seq<char> {
    match first_below(nodes, port, NodeClass::Kind(NodeKind::PackedDimensionRange)) {
        Some(i) => "  * width: "@ + whole_text(nodes, i) + "\n"@,
        None => Seq::empty(),
    }
}

/// The name of the port declared at `port`: the text of the first `Locate`
/// below its port identifier.
pub open spec fn port_name(nodes: Seq<SyntaxNodeView>, port: int) -> Option<Seq<char>> {
    match first_below(nodes, port, NodeClass::Kind(NodeKind::PortIdentifier)) {
        Some(id) => located_text(nodes, id),
        None => None,
    }
}

/// The entry of the port declared at `port`; `None` where the declaration
/// holds no name.
pub open spec fn port_entry(nodes: Seq<SyntaxNodeView>, port: int) -> Option<Seq<char>> {
    match port_name(nodes, port) {
        Some(name) => Some(
            "- "@ + name + "\n"@ + "  * direction: "@ + direction_text(nodes, port) + "\n"@
                + net_type_line(nodes, port) + vector_type_line(nodes, port) + width_line(
                nodes,
                port,
            ),
        ),
        None => None,
    }
}

/// The entries of the ports declared in `from..to`, in source order; `None`
/// where one of the declarations holds no name.
pub open spec fn port_entries(nodes: Seq<SyntaxNodeView>, from: int, to: int) -> Option<
    Seq<char>,
>
    decreases to - from,
{
    if from >= to {
        Some(Seq::empty())
    } else {
        match port_entries(nodes, from, to - 1) {
            Some(front) => if nodes[to - 1].kind == NodeKind::AnsiPortDeclaration {
                match port_entry(nodes, to - 1) {
                    Some(entry) => Some(front + entry),
                    None => None,
                }
            } else {
                Some(front)
            },
            None => None,
        }
    }
}

/// Once a port without a name has been met, the entries stay undefined
/// however far the stretch is extended.
pub proof fn lemma_port_entries_stay_none(
    nodes: Seq<SyntaxNodeView>,
    from: int,
    mid: int,
    to: int,
)
    requires
        from <= mid <= to,
        port_entries(nodes, from, mid) is None,
    ensures
        port_entries(nodes, from, to) is None,
    decreases to - mid,
{
    if mid < to {
        lemma_port_entries_stay_none(nodes, from, mid, to - 1);
    }
}

/// Shows how the direction of the port declared at `port` reads.
fn direction_of(tree: &SyntaxTree, port: usize) -> (text: &'static str)
    requires
        port < tree@.len(),
    ensures
        text@ == direction_text(tree@, port as int),
{
    proof {
        tree.lemma_view();
    }
    match tree.find_below(port, NodeClass::PortDirection) {
        Some(i) => match tree.nodes[i].kind {
            NodeKind::PortDirection(PortDirection::Input) => "\u{2794} input",
            NodeKind::PortDirection(PortDirection::Output) => "output \u{2794}",
            NodeKind::PortDirection(PortDirection::Inout) => "inout",
            _ => "?",
        },
        None => "?",
    }
}

/// The line for the net type of the port declared at `port`.
fn net_type_of(tree: &SyntaxTree, port: usize) -> (text: &'static str)
    requires
        port < tree@.len(),
    ensures
        text@ == net_type_line(tree@, port as int),
{
    proof {
        tree.lemma_view();
        reveal_strlit("");
    }
    match tree.find_below(port, NodeClass::NetType) {
        Some(i) => match tree.nodes[i].kind {
            NodeKind::NetType(NetType::Wire) => "  * type: wire\n",
            _ => "",
        },
        None => "",
    }
}

/// The line for the integer vector type of the port declared at `port`.
fn vector_type_of(tree: &SyntaxTree, port: usize) -> (text: &'static str)
    requires
        port < tree@.len(),
    ensures
        text@ == vector_type_line(tree@, port as int),
{
    proof {
        tree.lemma_view();
        reveal_strlit("");
    }
    match tree.find_below(port, NodeClass::IntegerVectorType) {
        Some(i) => match tree.nodes[i].kind {
            NodeKind::IntegerVectorType(IntegerVectorType::Reg) => "  * type: reg\n",
            NodeKind::IntegerVectorType(IntegerVectorType::Logic) => "  * type: logic\n",
            NodeKind::IntegerVectorType(IntegerVectorType::Bit) => "  * type: bit\n",
            _ => "",
        },
        None => "",
    }
}

/// Writes the entry of one port: its name, its direction, its types and
/// its packed width.
fn print_port(tree: &SyntaxTree, port: usize) -> (entry: Option<String>)
    requires
        port < tree@.len(),
    ensures
        entry.deep_view() == port_entry(tree@, port as int),
{
    let name = match tree.find_below(port, NodeClass::Kind(NodeKind::PortIdentifier)) {
        Some(id) => get_located_text(tree, id),
        None => None,
    };
    match name {
        Some(name) => {
            let mut text = String::from_str("- ");
            text.append(name.as_str());
            text.append("\n");
            text.append("  * direction: ");
            text.append(direction_of(tree, port));
            text.append("\n");
            text.append(net_type_of(tree, port));
            text.append(vector_type_of(tree, port));
            match tree.find_below(port, NodeClass::Kind(NodeKind::PackedDimensionRange)) {
                Some(range) => {
                    let width = get_whole_str(tree, range);
                    text.append("  * width: ");
                    text.append(width.as_str());
                    text.append("\n");
                },
                None => {},
            }
            Some(text)
        },
        None => None,
    }
}

/// Writes the entries of the ports that the module at `module` declares in
/// its header, in source order. The result is `None` exactly where one of
/// the declarations holds no name.
pub fn print_ansi_ports(tree: &SyntaxTree, module: usize) -> (text: Option<String>)
    requires
        module < tree@.len(),
    ensures
        text.deep_view() == port_entries(
            tree@,
            module as int,
            subtree_end(tree@, module as int),
        ),
{
    let end = tree.subtree_end(module);
    let mut text = String::new();
    let mut i: usize = module;
    while i < end
        invariant
            module <= i <= end <= tree@.len(),
            end == subtree_end(tree@, module as int),
            port_entries(tree@, module as int, i as int) == Some(text@),
        decreases end - i,
    {
        proof {
            tree.lemma_view();
        }
        if tree.nodes[i].kind == NodeKind::AnsiPortDeclaration {
            match print_port(tree, i) {
                Some(entry) => {
                    text.append(entry.as_str());
                },
                None => {
                    proof {
                        lemma_port_entries_stay_none(
                            tree@,
                            module as int,
                            i as int + 1,
                            end as int,
                        );
                    }
                    return None;
                },
            }
        }
        i += 1;
    }
    Some(text)
}

/// The instances of one module that a module holds, in source order.
#[derive(Clone, Debug, PartialEq, Eq)]
pub struct InstanceGroup {
    pub module: String,
    pub instances: Vec<String>,
}

/// Mathematical model of a group of instances.
pub ghost struct InstanceGroupView {
    pub module: Seq<char>,
    pub instances: Seq<Seq<char>>,
}

impl DeepView for InstanceGroup {
    type V = InstanceGroupView;

    open spec fn deep_view(&self) -> InstanceGroupView {
        InstanceGroupView { module: self.module@, instances: self.instances.deep_view() }
    }
}

/// `i` is the position of the first group of the module `module`.
pub open spec fn is_group_of(groups: Seq<InstanceGroupView>, module: Seq<char>, i: int) -> bool {
    &&& 0 <= i < groups.len()
    &&& groups[i].module == module
    &&& forall|j: int| 0 <= j < i ==> (#[trigger] groups[j]).module != module
}

/// The position of the first group of the module `module`.
pub open spec fn group_of(groups: Seq<InstanceGroupView>, module: Seq<char>) -> Option<int> {
    if exists|i: int| is_group_of(groups, module, i) {
        Some(choose|i: int| is_group_of(groups, module, i))
    } else {
        None
    }
}

/// The groups after one more instance: it joins the group of its module
/// behind the instances that are there, or opens a new group behind the
/// groups that are there.
pub open spec fn add_instance(
    groups: Seq<InstanceGroupView>,
    module: Seq<char>,
    instance: Seq<char>,
) -> Seq<InstanceGroupView> {
    match group_of(groups, module) {
        Some(i) => groups.update(
            i,
            InstanceGroupView { module, instances: groups[i].instances.push(instance) },
        ),
        None => groups.push(InstanceGroupView { module, instances: seq![instance] }),
    }
}

/// The instances in `from..to`, grouped by module: the groups in the order
/// in which their modules first occur, the instances of a group in source
/// order. `None` where an instantiation holds no module name or no
/// instance name.
pub open spec fn instance_groups(nodes: Seq<SyntaxNodeView>, from: int, to: int) -> Option<
    Seq<InstanceGroupView>,
>
    decreases to - from,
{
    if from >= to {
        Some(Seq::empty())
    } else {
        match instance_groups(nodes, from, to - 1) {
            Some(front) => if nodes[to - 1].kind == NodeKind::ModuleInstantiation {
                match name_below(nodes, to - 1, NodeKind::ModuleIdentifier) {
                    Some(module) => match name_below(nodes, to - 1, NodeKind::InstanceIdentifier) {
                        Some(instance) => Some(add_instance(front, module, instance)),
                        None => None,
                    },
                    None => None,
                }
            } else {
                Some(front)
            },
            None => None,
        }
    }
}

/// Once an instantiation without a name has been met, the groups stay
/// undefined however far the stretch is extended.
pub proof fn lemma_instance_groups_stay_none(
    nodes: Seq<SyntaxNodeView>,
    from: int,
    mid: int,
    to: int,
)
    requires
        from <= mid <= to,
        instance_groups(nodes, from, mid) is None,
    ensures
        instance_groups(nodes, from, to) is None,
    decreases to - mid,
{
    if mid < to {
        lemma_instance_groups_stay_none(nodes, from, mid, to - 1);
    }
}

/// One nested bullet for each instance name.
pub open spec fn instances_text(instances: Seq<Seq<char>>) -> Seq<char>
    decreases instances.len(),
{
    if instances.len() == 0 {
        Seq::empty()
    } else {
        instances_text(instances.drop_last()) + "  - "@ + instances.last() + "\n"@
    }
}

/// One bullet for each group, followed by the bullets of its instances.
pub open spec fn groups_text(groups: Seq<InstanceGroupView>) -> Seq<char>
    decreases groups.len(),
{
    if groups.len() == 0 {
        Seq::empty()
    } else {
        groups_text(groups.drop_last()) + "- "@ + groups.last().module + "\n"@ + instances_text(
            groups.last().instances,
        )
    }
}

/// Looks for the group of the module `module`.
fn find_group(groups: &Vec<InstanceGroup>, module: &String) -> (found: Option<usize>)
    ensures
        match found {
            Some(i) => group_of(groups.deep_view(), module@) == Some(i as int) && i
                < groups.len(),
            None => group_of(groups.deep_view(), module@) is None,
        },
{
    let ghost views = groups.deep_view();
    let mut i: usize = 0;
    while i < groups.len()
        invariant
            i <= groups.len(),
            views == groups.deep_view(),
            forall|j: int| 0 <= j < i ==> (#[trigger] views[j]).module != module@,
        decreases groups.len() - i,
    {
        if groups[i].module == *module {
            proof {
                assert(is_group_of(views, module@, i as int));
            }
            return Some(i);
        }
        i += 1;
    }
    None
}

/// Collects the instances below the module at `module`, grouped by the
/// module they are instances of. The result is `None` exactly where an
/// instantiation holds no module name or no instance name.
pub fn instantiated_modules(tree: &SyntaxTree, module: usize) -> (groups: Option<
    Vec<InstanceGroup>,
>)
    requires
        module < tree@.len(),
    ensures
        groups.deep_view() == instance_groups(
            tree@,
            module as int,
            subtree_end(tree@, module as int),
        ),
{
    let end = tree.subtree_end(module);
    let mut groups: Vec<InstanceGroup> = Vec::new();
    let mut i: usize = module;
    while i < end
        invariant
            module <= i <= end <= tree@.len(),
            end == subtree_end(tree@, module as int),
            instance_groups(tree@, module as int, i as int) == Some(groups.deep_view()),
        decreases end - i,
    {
        proof {
            tree.lemma_view();
        }
        if tree.nodes[i].kind == NodeKind::ModuleInstantiation {
            let module_name = get_name_below(
                tree,
                i,
                NodeKind::ModuleIdentifier,
            );
            let instance_name = get_name_below(
                tree,
                i,
                NodeKind::InstanceIdentifier,
            );
            match (module_name, instance_name) {
                (Some(module_name), Some(instance_name)) => {
                    match find_group(&groups, &module_name) {
                        Some(k) => {
                            let ghost old_instances = groups[k as int].instances.deep_view();
                            groups[k].instances.push(instance_name);
                            assert(groups[k as int].instances.deep_view() =~= old_instances.push(
                                instance_name@,
                            ));
                        },
                        None => {
                            let mut instances: Vec<String> = Vec::new();
                            instances.push(instance_name);
                            assert(instances.deep_view() =~= seq![instance_name@]);
                            groups.push(InstanceGroup { module: module_name, instances });
                        },
                    }
                },
                _ => {
                    proof {
                        lemma_instance_groups_stay_none(
                            tree@,
                            module as int,
                            i as int + 1,
                            end as int,
                        );
                    }
                    return None;
                },
            }
        }
        i += 1;
    }
    Some(groups)
}

/// Writes one bullet for each group and below it one for each instance.
pub fn print_groups(groups: &Vec<InstanceGroup>) -> (text: String)
    ensures
        text@ == groups_text(groups.deep_view()),
{
    let ghost views = groups.deep_view();
    let mut text = String::new();
    let mut i: usize = 0;
    while i < groups.len()
        invariant
            i <= groups.len(),
            views == groups.deep_view(),
            text@ == groups_text(views.take(i as int)),
        decreases groups.len() - i,
    {
        let group = &groups[i];
        let ghost names = group.instances.deep_view();
        assert(views.take(i as int + 1).drop_last() =~= views.take(i as int));
        text.append("- ");
        text.append(group.module.as_str());
        text.append("\n");
        let ghost head = text@;
        let mut k: usize = 0;
        while k < group.instances.len()
            invariant
                k <= group.instances.len(),
                names == group.instances.deep_view(),
                text@ == head + instances_text(names.take(k as int)),
            decreases group.instances.len() - k,
        {
            assert(names.take(k as int + 1).drop_last() =~= names.take(k as int));
            text.append("  - ");
            text.append(group.instances[k].as_str());
            text.append("\n");
            k += 1;
        }
        assert(names.take(k as int) =~= names);
        i += 1;
    }
    assert(views.take(i as int) =~= views);
    text
}

/// Writes the list of the modules that the module at `module`
/// instantiates, each with its instances. The result is `None` exactly
/// where an instantiation holds no module name or no instance name.
pub fn print_instantiated_modules(tree: &SyntaxTree, module: usize) -> (text: Option<String>)
    requires
        module < tree@.len(),
    ensures
        text.deep_view() == match instance_groups(
            tree@,
            module as int,
            subtree_end(tree@, module as int),
        ) {
            Some(groups) => Some(groups_text(groups)),
            None => None,
        },
{
    match instantiated_modules(tree, module) {
        Some(groups) => Some(print_groups(&groups)),
        None => None,
    }
}

/// The section that describes the module, taken from the comment that
/// stands before its declaration: present exactly where the node before
/// the declaration is a comment. A comment without text and a rejected
/// pattern are errors.
pub open spec fn description_section(nodes: Seq<SyntaxNodeView>, prev: Option<int>) -> Result<
    Seq<char>,
    ExtractError,
> {
    match prev {
        Some(p) => if 0 <= p < nodes.len() && nodes[p].kind == NodeKind::Comment {
            match located_text(nodes, p) {
                Some(raw) => match stripped_comment(raw) {
                    Some(text) => Ok("\n\n### Description:\n\n"@ + text),
                    None => Err(ExtractError::RejectedPattern),
                },
                None => Err(ExtractError::MissingText),
            }
        } else {
            Ok(Seq::empty())
        },
        None => Ok(Seq::empty()),
    }
}

/// The document of the module declared at `at`: heading and file, the
/// ports (listed only for a header in ANSI style), the instantiated
/// modules and the description.
pub open spec fn module_page(
    nodes: Seq<SyntaxNodeView>,
    file: Seq<char>,
    at: int,
    prev: Option<int>,
    name: Seq<char>,
) -> Result<Seq<char>, ExtractError> {
    let end = subtree_end(nodes, at);
    let ports = if nodes[at].kind == NodeKind::ModuleDeclarationAnsi {
        port_entries(nodes, at, end)
    } else {
        Some(Seq::empty())
    };
    match ports {
        Some(ports) => match instance_groups(nodes, at, end) {
            Some(groups) => match description_section(nodes, prev) {
                Ok(description) => Ok(
                    "## Module `"@ + name + "`\n\n"@ + "File: `"@ + file + "`\n\n"@
                        + "### Ports: \n\n"@ + ports + "\n\n### Instantiates modules: \n\n"@
                        + groups_text(groups) + description,
                ),
                Err(e) => Err(e),
            },
            None => Err(ExtractError::MissingName),
        },
        None => Err(ExtractError::MissingName),
    }
}

/// Writes the section that describes a module from the comment before it.
pub fn print_module_comments(tree: &SyntaxTree, prev_node: Option<usize>) -> (section: Result<
    String,
    ExtractError,
>)
    requires
        prev_node matches Some(p) ==> p < tree@.len(),
    ensures
        text_result(section) == description_section(tree@, as_position(prev_node)),
{
    proof {
        tree.lemma_view();
    }
    match prev_node {
        Some(p) => {
            if tree.nodes[p].kind == NodeKind::Comment {
                match get_located_text(tree, p) {
                    Some(raw) => match extract_text_from_comment(raw.as_str()) {
                        Some(stripped) => {
                            let mut text = String::from_str("\n\n### Description:\n\n");
                            text.append(stripped.as_str());
                            Ok(text)
                        },
                        None => Err(ExtractError::RejectedPattern),
                    },
                    None => Err(ExtractError::MissingText),
                }
            } else {
                Ok(String::new())
            }
        },
        None => Ok(String::new()),
    }
}

/// Writes the document of the module called `module_name` that is
/// declared at `module` in the file `file_path`.
pub fn print_module(
    tree: &SyntaxTree,
    file_path: &str,
    module_name: &str,
    module: usize,
    prev_node: Option<usize>,
) -> (page: Result<String, ExtractError>)
    requires
        module < tree@.len(),
        prev_node matches Some(p) ==> p < tree@.len(),
    ensures
        text_result(page) == module_page(
            tree@,
            file_path@,
            module as int,
            as_position(prev_node),
            module_name@,
        ),
{
    proof {
        tree.lemma_view();
    }
    let mut text = String::from_str("## Module `");
    text.append(module_name);
    text.append("`\n\n");
    text.append("File: `");
    text.append(file_path);
    text.append("`\n\n");
    text.append("### Ports: \n\n");
    if tree.nodes[module].kind == NodeKind::ModuleDeclarationAnsi {
        match print_ansi_ports(tree, module) {
            Some(ports) => {
                text.append(ports.as_str());
            },
            None => {
                return Err(ExtractError::MissingName);
            },
        }
    }
    text.append("\n\n### Instantiates modules: \n\n");
    match print_instantiated_modules(tree, module) {
        Some(groups) => {
            text.append(groups.as_str());
        },
        None => {
            return Err(ExtractError::MissingName);
        },
    }
    match print_module_comments(tree, prev_node) {
        Ok(description) => {
            text.append(description.as_str());
        },
        Err(e) => {
            return Err(e);
        },
    }
    Ok(text)
}

/// Writes the documents of the modules that the file `file_path` declares.
/// `parsed` is the syntax tree of the file, or `None` where the file could
/// not be parsed: such a file gives no documents.
pub fn generate_sv_module_info(file_path: &str, parsed: Option<&SyntaxTree>) -> (docs: Result<
    UnitDocs,
    ExtractError,
>)
    ensures
        docs_result(docs) == file_docs(
            match parsed {
                Some(tree) => Some(tree@),
                None => None,
            },
            UnitKind::Module,
            file_path@,
        ),
{
    extract_units(parsed, UnitKind::Module, file_path)
}

} // verus!
