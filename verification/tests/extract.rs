use std::collections::HashMap;
use std::path::PathBuf;

use sv_parser::RefNode;

use svdocgen::mdbook::svclass::{generate_sv_class_info, print_class};
use svdocgen::mdbook::sviface::{generate_sv_interface_info, print_iface};
use svdocgen::mdbook::svmodule::{
    extract_text_from_comment, generate_sv_module_info, instantiated_modules, print_ansi_ports,
    print_groups, print_instantiated_modules, print_module, print_module_comments, InstanceGroup,
};
use svdocgen::mdbook::svpar::{
    classify, get_identifier, get_located_text, get_name_below, get_whole_str, parse_source,
    tree_of_nodes, IntegerVectorType, NetType, NodeClass, NodeKind, ParsedNode, PortDirection,
    SyntaxNode, SyntaxTree,
};
use svdocgen::mdbook::units::{extract_units, ExtractError, UnitKind};
use svdocgen::mdbook::svpkg::{generate_sv_package_info, print_package};

fn kind_of(node: &RefNode) -> NodeKind {
    match node {
        RefNode::Description(_) => NodeKind::Description,
        RefNode::WhiteSpace(_) => NodeKind::WhiteSpace,
        RefNode::Locate(_) => NodeKind::Locate,
        RefNode::Comment(_) => NodeKind::Comment,
        RefNode::ModuleDeclaration(_) => NodeKind::ModuleDeclaration,
        RefNode::ModuleDeclarationNonansi(_) => NodeKind::ModuleDeclarationNonansi,
        RefNode::ModuleDeclarationAnsi(_) => NodeKind::ModuleDeclarationAnsi,
        RefNode::InterfaceDeclaration(_) => NodeKind::InterfaceDeclaration,
        RefNode::ClassDeclaration(_) => NodeKind::ClassDeclaration,
        RefNode::PackageDeclaration(_) => NodeKind::PackageDeclaration,
        RefNode::ModuleIdentifier(_) => NodeKind::ModuleIdentifier,
        RefNode::InterfaceIdentifier(_) => NodeKind::InterfaceIdentifier,
        RefNode::ClassIdentifier(_) => NodeKind::ClassIdentifier,
        RefNode::PackageIdentifier(_) => NodeKind::PackageIdentifier,
        RefNode::PortIdentifier(_) => NodeKind::PortIdentifier,
        RefNode::InstanceIdentifier(_) => NodeKind::InstanceIdentifier,
        RefNode::SimpleIdentifier(_) => NodeKind::SimpleIdentifier,
        RefNode::EscapedIdentifier(_) => NodeKind::EscapedIdentifier,
        RefNode::AnsiPortDeclaration(_) => NodeKind::AnsiPortDeclaration,
        RefNode::PortDirection(sv_parser::PortDirection::Input(_)) => {
            NodeKind::PortDirection(PortDirection::Input)
        }
        RefNode::PortDirection(sv_parser::PortDirection::Output(_)) => {
            NodeKind::PortDirection(PortDirection::Output)
        }
        RefNode::PortDirection(sv_parser::PortDirection::Inout(_)) => {
            NodeKind::PortDirection(PortDirection::Inout)
        }
        RefNode::PortDirection(sv_parser::PortDirection::Ref(_)) => {
            NodeKind::PortDirection(PortDirection::Other)
        }
        RefNode::NetType(sv_parser::NetType::Wire(_)) => NodeKind::NetType(NetType::Wire),
        RefNode::NetType(_) => NodeKind::NetType(NetType::Other),
        RefNode::IntegerVectorType(sv_parser::IntegerVectorType::Bit(_)) => {
            NodeKind::IntegerVectorType(IntegerVectorType::Bit)
        }
        RefNode::IntegerVectorType(sv_parser::IntegerVectorType::Logic(_)) => {
            NodeKind::IntegerVectorType(IntegerVectorType::Logic)
        }
        RefNode::IntegerVectorType(sv_parser::IntegerVectorType::Reg(_)) => {
            NodeKind::IntegerVectorType(IntegerVectorType::Reg)
        }
        RefNode::PackedDimensionRange(_) => NodeKind::PackedDimensionRange,
        RefNode::ModuleInstantiation(_) => NodeKind::ModuleInstantiation,
        _ => NodeKind::Other,
    }
}

fn parse(source: &str) -> SyntaxTree {
    parse_source(source, "a.sv").expect("the source parses")
}

/// The tree of `source`, with the kinds told apart by the variants that the
/// parser hands out.
fn parse_by_variant(source: &str) -> SyntaxTree {
    let defines = HashMap::new();
    let includes: Vec<PathBuf> = Vec::new();
    let (tree, _) = sv_parser::parse_sv_str(source, "a.sv", &defines, &includes, true, true)
        .expect("the source parses");
    let mut nodes = Vec::new();
    for node in &tree {
        let text = match &node {
            RefNode::Locate(locate) => {
                tree.get_str(*locate).unwrap_or("").to_string()
            }
            _ => String::new(),
        };
        let span = node.clone().into_iter().count();
        nodes.push(SyntaxNode { kind: kind_of(&node), span, text });
    }
    SyntaxTree { nodes }
}

#[test]
fn parsed_kinds_agree_with_the_variants_of_the_parser() {
    for source in [
        "module top(input logic clk, output wire [7:0] data); endmodule",
        "module m(inout wire a, output reg b, input bit [3:0] c, ref logic d, input tri e);\n\
         endmodule",
        "/** Doc */\nmodule m(a, b); input a; output b; alpha u0(a, b); endmodule",
        "package p; endpackage\ninterface bus; endinterface\nclass c; endclass",
        "module \\odd+name (); endmodule",
        "",
    ] {
        let tree = parse(source);
        assert!(source.is_empty() || tree.nodes.len() > 1);
        assert_eq!(tree, parse_by_variant(source));
    }
}

#[test]
fn source_that_does_not_parse_gives_no_tree() {
    // A macro that is not defined stops the parser.
    assert!(parse_source("module m(); `WIDTH endmodule", "a.sv").is_none());
    assert!(parse_source("module m(); endmodule", "a.sv").is_some());
    // Text that is no SystemVerilog is taken as far as it goes.
    let tree = parse_source("module m(; endmodule", "a.sv").unwrap();
    assert!(generate_sv_module_info("a.sv", Some(&tree)).unwrap().list.is_empty());
}

#[test]
fn includes_are_skipped() {
    let tree = parse("`include \"missing.svh\"\nmodule m(); endmodule");
    let docs = generate_sv_module_info("a.sv", Some(&tree)).unwrap();
    assert_eq!(docs.list.len(), 1);
    assert_eq!(docs.list[0].name, "m");
}

#[test]
fn macro_that_includes_is_looked_up_on_disk() {
    let source = "`define INC `include \"no_such_file_for_this_test.svh\"\n`INC\nmodule m(); endmodule";
    assert!(parse_source(source, "a.sv").is_none());
}

#[test]
fn kinds_are_told_by_name_and_keyword() {
    let word = |w: &str| Some(w.to_string());
    assert_eq!(classify("Locate", None), NodeKind::Locate);
    assert_eq!(classify("ModuleDeclarationAnsi", None), NodeKind::ModuleDeclarationAnsi);
    assert_eq!(classify("ModuleDeclaration", None), NodeKind::ModuleDeclaration);
    assert_eq!(classify("Keyword", word("input").as_ref()), NodeKind::Other);
    assert_eq!(classify("", None), NodeKind::Other);
    assert_eq!(
        classify("PortDirection", word("input").as_ref()),
        NodeKind::PortDirection(PortDirection::Input)
    );
    assert_eq!(
        classify("PortDirection", word("output").as_ref()),
        NodeKind::PortDirection(PortDirection::Output)
    );
    assert_eq!(
        classify("PortDirection", word("inout").as_ref()),
        NodeKind::PortDirection(PortDirection::Inout)
    );
    assert_eq!(
        classify("PortDirection", word("ref").as_ref()),
        NodeKind::PortDirection(PortDirection::Other)
    );
    assert_eq!(classify("PortDirection", None), NodeKind::PortDirection(PortDirection::Other));
    assert_eq!(classify("NetType", word("wire").as_ref()), NodeKind::NetType(NetType::Wire));
    assert_eq!(classify("NetType", word("tri").as_ref()), NodeKind::NetType(NetType::Other));
    assert_eq!(
        classify("IntegerVectorType", word("bit").as_ref()),
        NodeKind::IntegerVectorType(IntegerVectorType::Bit)
    );
    assert_eq!(
        classify("IntegerVectorType", word("logic").as_ref()),
        NodeKind::IntegerVectorType(IntegerVectorType::Logic)
    );
    assert_eq!(
        classify("IntegerVectorType", word("reg").as_ref()),
        NodeKind::IntegerVectorType(IntegerVectorType::Reg)
    );
    assert_eq!(
        classify("IntegerVectorType", word("int").as_ref()),
        NodeKind::IntegerVectorType(IntegerVectorType::Other)
    );
}

#[test]
fn tree_of_nodes_takes_the_keyword_from_the_subtree() {
    let parsed = |kind: &str, span: usize, text: Option<&str>| ParsedNode {
        kind: kind.to_string(),
        span,
        text: text.map(String::from),
    };
    let tree = tree_of_nodes(&vec![
        parsed("PortDirection", 3, None),
        parsed("Keyword", 2, None),
        parsed("Locate", 1, Some("output")),
        parsed("NetType", 1, None),
        parsed("Locate", 1, Some("wire")),
        parsed("NetType", 9, None),
        parsed("Locate", 1, Some("wire")),
    ]);
    let kinds: Vec<NodeKind> = tree.nodes.iter().map(|n| n.kind).collect();
    assert_eq!(kinds, vec![
        NodeKind::PortDirection(PortDirection::Output),
        NodeKind::Other,
        NodeKind::Locate,
        NodeKind::NetType(NetType::Other),
        NodeKind::Locate,
        NodeKind::NetType(NetType::Wire),
        NodeKind::Locate,
    ]);
    let texts: Vec<&str> = tree.nodes.iter().map(|n| n.text.as_str()).collect();
    assert_eq!(texts, vec!["", "", "output", "", "wire", "", "wire"]);
    let spans: Vec<usize> = tree.nodes.iter().map(|n| n.span).collect();
    assert_eq!(spans, vec![3, 2, 1, 1, 1, 9, 1]);
    assert!(tree_of_nodes(&Vec::new()).nodes.is_empty());
}

fn node(kind: NodeKind, span: usize, text: &str) -> SyntaxNode {
    SyntaxNode { kind, span, text: text.to_string() }
}

fn position(tree: &SyntaxTree, kind: NodeKind) -> usize {
    tree.nodes.iter().position(|n| n.kind == kind).expect("the tree holds such a node")
}

#[test]
fn module_with_ports_gives_the_documented_page() {
    let tree = parse("module top(input logic clk, output wire [7:0] data); endmodule");
    let docs = generate_sv_module_info("a.sv", Some(&tree)).unwrap();
    assert_eq!(docs.text, vec!["- [`top  :a.sv`](src/a.sv.module.top.md)\n".to_string()]);
    assert_eq!(docs.list.len(), 1);
    assert_eq!(docs.list[0].name, "top");
    assert_eq!(docs.list[0].file, "a.sv");
    assert_eq!(docs.list[0].doc, "src/a.sv.module.top.md");
    assert_eq!(docs.pages.len(), 1);
    assert_eq!(docs.pages[0].path, "src/a.sv.module.top.md");
    assert_eq!(
        docs.pages[0].text,
        "## Module `top`\n\nFile: `a.sv`\n\n### Ports: \n\n\
         - clk\n  * direction: \u{2794} input\n  * type: logic\n\
         - data\n  * direction: output \u{2794}\n  * type: wire\n  * width: [7:0] \n\
         \n\n### Instantiates modules: \n\n"
    );
}

#[test]
fn module_page_holds_the_lines_of_each_port() {
    let tree = parse("module top(input logic clk, output wire [7:0] data); endmodule");
    let docs = generate_sv_module_info("a.sv", Some(&tree)).unwrap();
    let lines: Vec<&str> = docs.pages[0].text.lines().map(|l| l.trim_end()).collect();
    for wanted in [
        "## Module `top`",
        "- clk",
        "  * direction: \u{2794} input",
        "  * type: logic",
        "- data",
        "  * direction: output \u{2794}",
        "  * type: wire",
        "  * width: [7:0]",
    ] {
        assert!(lines.contains(&wanted), "missing line {:?}", wanted);
    }
}

#[test]
fn ports_show_inout_reg_and_bit() {
    let tree = parse(
        "module m(inout wire a, output reg b, input bit [3:0] c, d, ref logic e); endmodule",
    );
    let module = position(&tree, NodeKind::ModuleDeclarationAnsi);
    assert_eq!(
        print_ansi_ports(&tree, module).unwrap(),
        "- a\n  * direction: inout\n  * type: wire\n\
         - b\n  * direction: output \u{2794}\n  * type: reg\n\
         - c\n  * direction: \u{2794} input\n  * type: bit\n  * width: [3:0] \n\
         - d\n  * direction: ?\n\
         - e\n  * direction: ?\n  * type: logic\n"
    );
}

#[test]
fn ports_of_a_non_ansi_header_are_not_listed() {
    let tree = parse("module m(a, b); input a; output b; endmodule");
    let docs = generate_sv_module_info("dir/m.v", Some(&tree)).unwrap();
    assert_eq!(docs.list[0].doc, "src/dir/m.v.module.m.md");
    assert_eq!(
        docs.pages[0].text,
        "## Module `m`\n\nFile: `dir/m.v`\n\n### Ports: \n\n\n\n### Instantiates modules: \n\n"
    );
}

#[test]
fn comment_before_a_module_becomes_its_description() {
    let tree =
        parse("/** Doc line one.\n * Doc line two.\n */\nmodule m(); endmodule");
    let docs = generate_sv_module_info("a.sv", Some(&tree)).unwrap();
    assert_eq!(docs.pages[0].path, "src/a.sv.module.m.md");
    let page = &docs.pages[0].text;
    let (_, description) = page.split_once("### Description:").expect("a description");
    assert!(!description.contains('*'));
    let lines: Vec<&str> = description.lines().filter(|l| !l.trim().is_empty()).collect();
    assert_eq!(lines, vec![" Doc line one.", " Doc line two."]);
    assert!(page.ends_with("\n\n### Description:\n\n Doc line one.\n Doc line two.\n "));
}

#[test]
fn module_without_a_comment_has_no_description() {
    let tree = parse("module a(); endmodule\nmodule b(); endmodule");
    let docs = generate_sv_module_info("a.sv", Some(&tree)).unwrap();
    assert_eq!(docs.pages.len(), 2);
    assert!(!docs.pages[0].text.contains("### Description:"));
    assert!(!docs.pages[1].text.contains("### Description:"));
}

#[test]
fn comment_between_modules_describes_the_second() {
    let tree = parse("module a(); endmodule\n// second one\nmodule b(); endmodule");
    let docs = generate_sv_module_info("a.sv", Some(&tree)).unwrap();
    assert!(!docs.pages[0].text.contains("### Description:"));
    assert!(docs.pages[1].text.ends_with("\n\n### Description:\n\n// second one\n"));
}

#[test]
fn instances_are_grouped_by_module() {
    let tree = parse(
        "module alpha(); endmodule\n\
         module beta(); alpha u0(); gamma g(); alpha u1(); endmodule",
    );
    let docs = generate_sv_module_info("a.sv", Some(&tree)).unwrap();
    let names: Vec<&str> = docs.list.iter().map(|r| r.name.as_str()).collect();
    assert_eq!(names, vec!["alpha", "beta"]);
    assert_eq!(docs.text, vec![
        "- [`alpha  :a.sv`](src/a.sv.module.alpha.md)\n".to_string(),
        "- [`beta  :a.sv`](src/a.sv.module.beta.md)\n".to_string(),
    ]);
    assert_eq!(docs.pages[1].path, "src/a.sv.module.beta.md");
    assert!(docs.pages[1]
        .text
        .ends_with("### Instantiates modules: \n\n- alpha\n  - u0\n  - u1\n- gamma\n  - g\n"));
    assert!(docs.pages[0].text.ends_with("### Instantiates modules: \n\n"));
    let beta = tree
        .nodes
        .iter()
        .enumerate()
        .filter(|(_, n)| n.kind == NodeKind::ModuleDeclarationAnsi)
        .map(|(i, _)| i)
        .nth(1)
        .unwrap();
    let groups = instantiated_modules(&tree, beta).unwrap();
    assert_eq!(groups.len(), 2);
    assert_eq!(groups[0].module, "alpha");
    assert_eq!(groups[0].instances, vec!["u0".to_string(), "u1".to_string()]);
    assert_eq!(groups[1].module, "gamma");
    assert_eq!(groups[1].instances, vec!["g".to_string()]);
    assert_eq!(
        print_instantiated_modules(&tree, beta).unwrap(),
        "- alpha\n  - u0\n  - u1\n- gamma\n  - g\n"
    );
}

#[test]
fn groups_are_written_as_nested_bullets() {
    let groups = vec![
        InstanceGroup { module: "m".to_string(), instances: vec![] },
        InstanceGroup {
            module: "n".to_string(),
            instances: vec!["i".to_string(), "j".to_string()],
        },
    ];
    assert_eq!(print_groups(&groups), "- m\n- n\n  - i\n  - j\n");
    assert_eq!(print_groups(&Vec::new()), "");
}

#[test]
fn interfaces_classes_and_packages_get_minimal_pages() {
    let tree = parse(
        "package p; endpackage\n\
         interface bus; endinterface\n\
         class c; endclass\n\
         module m(); endmodule",
    );
    let ifaces = generate_sv_interface_info("x/f.sv", Some(&tree)).unwrap();
    assert_eq!(ifaces.text, vec!["- [`bus  :x/f.sv`](src/x/f.sv.iface.bus.md)\n".to_string()]);
    assert_eq!(ifaces.pages[0].path, "src/x/f.sv.iface.bus.md");
    assert_eq!(ifaces.pages[0].text, "## Interface `bus`\n\nFile: `x/f.sv`\n\n");
    let classes = generate_sv_class_info("x/f.sv", Some(&tree)).unwrap();
    assert_eq!(classes.text, vec!["- [`c  :x/f.sv`](src/x/f.sv.class.c.md)\n".to_string()]);
    assert_eq!(classes.pages[0].text, "## Class `c`\n\nFile: `x/f.sv`\n\n");
    assert_eq!(classes.list[0].doc, "src/x/f.sv.class.c.md");
    let packages = generate_sv_package_info("x/f.sv", Some(&tree)).unwrap();
    assert_eq!(packages.text, vec!["- [`p  :x/f.sv`](src/x/f.sv.pkg.p.md)\n".to_string()]);
    assert_eq!(packages.pages[0].text, "## Package `p`\n\nFile: `x/f.sv`\n\n");
    let modules = generate_sv_module_info("x/f.sv", Some(&tree)).unwrap();
    assert_eq!(modules.list.len(), 1);
    assert_eq!(modules.list[0].name, "m");
}

#[test]
fn headings_name_the_kind_of_unit() {
    assert_eq!(print_class("c", "f.sv"), "## Class `c`\n\nFile: `f.sv`\n\n");
    assert_eq!(print_iface("i", "f.sv"), "## Interface `i`\n\nFile: `f.sv`\n\n");
    assert_eq!(print_package("p", "f.sv"), "## Package `p`\n\nFile: `f.sv`\n\n");
}

#[test]
fn unparsed_file_gives_no_documents() {
    for docs in [
        generate_sv_module_info("a.sv", None).unwrap(),
        generate_sv_interface_info("a.sv", None).unwrap(),
        generate_sv_class_info("a.sv", None).unwrap(),
        generate_sv_package_info("a.sv", None).unwrap(),
    ] {
        assert!(docs.text.is_empty());
        assert!(docs.list.is_empty());
        assert!(docs.pages.is_empty());
    }
}

#[test]
fn file_without_units_gives_no_documents() {
    let tree = parse("module m(); endmodule");
    let docs = generate_sv_class_info("a.sv", Some(&tree)).unwrap();
    assert!(docs.text.is_empty() && docs.list.is_empty() && docs.pages.is_empty());
    let empty = SyntaxTree { nodes: Vec::new() };
    let docs = extract_units(Some(&empty), UnitKind::Module, "a.sv").unwrap();
    assert!(docs.text.is_empty() && docs.list.is_empty() && docs.pages.is_empty());
}

#[test]
fn escaped_identifier_names_a_module() {
    let tree = parse("module \\odd+name (); endmodule");
    let docs = generate_sv_module_info("a.sv", Some(&tree)).unwrap();
    assert_eq!(docs.list[0].name, "\\odd+name");
}

#[test]
fn stripping_removes_the_comment_signs() {
    assert_eq!(
        extract_text_from_comment("/** Doc line one.\n * Doc line two.\n */").unwrap(),
        " Doc line one.\n Doc line two.\n "
    );
    assert_eq!(extract_text_from_comment("/* one */").unwrap(), " one ");
    assert_eq!(extract_text_from_comment("/*** many ***/  ").unwrap(), " many ");
    assert_eq!(extract_text_from_comment("no comment").unwrap(), "no comment");
    assert_eq!(extract_text_from_comment("").unwrap(), "");
}

#[test]
fn stripping_keeps_paragraphs_apart() {
    assert_eq!(
        extract_text_from_comment("/**\n * first\n *\n * second\n */").unwrap(),
        " first\n\n second\n "
    );
}

#[test]
fn stripping_twice_can_strip_more() {
    let once = extract_text_from_comment("* * a").unwrap();
    assert_eq!(once, " * a");
    let twice = extract_text_from_comment(&once).unwrap();
    assert_eq!(twice, " a");
    assert_eq!(extract_text_from_comment(&twice).unwrap(), " a");
}

#[test]
fn stripping_is_stable_on_text_without_stars_or_slashes() {
    let once = extract_text_from_comment("/** Doc line one.\n * Doc line two.\n */").unwrap();
    assert_eq!(extract_text_from_comment(&once).unwrap(), once);
}

fn tiny_module(with_name: bool) -> SyntaxTree {
    // module <name>
    let mut nodes = vec![node(NodeKind::ModuleDeclarationAnsi, 0, "")];
    if with_name {
        nodes.push(node(NodeKind::ModuleIdentifier, 3, ""));
        nodes.push(node(NodeKind::SimpleIdentifier, 2, ""));
        nodes.push(node(NodeKind::Locate, 1, "m"));
    }
    let span = nodes.len();
    nodes[0].span = span;
    SyntaxTree { nodes }
}

#[test]
fn hand_built_module_is_documented() {
    let tree = tiny_module(true);
    let docs = generate_sv_module_info("f.sv", Some(&tree)).unwrap();
    assert_eq!(docs.list[0].name, "m");
    assert_eq!(
        docs.pages[0].text,
        "## Module `m`\n\nFile: `f.sv`\n\n### Ports: \n\n\n\n### Instantiates modules: \n\n"
    );
}

#[test]
fn declaration_without_a_name_is_an_error() {
    let tree = tiny_module(false);
    assert!(matches!(
        generate_sv_module_info("f.sv", Some(&tree)),
        Err(ExtractError::MissingName)
    ));
    // The identifier is there but holds no text.
    let tree = SyntaxTree {
        nodes: vec![
            node(NodeKind::ClassDeclaration, 3, ""),
            node(NodeKind::ClassIdentifier, 2, ""),
            node(NodeKind::SimpleIdentifier, 1, ""),
        ],
    };
    assert!(matches!(
        generate_sv_class_info("f.sv", Some(&tree)),
        Err(ExtractError::MissingName)
    ));
}

#[test]
fn port_without_a_name_is_an_error() {
    let mut tree = tiny_module(true);
    tree.nodes.push(node(NodeKind::AnsiPortDeclaration, 2, ""));
    tree.nodes.push(node(NodeKind::PortDirection(PortDirection::Input), 1, ""));
    tree.nodes[0].span = tree.nodes.len();
    assert!(print_ansi_ports(&tree, 0).is_none());
    assert!(matches!(
        generate_sv_module_info("f.sv", Some(&tree)),
        Err(ExtractError::MissingName)
    ));
}

#[test]
fn instantiation_without_names_is_an_error() {
    let mut tree = tiny_module(true);
    tree.nodes.push(node(NodeKind::ModuleInstantiation, 4, ""));
    tree.nodes.push(node(NodeKind::ModuleIdentifier, 3, ""));
    tree.nodes.push(node(NodeKind::SimpleIdentifier, 2, ""));
    tree.nodes.push(node(NodeKind::Locate, 1, "alpha"));
    tree.nodes[0].span = tree.nodes.len();
    assert!(instantiated_modules(&tree, 0).is_none());
    assert!(print_instantiated_modules(&tree, 0).is_none());
    assert!(matches!(
        generate_sv_module_info("f.sv", Some(&tree)),
        Err(ExtractError::MissingName)
    ));
}

#[test]
fn comment_without_text_is_an_error() {
    let mut nodes = vec![node(NodeKind::Comment, 1, "")];
    nodes.extend(tiny_module(true).nodes);
    let tree = SyntaxTree { nodes };
    assert!(matches!(print_module_comments(&tree, Some(0)), Err(ExtractError::MissingText)));
    assert!(matches!(
        generate_sv_module_info("f.sv", Some(&tree)),
        Err(ExtractError::MissingText)
    ));
}

#[test]
fn previous_node_skips_what_may_stand_between() {
    let mut nodes = vec![
        node(NodeKind::WhiteSpace, 3, ""),
        node(NodeKind::Comment, 2, ""),
        node(NodeKind::Locate, 1, "/* about m */"),
        node(NodeKind::WhiteSpace, 2, ""),
        node(NodeKind::Locate, 1, "\n"),
        node(NodeKind::Description, 5, ""),
        node(NodeKind::ModuleDeclaration, 4, ""),
    ];
    nodes.extend(tiny_module(true).nodes);
    let tree = SyntaxTree { nodes };
    let docs = generate_sv_module_info("f.sv", Some(&tree)).unwrap();
    assert!(docs.pages[0].text.ends_with("\n\n### Description:\n\n about m "));
    // For the other kinds of unit the wrapper of a module keeps the context.
    let section = print_module_comments(&tree, Some(1)).unwrap();
    assert_eq!(section, "\n\n### Description:\n\n about m ");
    assert_eq!(print_module_comments(&tree, Some(0)).unwrap(), "");
    assert_eq!(print_module_comments(&tree, None).unwrap(), "");
}

#[test]
fn node_that_keeps_the_context_hides_the_comment() {
    let mut nodes = vec![
        node(NodeKind::Comment, 2, ""),
        node(NodeKind::Locate, 1, "/* lost */"),
        node(NodeKind::Other, 1, ""),
    ];
    nodes.extend(tiny_module(true).nodes);
    let tree = SyntaxTree { nodes };
    let docs = generate_sv_module_info("f.sv", Some(&tree)).unwrap();
    assert!(!docs.pages[0].text.contains("### Description:"));
}

#[test]
fn print_module_writes_one_page() {
    let tree = parse("// about\nmodule m(input a); endmodule");
    let module = position(&tree, NodeKind::ModuleDeclarationAnsi);
    let comment = position(&tree, NodeKind::Comment);
    assert_eq!(
        print_module(&tree, "f.sv", "m", module, Some(comment)).unwrap(),
        "## Module `m`\n\nFile: `f.sv`\n\n### Ports: \n\n- a\n  * direction: \u{2794} input\n\
         \n\n### Instantiates modules: \n\n\n\n### Description:\n\n// about\n"
    );
}

#[test]
fn helpers_find_identifiers_and_text() {
    let tree = parse("module top(input logic [7:0] d); endmodule");
    let module = position(&tree, NodeKind::ModuleDeclarationAnsi);
    let locate = get_identifier(&tree, module).unwrap();
    assert_eq!(tree.nodes[locate].kind, NodeKind::Locate);
    assert_eq!(tree.nodes[locate].text, "top");
    assert_eq!(get_name_below(&tree, module, NodeKind::ModuleIdentifier).unwrap(), "top");
    assert_eq!(get_name_below(&tree, module, NodeKind::PortIdentifier).unwrap(), "d");
    assert!(get_name_below(&tree, module, NodeKind::ClassIdentifier).is_none());
    let range = position(&tree, NodeKind::PackedDimensionRange);
    assert_eq!(get_whole_str(&tree, range), "[7:0] ");
    assert_eq!(get_located_text(&tree, range).unwrap(), "[");
    let port = position(&tree, NodeKind::AnsiPortDeclaration);
    assert_eq!(
        tree.find_below(module, NodeClass::PortDirection),
        tree.find_below(port, NodeClass::PortDirection)
    );
    assert!(tree.find_below(port, NodeClass::NetType).is_none());
    assert!(tree.find_below(port, NodeClass::IntegerVectorType).is_some());
    assert_eq!(tree.find_first(0, 0, NodeClass::Identifier), None);
    assert_eq!(tree.subtree_end(0), tree.nodes.len());
}

#[test]
fn span_that_overshoots_ends_with_the_list() {
    let tree = SyntaxTree {
        nodes: vec![
            node(NodeKind::Other, 100, ""),
            node(NodeKind::Locate, usize::MAX, "a"),
            node(NodeKind::Locate, 0, "b"),
        ],
    };
    assert_eq!(tree.subtree_end(0), 3);
    assert_eq!(tree.subtree_end(1), 3);
    assert_eq!(tree.subtree_end(2), 2);
    assert_eq!(get_whole_str(&tree, 0), "ab");
    assert_eq!(get_whole_str(&tree, 2), "");
    assert!(get_located_text(&tree, 2).is_none());
}
