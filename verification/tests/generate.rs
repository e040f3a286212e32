use svdocgen::args::ParsedOptions;
use svdocgen::fsnode::FsNode;
use svdocgen::mdbook::files::{get_sv_files, SrcFiles};
use svdocgen::mdbook::escape::escape_toml;
use svdocgen::mdbook::generate::{
    concat_all, copy_src_files, create_book_toml, create_classes_md, create_files_md,
    create_ifaces_md, create_modules_md, create_packages_md, create_summary_md, create_sv_docs,
    create_units_md, generate, list_file_paths, list_users_md_docs, print_doc_entry,
    print_file_entry, print_index,
    print_units_section, source_stub, target_of, CopyStep, DocEntry, PathKind,
};
use svdocgen::mdbook::svpar::{parse_source, NodeKind, SyntaxNode, SyntaxTree};
use svdocgen::mdbook::units::{ExtractError, Page, UnitKind, UnitRecord};

fn texts(items: &[&str]) -> Vec<String> {
    items.iter().map(|t| t.to_string()).collect()
}

fn tree_of(inputs: &[&str]) -> FsNode {
    let mut tree = FsNode::new(String::new());
    for input in inputs {
        tree.push(input);
    }
    tree
}

fn leaf_flags(tree: &FsNode) -> Vec<bool> {
    tree.traverse_top().iter().map(|v| v.node.children.is_empty()).collect()
}

fn parse(source: &str) -> Option<SyntaxTree> {
    parse_source(source, "a.sv")
}

fn page<'a>(pages: &'a [Page], path: &str) -> &'a str {
    let found: Vec<&Page> = pages.iter().filter(|p| p.path == path).collect();
    assert_eq!(found.len(), 1, "one page at {}", path);
    &found[0].text
}

fn record(name: &str, file: &str, doc: &str) -> UnitRecord {
    UnitRecord { name: name.to_string(), file: file.to_string(), doc: doc.to_string() }
}

#[test]
fn book_toml_holds_title_authors_and_script() {
    let text = create_book_toml("P");
    assert_eq!(
        text,
        "\n[book]\ntitle = \"P\"\nauthors = [\"Godzilla\"]\n\n[output.html]\n\
         additional-js = [\"loadwavedrom.js\"]\n\n"
    );
    assert!(create_book_toml("").contains("title = \"\"\n"));
}

#[test]
fn book_toml_escapes_the_title() {
    let title_line = |name: &str| {
        let text = create_book_toml(name);
        text.lines().nth(2).unwrap().to_string()
    };
    assert_eq!(title_line("a\"b"), "title = \"a\\\"b\"");
    assert_eq!(title_line("c:\\dir"), "title = \"c:\\\\dir\"");
    assert_eq!(title_line("two\nlines"), "title = \"two\\nlines\"");
    assert_eq!(title_line("tab\there"), "title = \"tab\\there\"");
    assert_eq!(title_line("caf\u{e9} \u{2794}"), "title = \"caf\u{e9} \u{2794}\"");
    // The rest of the file stays as it is.
    assert!(create_book_toml("a\"b").ends_with(
        "\"\nauthors = [\"Godzilla\"]\n\n[output.html]\nadditional-js = [\"loadwavedrom.js\"]\n\n"
    ));
}

#[test]
fn book_toml_reads_back_as_toml() {
    for name in ["P", "", "a\"b", "c:\\dir\\", "two\nlines\r\n", "\u{0}\u{1b}\u{7f}\t", "caf\u{e9} \u{2794}", "# [x]\" = '"] {
        let text = create_book_toml(name);
        let value: toml::Value = text.parse().expect("the configuration is TOML");
        assert_eq!(value["book"]["title"].as_str(), Some(name));
        assert_eq!(value["book"]["authors"][0].as_str(), Some("Godzilla"));
        assert_eq!(
            value["output"]["html"]["additional-js"][0].as_str(),
            Some("loadwavedrom.js")
        );
    }
}

#[test]
fn escaping_covers_every_control_character() {
    assert_eq!(escape_toml(""), "");
    assert_eq!(escape_toml("plain text"), "plain text");
    assert_eq!(escape_toml("\"\\"), "\\\"\\\\");
    assert_eq!(escape_toml("\u{8}\t\n\u{c}\r"), "\\b\\t\\n\\f\\r");
    assert_eq!(escape_toml("\u{0}\u{1}\u{b}\u{1f}\u{7f}"), "\\u0000\\u0001\\u000B\\u001F\\u007F");
    assert_eq!(escape_toml(" ~\u{80}"), " ~\u{80}");
    for code in 0u32..0x80 {
        let c = char::from_u32(code).unwrap();
        let escaped = escape_toml(&c.to_string());
        let control = code < 0x20 || code == 0x7f;
        assert_eq!(escaped.starts_with('\\'), control || c == '"' || c == '\\');
        assert!(escaped.chars().all(|e| e >= ' ' && e != '\u{7f}'));
    }
}

#[test]
fn stub_includes_the_source_by_its_name() {
    assert_eq!(
        source_stub("m.sv"),
        "## m.sv\n\n```verilog\n{{#include m.sv}}\n```\n"
    );
}

#[test]
fn concat_all_joins_without_separator() {
    assert_eq!(concat_all(&texts(&["a\n", "", "b"])), "a\nb");
    assert_eq!(concat_all(&texts(&[])), "");
}

#[test]
fn target_lies_below_src() {
    assert_eq!(target_of(&texts(&["dir1", "m.sv"])), "src/dir1/m.sv");
    assert_eq!(target_of(&texts(&[])), "src/");
}

#[test]
fn copy_plan_mirrors_directories_then_copies_files() {
    let src = SrcFiles { nodes: tree_of(&["dir1/m.sv", "dir1/README.md", "dir1/sub/n.v", "top"]) };
    let kinds = vec![
        PathKind::Directory,
        PathKind::File,
        PathKind::File,
        PathKind::Directory,
        PathKind::File,
        PathKind::File,
    ];
    let steps = copy_src_files(&src, &kinds);
    let make = |p: &str| CopyStep::MakeDir { path: p.to_string() };
    let copy = |f: &str, t: &str| CopyStep::CopyFile { from: f.to_string(), to: t.to_string() };
    let stub = |t: &str, n: &str| CopyStep::WriteStub {
        to: t.to_string(),
        text: format!("## {}\n\n```verilog\n{{{{#include {}}}}}\n```\n", n, n),
    };
    assert_eq!(steps, vec![
        make("src/dir1"),
        make("src/dir1/sub"),
        copy("dir1/m.sv", "src/dir1/m.sv"),
        stub("src/dir1/m.sv.md", "m.sv"),
        copy("dir1/README.md", "src/dir1/README.md"),
        copy("dir1/sub/n.v", "src/dir1/sub/n.v"),
        stub("src/dir1/sub/n.v.md", "n.v"),
        copy("top", "src/top"),
    ]);
}

#[test]
fn copy_plan_leaves_out_what_is_neither_file_nor_directory() {
    let src = SrcFiles { nodes: tree_of(&["a.sv", "b.sv", "c.sv"]) };
    let steps = copy_src_files(&src, &vec![PathKind::Other, PathKind::File]);
    assert_eq!(steps.len(), 2);
    assert_eq!(
        steps[0],
        CopyStep::CopyFile { from: "b.sv".to_string(), to: "src/b.sv".to_string() }
    );
    assert!(copy_src_files(&src, &vec![]).is_empty());
}

#[test]
fn files_index_and_list_follow_the_alphabet() {
    let files = tree_of(&["z.sv", "dir1/m.sv", "a.v", "dir1/b.sv"]);
    assert_eq!(list_file_paths(&files), texts(&["z.sv", "dir1/m.sv", "dir1/b.sv", "a.v"]));
    let (index, list) = create_files_md(&files);
    assert_eq!(index, texts(&[
        "# Files\n\n",
        "- [a.v](src/a.v.md)\n",
        "- [dir1/b.sv](src/dir1/b.sv.md)\n",
        "- [dir1/m.sv](src/dir1/m.sv.md)\n",
        "- [z.sv](src/z.sv.md)\n",
    ]));
    assert_eq!(
        list,
        "  - [a.v](src/a.v.md)\n  - [dir1/b.sv](src/dir1/b.sv.md)\n  - [dir1/m.sv](src/dir1/m.sv.md)\n  - [z.sv](src/z.sv.md)\n"
    );
    let (index, list) = create_files_md(&FsNode::new(String::new()));
    assert_eq!(index, texts(&["# Files\n\n"]));
    assert_eq!(list, "");
    assert_eq!(print_file_entry("a.sv"), "- [a.sv](src/a.sv.md)\n");
}

#[test]
fn users_documentation_is_listed_from_level_one() {
    let src = SrcFiles {
        nodes: tree_of(&["dir1/m.sv", "dir1/README.md", "dir1/sub/n.v", "dir1/sub/notes.md", "top.md"]),
    };
    let flags = leaf_flags(&src.nodes);
    let list = list_users_md_docs(&src, &flags);
    let entry = |level: usize, name: &str, link: &str| DocEntry {
        level,
        name: name.to_string(),
        link: link.to_string(),
    };
    assert_eq!(list, vec![
        entry(1, "dir1", ""),
        entry(2, "README.md", "src/dir1/README.md"),
        entry(2, "sub", ""),
        entry(3, "notes.md", "src/dir1/sub/notes.md"),
        entry(1, "top.md", "src/top.md"),
    ]);
    assert_eq!(print_doc_entry(&list[1]), "    - [README.md](src/dir1/README.md)\n");
    assert_eq!(print_doc_entry(&list[0]), "  - [dir1]()\n");
    assert_eq!(print_doc_entry(&entry(0, "x", "y")), "- [x](y)\n");
}

#[test]
fn units_section_is_sorted() {
    let mut text = texts(&["before\n"]);
    print_units_section(
        &mut text,
        "- [Modules](modules.md)\n",
        vec![
            record("beta", "a.sv", "src/a.sv.module.beta.md"),
            record("alpha", "b.sv", "src/b.sv.module.alpha.md"),
            record("alpha", "a.sv", "src/a.sv.module.alpha.md"),
        ],
    );
    assert_eq!(text, texts(&[
        "before\n",
        "- [Modules](modules.md)\n",
        "  - [`alpha  :a.sv`](src/a.sv.module.alpha.md)\n",
        "  - [`alpha  :b.sv`](src/b.sv.module.alpha.md)\n",
        "  - [`beta  :a.sv`](src/a.sv.module.beta.md)\n",
    ]));
}

#[test]
fn unit_indices_are_sorted_and_records_follow_the_walk() {
    let files = tree_of(&["b.sv", "dir/a.sv", "gone.sv"]);
    // Files: b.sv, dir/a.sv, gone.sv.
    assert_eq!(list_file_paths(&files), texts(&["b.sv", "dir/a.sv", "gone.sv"]));
    let parsed = vec![
        parse("module zeta(); endmodule\npackage p; endpackage"),
        parse("module alpha(); endmodule\ninterface bus; endinterface\nclass c; endclass"),
    ];
    let modules = create_modules_md(&files, &parsed).unwrap();
    assert_eq!(modules.text, texts(&[
        "# Modules\n\n",
        "- [`alpha  :dir/a.sv`](src/dir/a.sv.module.alpha.md)\n",
        "- [`zeta  :b.sv`](src/b.sv.module.zeta.md)\n",
    ]));
    let names: Vec<&str> = modules.list.iter().map(|r| r.name.as_str()).collect();
    assert_eq!(names, vec!["zeta", "alpha"]);
    let paths: Vec<&str> = modules.pages.iter().map(|p| p.path.as_str()).collect();
    assert_eq!(paths, vec!["src/b.sv.module.zeta.md", "src/dir/a.sv.module.alpha.md"]);
    assert_eq!(create_ifaces_md(&files, &parsed).unwrap().text,
        texts(&["# Interfaces\n\n", "- [`bus  :dir/a.sv`](src/dir/a.sv.iface.bus.md)\n"]));
    assert_eq!(create_classes_md(&files, &parsed).unwrap().text,
        texts(&["# Classes\n\n", "- [`c  :dir/a.sv`](src/dir/a.sv.class.c.md)\n"]));
    assert_eq!(create_packages_md(&files, &parsed).unwrap().text,
        texts(&["# Packages\n\n", "- [`p  :b.sv`](src/b.sv.pkg.p.md)\n"]));
    let nothing = create_units_md(UnitKind::Module, &files, &vec![]).unwrap();
    assert_eq!(nothing.text, texts(&["# Modules\n\n"]));
    assert!(nothing.list.is_empty() && nothing.pages.is_empty());
}

#[test]
fn index_of_one_file_is_in_sort_order() {
    let files = tree_of(&["a.sv"]);
    let parsed = vec![parse(
        "module beta(); alpha u0(); alpha u1(); endmodule\nmodule alpha(); endmodule",
    )];
    let modules = create_modules_md(&files, &parsed).unwrap();
    assert_eq!(
        concat_all(&modules.text),
        "# Modules\n\n- [`alpha  :a.sv`](src/a.sv.module.alpha.md)\n\
         - [`beta  :a.sv`](src/a.sv.module.beta.md)\n"
    );
    let names: Vec<&str> = modules.list.iter().map(|r| r.name.as_str()).collect();
    assert_eq!(names, vec!["beta", "alpha"]);
    let docs = create_sv_docs(&files, &parsed).unwrap();
    assert_eq!(page(&docs.pages, "src/modules.md"), concat_all(&modules.text));
    assert_eq!(
        print_index(UnitKind::Class, &modules.list),
        texts(&[
            "# Classes\n\n",
            "- [`alpha  :a.sv`](src/a.sv.module.alpha.md)\n",
            "- [`beta  :a.sv`](src/a.sv.module.beta.md)\n",
        ])
    );
    assert_eq!(print_index(UnitKind::Package, &Vec::new()), texts(&["# Packages\n\n"]));
}

#[test]
fn unit_index_hands_on_the_first_error() {
    let files = tree_of(&["a.sv", "b.sv"]);
    let broken = SyntaxTree {
        nodes: vec![SyntaxNode { kind: NodeKind::PackageDeclaration, span: 1, text: String::new() }],
    };
    let parsed = vec![parse("package p; endpackage"), Some(broken)];
    assert_eq!(
        create_packages_md(&files, &parsed),
        Err(ExtractError::MissingName)
    );
    assert!(create_modules_md(&files, &parsed).is_ok());
    assert_eq!(create_sv_docs(&files, &parsed), Err(ExtractError::MissingName));
}

#[test]
fn sv_docs_list_files_and_units_in_order() {
    let files = tree_of(&["a.sv"]);
    let parsed = vec![parse(
        "module alpha(); endmodule\nmodule beta(); alpha u0(); alpha u1(); endmodule",
    )];
    let docs = create_sv_docs(&files, &parsed).unwrap();
    assert_eq!(docs.text, texts(&[
        "- [Files](files.md)\n",
        "  - [a.sv](src/a.sv.md)\n",
        "- [Modules](modules.md)\n",
        "  - [`alpha  :a.sv`](src/a.sv.module.alpha.md)\n",
        "  - [`beta  :a.sv`](src/a.sv.module.beta.md)\n",
        "- [Packages](packages.md)\n",
        "- [Interfaces](ifaces.md)\n",
        "- [Classes](classes.md)\n",
        "- [Functions]()\n",
    ]));
    let paths: Vec<&str> = docs.pages.iter().map(|p| p.path.as_str()).collect();
    assert_eq!(paths, vec![
        "src/files.md",
        "src/modules.md",
        "src/a.sv.module.alpha.md",
        "src/a.sv.module.beta.md",
        "src/packages.md",
        "src/ifaces.md",
        "src/classes.md",
    ]);
    assert_eq!(page(&docs.pages, "src/files.md"), "# Files\n\n- [a.sv](src/a.sv.md)\n");
    assert_eq!(
        page(&docs.pages, "src/modules.md"),
        "# Modules\n\n- [`alpha  :a.sv`](src/a.sv.module.alpha.md)\n\
         - [`beta  :a.sv`](src/a.sv.module.beta.md)\n"
    );
    assert_eq!(page(&docs.pages, "src/classes.md"), "# Classes\n\n");
    assert!(page(&docs.pages, "src/a.sv.module.beta.md")
        .ends_with("### Instantiates modules: \n\n- alpha\n  - u0\n  - u1\n"));
}

#[test]
fn summary_lists_documentation_then_sources() {
    let src = SrcFiles { nodes: tree_of(&["dir1/m.sv", "dir1/README.md", "dir1/sub/n.v"]) };
    let flags = leaf_flags(&src.nodes);
    let sv_files = get_sv_files(&src.nodes, &flags).unwrap();
    assert_eq!(list_file_paths(&sv_files), texts(&["dir1/m.sv", "dir1/sub/n.v"]));
    let parsed = vec![parse("module m(); endmodule"), parse("module n(); endmodule")];
    let pages = create_summary_md(&src, &flags, &parsed).unwrap();
    assert_eq!(pages.last().unwrap().path, "src/SUMMARY.md");
    assert_eq!(
        page(&pages, "src/SUMMARY.md"),
        "# Summary\n\
         \n\
         - [User's Documentation]()\n\
         \x20 - [dir1]()\n\
         \x20   - [README.md](src/dir1/README.md)\n\
         \n\
         ---\n\
         \n\
         - [Files](files.md)\n\
         \x20 - [dir1/m.sv](src/dir1/m.sv.md)\n\
         \x20 - [dir1/sub/n.v](src/dir1/sub/n.v.md)\n\
         - [Modules](modules.md)\n\
         \x20 - [`m  :dir1/m.sv`](src/dir1/m.sv.module.m.md)\n\
         \x20 - [`n  :dir1/sub/n.v`](src/dir1/sub/n.v.module.n.md)\n\
         - [Packages](packages.md)\n\
         - [Interfaces](ifaces.md)\n\
         - [Classes](classes.md)\n\
         - [Functions]()\n"
    );
    assert!(page(&pages, "src/dir1/sub/n.v.module.n.md").starts_with("## Module `n`\n\n"));
}

#[test]
fn generate_writes_the_whole_book() {
    let options = ParsedOptions {
        output_dir: "out".to_string(),
        inputs: texts(&["a.sv"]),
        includes: Vec::new(),
        project_name: "P".to_string(),
    };
    let src = SrcFiles { nodes: tree_of(&["a.sv"]) };
    let parsed = vec![parse("module top(input logic clk, output wire [7:0] data); endmodule")];
    let pages = generate(&options, &src, &vec![true], &parsed).unwrap();
    let paths: Vec<&str> = pages.iter().map(|p| p.path.as_str()).collect();
    assert_eq!(paths, vec![
        "src/files.md",
        "src/modules.md",
        "src/a.sv.module.top.md",
        "src/packages.md",
        "src/ifaces.md",
        "src/classes.md",
        "src/SUMMARY.md",
        "book.toml",
    ]);
    assert!(page(&pages, "book.toml").contains("title = \"P\"\n"));
    assert!(page(&pages, "src/SUMMARY.md")
        .lines()
        .any(|l| l == "  - [`top  :a.sv`](src/a.sv.module.top.md)"));
    assert!(page(&pages, "src/a.sv.module.top.md").starts_with("## Module `top`\n\n"));
}

#[test]
fn generate_of_an_empty_source_set_still_gives_the_frame() {
    let options = ParsedOptions::with_inputs(Vec::new());
    assert_eq!(options.output_dir, "svdoc");
    assert_eq!(options.project_name, "");
    assert!(options.includes.is_empty());
    let src = SrcFiles { nodes: FsNode::new(String::new()) };
    let pages = generate(&options, &src, &vec![], &vec![]).unwrap();
    assert_eq!(
        page(&pages, "src/SUMMARY.md"),
        "# Summary\n\n- [User's Documentation]()\n\n---\n\n- [Files](files.md)\n\
         - [Modules](modules.md)\n- [Packages](packages.md)\n- [Interfaces](ifaces.md)\n\
         - [Classes](classes.md)\n- [Functions]()\n"
    );
    assert_eq!(pages.len(), 7);
}

#[test]
fn two_runs_give_the_same_documents() {
    let options = ParsedOptions::with_inputs(texts(&["d"]));
    let one = SrcFiles { nodes: tree_of(&["d/b.sv", "d/a.sv"]) };
    let other = SrcFiles { nodes: tree_of(&["d/b.sv", "d/a.sv"]) };
    let parsed = vec![parse("module zeta(); endmodule"), parse("module alpha(); endmodule")];
    let first = generate(&options, &one, &vec![false, true, true], &parsed).unwrap();
    let second = generate(&options, &other, &vec![false, true, true], &parsed).unwrap();
    assert_eq!(first, second);
    // Neither the table of contents nor the indices depend on the order in
    // which the directory was read.
    let swapped = SrcFiles { nodes: tree_of(&["d/a.sv", "d/b.sv"]) };
    let parsed_swapped =
        vec![parse("module alpha(); endmodule"), parse("module zeta(); endmodule")];
    let third = generate(&options, &swapped, &vec![false, true, true], &parsed_swapped).unwrap();
    assert_eq!(page(&first, "src/SUMMARY.md"), page(&third, "src/SUMMARY.md"));
    assert_eq!(page(&first, "src/modules.md"), page(&third, "src/modules.md"));
    assert_eq!(page(&first, "src/files.md"), page(&third, "src/files.md"));
}
