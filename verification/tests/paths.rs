use svdocgen::paths::{chars_of, extension_among, extension_is, is_source_file, join_names};

fn names(parts: &[&str]) -> Vec<String> {
    parts.iter().map(|p| p.to_string()).collect()
}

#[test]
fn chars_of_lists_every_character() {
    assert_eq!(chars_of("a\u{2794}b"), vec!['a', '\u{2794}', 'b']);
    assert!(chars_of("").is_empty());
}

#[test]
fn join_names_puts_a_slash_between_names() {
    assert_eq!(join_names(&names(&[])), "");
    assert_eq!(join_names(&names(&["a.sv"])), "a.sv");
    assert_eq!(join_names(&names(&["dir1", "sub", "n.v"])), "dir1/sub/n.v");
}

#[test]
fn extension_is_what_follows_the_last_dot() {
    assert!(extension_is("m.sv", "sv"));
    assert!(extension_is("a.b.v", "v"));
    assert!(!extension_is("a.b.v", "b.v"));
    assert!(!extension_is("a.b.v", "b"));
    assert!(extension_is("README.md", "md"));
    assert!(!extension_is("README.md", "MD"));
    assert!(!extension_is("m.sv", "v"));
    assert!(!extension_is("m.sv", "ssv"));
    assert!(!extension_is("m.svx", "sv"));
}

#[test]
fn name_without_an_extension_has_none() {
    assert!(!extension_is("Makefile", ""));
    assert!(!extension_is("Makefile", "Makefile"));
    assert!(!extension_is("", ""));
    assert!(!extension_is(".sv", "sv"));
    assert!(!extension_is(".sv", ""));
    assert!(!extension_is("..", ""));
    assert!(!extension_is("..", "."));
}

#[test]
fn extension_may_be_empty_or_follow_a_leading_dot() {
    assert!(extension_is("a.", ""));
    assert!(extension_is("...", ""));
    assert!(extension_is(".hidden.sv", "sv"));
    assert!(extension_is("a..v", "v"));
}

#[test]
fn extension_among_looks_through_the_list() {
    assert!(extension_among("n.v", &["sv", "v"]));
    assert!(extension_among("m.sv", &["sv", "v"]));
    assert!(!extension_among("README.md", &["sv", "v"]));
    assert!(!extension_among("m.sv", &[]));
    assert!(extension_among("a.", &["x", ""]));
    assert!(!extension_among("a", &[""]));
}

#[test]
fn source_files_have_one_of_three_extensions() {
    assert!(is_source_file("dir1/m.sv"));
    assert!(is_source_file("dir1/sub/n.v"));
    assert!(is_source_file("dir1/README.md"));
    assert!(is_source_file("x.sv/"));
    assert!(!is_source_file("dir1/notes.txt"));
    assert!(!is_source_file("dir1/m.SV"));
    assert!(!is_source_file("dir.sv/Makefile"));
    assert!(!is_source_file("dir1/m.sv/.."));
    assert!(!is_source_file(""));
    assert!(!is_source_file("/"));
}
