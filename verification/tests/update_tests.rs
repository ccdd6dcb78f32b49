use sloposcope::changes::ChangeSet;
use sloposcope::graph::{Edge, Graph, Node};
use sloposcope::languages::default_parsers;
use sloposcope::parser::Parser;
use sloposcope::update::{apply_touched_files, extension_of, parse_files};

fn node(id: &str, file: &str) -> Node {
    Node {
        id: id.into(),
        label: id.into(),
        kind: "module".into(),
        file: file.into(),
        line_count: 3,
        change_status: "unchanged".into(),
        functions: vec![],
    }
}

#[test]
fn path_extensions() {
    assert_eq!(extension_of("src/main.rs"), "rs");
    assert_eq!(extension_of("lib/a.b/c.tar.gz"), "gz");
    assert_eq!(extension_of("Makefile"), "");
    assert_eq!(extension_of("dir.d/Makefile"), "");
    assert_eq!(extension_of(".gitignore"), "");
    assert_eq!(extension_of("conf/.env.local"), "local");
    assert_eq!(extension_of("notes."), "");
    assert_eq!(extension_of(""), "");
    assert_eq!(extension_of("src/main.rs/"), "rs");
    assert_eq!(extension_of("src/./main.rs/."), "rs");
    for p in [
        "src/main.rs",
        "a/b.c/d",
        ".gitignore",
        "x/.y.z",
        "notes.",
        "a.b.c",
        "src/main.rs/",
        "src/main.rs//",
        "a/./b.py/.",
        "./c.go",
        "a/..",
        "..",
        ".",
        "/",
    ] {
        let expected = std::path::Path::new(p)
            .extension()
            .and_then(|e| e.to_str())
            .unwrap_or("");
        assert_eq!(extension_of(p), expected, "{}", p);
    }
}

#[test]
fn every_grammar_gives_a_node() {
    for p in default_parsers() {
        let (nodes, edges) = p.parse_file("x", "");
        assert_eq!(nodes.len(), 1);
        assert_eq!(nodes[0].label, "x");
        assert_eq!(nodes[0].line_count, 0);
        assert!(edges.is_empty());
    }
}

#[test]
fn parse_files_skips_unknown_and_unread() {
    let parsers = default_parsers();
    let files = vec![
        ("src/w.rs".to_string(), Some("struct W;\nfn f() {}\n".to_string())),
        ("README.md".to_string(), Some("# hi\n".to_string())),
        ("src/gone.rs".to_string(), None),
        ("src/v.rs".to_string(), Some("use std::fmt;\n".to_string())),
    ];
    let cs = parse_files(&parsers, files);
    assert_eq!(cs.len(), 2);
    assert_eq!(cs[0].0.len(), 1);
    assert_eq!(cs[0].0[0].label, "W");
    assert_eq!(cs[0].0[0].functions[0].name, "f");
    assert_eq!(cs[1].0[0].id, "src/v.rs");
    assert_eq!(cs[1].1.len(), 1);
    assert_eq!(cs[1].1[0].target, "std::fmt");
}

#[test]
fn touched_files_reenter_the_graph() {
    let parsers = default_parsers();
    let mut g = Graph::new();
    g.add_nodes(vec![node("src/a.rs", "src/a.rs"), node("gone.rs", "gone.rs"), node("keep", "keep.ex")]);
    g.add_edges(vec![Edge { source: "keep".into(), target: "src/a.rs".into(), kind: "use".into() }]);
    let mut changed = ChangeSet::new();
    changed.insert("src/a.rs".into(), "modified".into());
    changed.insert("gone.rs".into(), "deleted".into());
    changed.insert("notes.txt".into(), "added".into());
    let touched = vec![
        ("src/a.rs".to_string(), true, Some("use std::fmt;\nstruct W;\nfn f() {}\n".to_string())),
        ("gone.rs".to_string(), false, None),
        ("notes.txt".to_string(), true, Some("a\nb\n".to_string())),
        ("unlisted.rs".to_string(), true, Some(String::new())),
    ];
    assert!(apply_touched_files(&mut g, &parsers, &changed, touched));
    let files: Vec<(&str, &str, &str)> = g
        .nodes
        .iter()
        .map(|n| (n.file.as_str(), n.label.as_str(), n.change_status.as_str()))
        .collect();
    assert_eq!(
        files,
        vec![("keep.ex", "keep", "unchanged"), ("src/a.rs", "W", "modified"), ("notes.txt", "notes.txt", "added")]
    );
    assert_eq!(g.nodes[1].functions.len(), 1);
    assert_eq!(g.nodes[2].kind, "file");
    assert_eq!(g.nodes[2].line_count, 2);
    // The edge into the re-parsed file stays; the unresolved `std::fmt` edge is dropped.
    assert_eq!(g.edges.len(), 1);
    assert_eq!(g.edges[0].source, "keep");
    assert_eq!(g.edges[0].target, "src/a.rs");
}

#[test]
fn untouched_graph_stays() {
    let parsers = default_parsers();
    let mut g = Graph::new();
    g.add_nodes(vec![node("A", "a.ex")]);
    g.add_edges(vec![Edge { source: "A".into(), target: "A".into(), kind: "call".into() }]);
    let changed = ChangeSet::new();
    let touched = vec![("b.ex".to_string(), true, Some("x".to_string()))];
    assert!(!apply_touched_files(&mut g, &parsers, &changed, touched));
    // Nothing changed, so not even the self loop was finalized away.
    assert_eq!(g.nodes.len(), 1);
    assert_eq!(g.edges.len(), 1);
}
