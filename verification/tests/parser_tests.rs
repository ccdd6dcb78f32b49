use sloposcope::parser::{assemble_file, select_parser, Capture, Grammar, Parser, PluggableParser};

fn cap(name: &str, text: Option<&str>) -> Capture {
    Capture { name: name.into(), text: text.map(|t| t.to_string()) }
}

#[test]
fn assemble_from_matches() {
    let matches = vec![
        vec![cap("kw", Some("defmodule")), cap("node.name", Some("MyApp.User"))],
        vec![cap("func.kind", Some("defp")), cap("func.name", Some("'hidden'"))],
        vec![cap("edge.kind", Some("alias")), cap("edge.target", Some("\"MyApp.Repo\""))],
        vec![cap("node.name", Some("Other")), cap("edge.target", None)],
    ];
    let (node, edges) = assemble_file("lib/user.ex", "a\nb\r\nc", "module", "call", &matches);
    assert_eq!(node.id, "lib/user.ex");
    assert_eq!(node.file, "lib/user.ex");
    assert_eq!(node.label, "MyApp.User");
    assert_eq!(node.kind, "module");
    assert_eq!(node.line_count, 3);
    assert_eq!(node.change_status, "unchanged");
    assert_eq!(node.functions.len(), 1);
    assert_eq!(node.functions[0].name, "hidden");
    assert_eq!(node.functions[0].kind, "defp");
    assert_eq!(node.functions[0].arity, 0);
    assert_eq!(edges.len(), 1);
    assert_eq!(edges[0].source, "lib/user.ex");
    assert_eq!(edges[0].target, "MyApp.Repo");
    assert_eq!(edges[0].kind, "alias");
}

#[test]
fn assemble_without_matches() {
    let (node, edges) = assemble_file("x.py", "", "module", "import", &vec![]);
    assert_eq!(node.label, "x.py");
    assert_eq!(node.line_count, 0);
    assert!(node.functions.is_empty());
    assert!(edges.is_empty());
}

fn rust_parser() -> PluggableParser {
    PluggableParser {
        extensions: vec!["rs"],
        grammar: Grammar::Rust,
        default_node_kind: "module",
        default_edge_kind: "use",
        queries: r#"
            (struct_item name: (type_identifier) @node.name)
            (enum_item name: (type_identifier) @node.name)
            (function_item name: (identifier) @func.name)
            (mod_item name: (identifier) @node.name)
            (use_declaration argument: [(scoped_identifier) @edge.target (identifier) @edge.target])
        "#,
    }
}

#[test]
fn tree_sitter_rust_file() {
    let p = rust_parser();
    assert_eq!(p.extensions(), vec!["rs"]);
    let src = "use std::fmt;\nstruct Widget;\nfn draw() {}\nfn main() {}\n";
    let (nodes, edges) = p.parse_file("src/widget.rs", src);
    assert_eq!(nodes.len(), 1);
    assert_eq!(nodes[0].id, "src/widget.rs");
    assert_eq!(nodes[0].label, "Widget");
    assert_eq!(nodes[0].line_count, 4);
    let names: Vec<&str> = nodes[0].functions.iter().map(|f| f.name.as_str()).collect();
    assert_eq!(names, vec!["draw", "main"]);
    assert_eq!(edges.len(), 1);
    assert_eq!(edges[0].target, "std::fmt");
    assert_eq!(edges[0].kind, "use");
}

#[test]
fn bad_query_still_gives_file_node() {
    let mut p = rust_parser();
    p.queries = "(this is not a query";
    let (nodes, edges) = p.parse_file("src/lib.rs", "struct A;\n");
    assert_eq!(nodes.len(), 1);
    assert_eq!(nodes[0].label, "src/lib.rs");
    assert!(edges.is_empty());
}

#[test]
fn parser_selection_by_extension() {
    let mut py = rust_parser();
    py.extensions = vec!["py"];
    let parsers = vec![py, rust_parser()];
    assert_eq!(select_parser(&parsers, "rs"), Some(1));
    assert_eq!(select_parser(&parsers, "py"), Some(0));
    assert_eq!(select_parser(&parsers, "md"), None);
    assert_eq!(select_parser(&parsers, ""), None);
}
