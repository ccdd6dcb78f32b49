use sloposcope::languages::{default_parsers, PYTHON_QUERIES, RUST_QUERIES};
use sloposcope::parser::{select_parser, Grammar, Parser};

#[test]
fn every_language_has_a_parser() {
    let parsers = default_parsers();
    assert_eq!(parsers.len(), 13);
    let expected: Vec<(&str, usize)> = vec![
        ("ex", 0),
        ("exs", 0),
        ("rb", 1),
        ("rake", 1),
        ("js", 2),
        ("ts", 2),
        ("jsx", 2),
        ("tsx", 2),
        ("svelte", 3),
        ("py", 4),
        ("rs", 5),
        ("go", 6),
        ("java", 7),
        ("cpp", 8),
        ("hpp", 8),
        ("cc", 8),
        ("h", 8),
        ("php", 9),
        ("cs", 10),
        ("clj", 11),
        ("cljs", 11),
        ("cljc", 11),
        ("edn", 11),
        ("kt", 12),
        ("kts", 12),
    ];
    for (ext, k) in expected {
        assert_eq!(select_parser(&parsers, ext), Some(k), "extension {}", ext);
    }
    assert_eq!(select_parser(&parsers, "md"), None);
    assert_eq!(select_parser(&parsers, "c"), None);
    assert_eq!(select_parser(&parsers, ""), None);
}

#[test]
fn parser_kinds_and_queries() {
    let parsers = default_parsers();
    let kinds: Vec<(&str, &str)> =
        parsers.iter().map(|p| (p.default_node_kind, p.default_edge_kind)).collect();
    assert_eq!(
        kinds,
        vec![
            ("module", "call"),
            ("class", "call"),
            ("lib", "import"),
            ("component", "import"),
            ("module", "import"),
            ("module", "use"),
            ("package", "import"),
            ("class", "import"),
            ("module", "include"),
            ("class", "use"),
            ("class", "using"),
            ("namespace", "require"),
            ("class", "import"),
        ]
    );
    let grammars: Vec<Grammar> = parsers.iter().map(|p| p.grammar).collect();
    assert_eq!(
        grammars,
        vec![
            Grammar::Elixir,
            Grammar::Ruby,
            Grammar::JavaScript,
            Grammar::JavaScript,
            Grammar::Python,
            Grammar::Rust,
            Grammar::Go,
            Grammar::Java,
            Grammar::Cpp,
            Grammar::Php,
            Grammar::CSharp,
            Grammar::Clojure,
            Grammar::Kotlin,
        ]
    );
    assert_eq!(parsers[4].queries, PYTHON_QUERIES);
    assert_eq!(parsers[5].queries, RUST_QUERIES);
    assert_eq!(parsers[5].extensions(), vec!["rs"]);
}

// With the grammar versions in use, the Python and Go queries name fields and nodes that
// the grammars lack, so they do not compile and those files give a bare file node.
#[test]
fn python_file_through_the_default_parser() {
    let parsers = default_parsers();
    let k = select_parser(&parsers, "py").unwrap();
    let src = "import os\nfrom a.b import c\n\nclass Foo:\n    def bar(self):\n        pass\n";
    let (nodes, edges) = parsers[k].parse_file("pkg/foo.py", src);
    assert_eq!(nodes.len(), 1);
    assert_eq!(nodes[0].id, "pkg/foo.py");
    assert_eq!(nodes[0].label, "pkg/foo.py");
    assert_eq!(nodes[0].kind, "module");
    assert_eq!(nodes[0].line_count, 6);
    assert!(nodes[0].functions.is_empty());
    assert!(edges.is_empty());
}

#[test]
fn go_file_through_the_default_parser() {
    let parsers = default_parsers();
    let k = select_parser(&parsers, "go").unwrap();
    let src = "package main\n\nimport \"fmt\"\n\nfunc main() {\n\tfmt.Println(1)\n}\n";
    let (nodes, edges) = parsers[k].parse_file("cmd/main.go", src);
    assert_eq!(nodes.len(), 1);
    assert_eq!(nodes[0].label, "cmd/main.go");
    assert_eq!(nodes[0].kind, "package");
    assert_eq!(nodes[0].line_count, 7);
    assert!(edges.is_empty());
}

#[test]
fn java_file_through_the_default_parser() {
    let parsers = default_parsers();
    let k = select_parser(&parsers, "java").unwrap();
    let src = "import java.util.List;\n\npublic class Greeter {\n    void hello() {}\n}\n";
    let (nodes, edges) = parsers[k].parse_file("src/Greeter.java", src);
    assert_eq!(nodes.len(), 1);
    assert_eq!(nodes[0].label, "Greeter");
    assert_eq!(nodes[0].kind, "class");
    let names: Vec<&str> = nodes[0].functions.iter().map(|f| f.name.as_str()).collect();
    assert_eq!(names, vec!["hello"]);
    assert_eq!(edges.len(), 1);
    assert_eq!(edges[0].source, "src/Greeter.java");
    assert_eq!(edges[0].target, "java.util.List");
    assert_eq!(edges[0].kind, "import");
}

#[test]
fn ruby_file_through_the_default_parser() {
    let parsers = default_parsers();
    let k = select_parser(&parsers, "rb").unwrap();
    let src = "class Greeter\n  def hello\n    Logger.info(\"x\")\n  end\nend\n";
    let (nodes, edges) = parsers[k].parse_file("lib/greeter.rb", src);
    assert_eq!(nodes.len(), 1);
    assert_eq!(nodes[0].label, "Greeter");
    let names: Vec<&str> = nodes[0].functions.iter().map(|f| f.name.as_str()).collect();
    assert_eq!(names, vec!["hello"]);
    assert_eq!(edges.len(), 1);
    assert_eq!(edges[0].target, "Logger");
    assert_eq!(edges[0].kind, "call");
}

#[test]
fn parsed_names_stand_in_the_text() {
    let parsers = default_parsers();
    let samples = [
        ("src/Greeter.java", "import java.util.List;\nclass Greeter {\n    void hello() {}\n    int count() { return 1; }\n}\n"),
        ("lib/greeter.rb", "module Tools\n  class Greeter\n    def hello\n      Logger.info('x')\n    end\n  end\nend\n"),
        ("src/main.rs", "use crate::graph::Graph;\nmod util;\nfn main() {}\n"),
    ];
    for (path, src) in samples {
        let ext = path.rsplit('.').next().unwrap();
        let k = select_parser(&parsers, ext).unwrap();
        let (nodes, edges) = parsers[k].parse_file(path, src);
        assert_eq!(nodes.len(), 1);
        assert!(!nodes[0].functions.is_empty(), "{}", path);
        assert!(!edges.is_empty(), "{}", path);
        for f in &nodes[0].functions {
            assert!(src.contains(f.name.as_str()), "{} in {}", f.name, path);
        }
        for e in &edges {
            assert!(src.contains(e.target.as_str()), "{} in {}", e.target, path);
        }
        assert!(nodes[0].label == path || src.contains(nodes[0].label.as_str()));
    }
}
