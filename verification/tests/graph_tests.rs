use sloposcope::changes::ChangeSet;
use sloposcope::graph::{build_graph, resolve_graph_edges, Edge, Func, Graph, Node};

fn node(id: &str, file: &str) -> Node {
    Node {
        id: id.into(),
        label: id.into(),
        kind: "module".into(),
        file: file.into(),
        line_count: 3,
        change_status: "unchanged".into(),
        functions: vec![],
    }
}

fn edge(source: &str, target: &str, kind: &str) -> Edge {
    Edge { source: source.into(), target: target.into(), kind: kind.into() }
}

fn edge_list(g: &Graph) -> Vec<(String, String, String)> {
    g.edges.iter().map(|e| (e.source.clone(), e.target.clone(), e.kind.clone())).collect()
}

#[test]
fn test_filter_to_changes_empty() {
    let mut g = Graph::new();
    g.add_nodes(vec![Node {
        id: "Foo".into(),
        label: "Foo".into(),
        kind: "module".into(),
        file: "lib/foo.ex".into(),
        line_count: 10,
        change_status: "unchanged".into(),
        functions: vec![],
    }]);

    let changed = ChangeSet::new();
    g.filter_to_changes(&changed);

    assert_eq!(g.nodes.len(), 0);
}

#[test]
fn test_filter_to_changes_fallback() {
    let mut g = Graph::new();
    let mut changed = ChangeSet::new();
    changed.insert("config/env.exs".into(), "modified".into());

    g.filter_to_changes(&changed);

    assert_eq!(g.nodes.len(), 1);
    assert_eq!(g.nodes[0].id, "config/env.exs");
    assert_eq!(g.nodes[0].label, "config/env.exs");
    assert_eq!(g.nodes[0].kind, "file");
}

#[test]
fn filter_marks_status_and_drops_edges() {
    let mut g = Graph::new();
    g.add_nodes(vec![node("A", "lib/a.ex"), node("B", "lib/b.ex"), node("C", "lib/c.ex")]);
    g.add_edges(vec![edge("A", "B", "call"), edge("A", "C", "call")]);
    let mut changed = ChangeSet::new();
    changed.insert("lib/a.ex".into(), "modified".into());
    changed.insert("lib/c.ex".into(), "added".into());
    changed.insert("lib/gone.ex".into(), "deleted".into());
    changed.insert("README.md".into(), "added".into());
    g.filter_to_changes(&changed);
    let ids: Vec<&str> = g.nodes.iter().map(|n| n.id.as_str()).collect();
    assert_eq!(ids, vec!["A", "C", "README.md"]);
    assert_eq!(g.nodes[0].change_status, "modified");
    assert_eq!(g.nodes[1].change_status, "added");
    assert_eq!(g.nodes[2].kind, "file");
    assert_eq!(g.nodes[2].line_count, 0);
    assert_eq!(edge_list(&g), vec![("A".to_string(), "C".to_string(), "call".to_string())]);
}

#[test]
fn filtering_twice_changes_nothing() {
    let mut g = Graph::new();
    g.add_nodes(vec![node("A", "lib/a.ex"), node("B", "lib/b.ex"), node("C", "lib/c.ex")]);
    g.add_edges(vec![edge("A", "B", "call"), edge("A", "C", "call"), edge("C", "A", "use")]);
    let mut changed = ChangeSet::new();
    changed.insert("lib/a.ex".into(), "modified".into());
    changed.insert("lib/c.ex".into(), "added".into());
    changed.insert("lib/gone.ex".into(), "deleted".into());
    changed.insert("README.md".into(), "added".into());
    g.filter_to_changes(&changed);
    let nodes_once: Vec<(String, String, String)> =
        g.nodes.iter().map(|n| (n.id.clone(), n.file.clone(), n.change_status.clone())).collect();
    let edges_once = edge_list(&g);
    g.filter_to_changes(&changed);
    let nodes_twice: Vec<(String, String, String)> =
        g.nodes.iter().map(|n| (n.id.clone(), n.file.clone(), n.change_status.clone())).collect();
    assert_eq!(nodes_twice, nodes_once);
    assert_eq!(edge_list(&g), edges_once);
    assert_eq!(nodes_once.len(), 3);
    assert_eq!(edges_once.len(), 2);
}

#[test]
fn filter_keeps_deleted_file_nodes_that_were_parsed() {
    let mut g = Graph::new();
    g.add_nodes(vec![node("A", "lib/a.ex")]);
    let mut changed = ChangeSet::new();
    changed.insert("lib/a.ex".into(), "deleted".into());
    g.filter_to_changes(&changed);
    assert_eq!(g.nodes.len(), 1);
    assert_eq!(g.nodes[0].change_status, "deleted");
}

#[test]
fn finalize_drops_dangling_loops_and_duplicates() {
    let mut g = Graph::new();
    g.add_nodes(vec![node("A", "a"), node("B", "b")]);
    g.add_edges(vec![
        edge("A", "B", "use"),
        edge("A", "A", "use"),
        edge("A", "Z", "use"),
        edge("A", "B", "use"),
        edge("A", "B", "call"),
        edge("B", "A", "use"),
    ]);
    g.finalize();
    assert_eq!(
        edge_list(&g),
        vec![
            ("A".to_string(), "B".to_string(), "use".to_string()),
            ("A".to_string(), "B".to_string(), "call".to_string()),
            ("B".to_string(), "A".to_string(), "use".to_string()),
        ]
    );
    // Finalizing again changes nothing.
    g.finalize();
    assert_eq!(edge_list(&g).len(), 3);
    assert_eq!(g.nodes.len(), 2);
}

#[test]
fn resolve_points_edges_at_nodes() {
    let mut g = Graph::new();
    g.add_nodes(vec![
        node("src/graph.rs", "src/graph.rs"),
        node("lib/app/user.ex", "lib/app/user.ex"),
        node("web/main.js", "web/main.js"),
    ]);
    g.add_edges(vec![
        edge("x", "crate::graph", "use"),
        edge("x", "./src/graph.rs", "use"),
        edge("x", "app.user", "alias"),
        edge("x", "main", "import"),
        edge("x", "web/main.js", "import"),
        edge("x", "unknown_thing", "import"),
    ]);
    resolve_graph_edges(&mut g);
    let targets: Vec<&str> = g.edges.iter().map(|e| e.target.as_str()).collect();
    assert_eq!(
        targets,
        vec!["crate::graph", "src/graph.rs", "lib/app/user.ex", "web/main.js", "web/main.js", "unknown_thing"]
    );
}

#[test]
fn build_graph_resolves_finalizes_and_filters() {
    let a = (vec![node("src/a.rs", "src/a.rs")], vec![edge("src/a.rs", "b.rs", "use")]);
    let b = (vec![node("src/b.rs", "src/b.rs")], vec![edge("src/b.rs", "src/b.rs", "use")]);
    let g = build_graph(vec![a, b], None);
    assert_eq!(g.nodes.len(), 2);
    assert_eq!(
        edge_list(&g),
        vec![("src/a.rs".to_string(), "src/b.rs".to_string(), "use".to_string())]
    );

    let a = (vec![node("src/a.rs", "src/a.rs")], vec![edge("src/a.rs", "b.rs", "use")]);
    let b = (vec![node("src/b.rs", "src/b.rs")], vec![]);
    let mut changed = ChangeSet::new();
    changed.insert("src/a.rs".into(), "modified".into());
    let g = build_graph(vec![a, b], Some(&changed));
    assert_eq!(g.nodes.len(), 1);
    assert_eq!(g.nodes[0].change_status, "modified");
    assert!(g.edges.is_empty());
}

#[test]
fn touched_file_helpers() {
    let mut g = Graph::new();
    g.add_nodes(vec![node("A", "lib/a.ex"), node("B", "lib/b.ex")]);
    assert!(g.drop_file_nodes(&"lib/a.ex".to_string()));
    assert!(!g.drop_file_nodes(&"lib/zzz.ex".to_string()));
    assert_eq!(g.nodes.len(), 1);

    let mut n = node("A2", "lib/a.ex");
    n.functions.push(Func { name: "run".into(), arity: 0, kind: "def".into() });
    let added = g.merge_parsed_file(vec![n], vec![edge("A2", "B", "call")], &"added".to_string());
    assert!(added);
    assert_eq!(g.nodes[1].change_status, "added");
    assert_eq!(g.nodes[1].functions.len(), 1);
    assert_eq!(g.edges.len(), 1);
    assert!(!g.merge_parsed_file(vec![], vec![], &"added".to_string()));

    g.add_file_node(&"notes.txt".to_string(), 7, &"modified".to_string());
    let last = g.nodes.last().unwrap();
    assert_eq!(last.id, "notes.txt");
    assert_eq!(last.kind, "file");
    assert_eq!(last.line_count, 7);
    assert_eq!(last.change_status, "modified");
}

#[test]
fn touch_status_rules() {
    let mut changed = ChangeSet::new();
    changed.insert("a.rs".into(), "modified".into());
    changed.insert("b.rs".into(), "deleted".into());
    assert_eq!(sloposcope::graph::touch_status(&changed, &"a.rs".to_string(), true), Some("modified".to_string()));
    assert_eq!(sloposcope::graph::touch_status(&changed, &"a.rs".to_string(), false), None);
    assert_eq!(sloposcope::graph::touch_status(&changed, &"b.rs".to_string(), true), None);
    assert_eq!(sloposcope::graph::touch_status(&changed, &"c.rs".to_string(), true), None);
}

#[test]
fn change_set_reads_back_writes() {
    let mut c = ChangeSet::new();
    assert!(c.is_empty());
    c.insert("a".into(), "added".into());
    c.insert("b".into(), "modified".into());
    c.insert("a".into(), "deleted".into());
    assert_eq!(c.len(), 2);
    assert_eq!(c.get(&"a".to_string()), Some(&"deleted".to_string()));
    assert_eq!(c.get(&"b".to_string()), Some(&"modified".to_string()));
    assert_eq!(c.get(&"z".to_string()), None);
    assert!(c.contains_key(&"b".to_string()));
    assert_eq!(c.keys(), vec!["a".to_string(), "b".to_string()]);
    assert_eq!(c.key_at(0), "a");
    assert_eq!(c.value_at(0), "deleted");
}
