use vstd::prelude::*;

use crate::changes::{ChangeSet, EntriesView};
use crate::graph::{
    contribution_views, counted_file_node, edge_views, Edge, Node, finalized_edges, node_ids, node_views, resolve_graph_edges,
    resolved_edge, touch_status, touch_status_of, with_status, EdgeView, Graph, GraphView, NodeView,
};
use crate::parser::{
    file_edges, file_matches, file_node_of, first_parser_for, parser_extensions, select_parser,
    Parser, PluggableParser,
};
use crate::text::{chars_of, line_count, lines, split, split_chars, string_of, lemma_split_nonempty};

verus! {

// ---------------------------------------------------------------------------
// The extension of a path.
// ---------------------------------------------------------------------------

/// The last of the pieces `ps` that is neither empty nor `.`, or the empty text.
pub open spec fn last_name(ps: Seq<Seq<char>>) -> Seq<char>
    decreases ps.len(),
{
    if ps.len() == 0 {
        Seq::empty()
    } else if ps.last().len() == 0 || ps.last() == seq!['.'] {
        last_name(ps.drop_last())
    } else {
        ps.last()
    }
}

/// The last component of `path` (`Path::file_name`, or empty): its last `/`-separated
/// piece that is neither empty nor `.`.
pub open spec fn last_component(path: Seq<char>) -> Seq<char> {
    last_name(split(path, seq!['/']))
}

/// The extension of the file name `name` (`Path::extension`, empty where it has none):
/// what follows its last `.`, unless it has no `.` or its only `.` is its first character.
pub open spec fn name_extension(name: Seq<char>) -> Seq<char> {
    let ps = split(name, seq!['.']);
    if ps.len() < 2 || (ps.len() == 2 && ps[0].len() == 0) {
        Seq::empty()
    } else {
        ps.last()
    }
}

/// The extension of the last component of `path` (see [`name_extension`]).
pub open spec fn path_extension(path: Seq<char>) -> Seq<char> {
    name_extension(last_component(path))
}

/// The extension of the last component of the relative path `path`, or the empty text
/// where it has none (see [`path_extension`]).
pub fn extension_of(path: &str) -> (r: String)
    ensures
        r@ == path_extension(path@),
{
    let slash: Vec<char> = vec!['/'];
    let dot: Vec<char> = vec!['.'];
    let comps = split_chars(&chars_of(path), &slash);
    proof {
        assert(slash@ =~= seq!['/']);
        assert(dot@ =~= seq!['.']);
    }
    let ghost ps = split(path@, seq!['/']);
    let mut k: usize = comps.len();
    assert(ps.len() == comps@.len());
    assert(ps.take(k as int) =~= ps);
    while k > 0 && (comps[k - 1].len() == 0 || (comps[k - 1].len() == 1 && comps[k - 1][0] == '.'))
        invariant
            k <= comps.len(),
            crate::text::views(comps@) == ps,
            last_name(ps) == last_name(ps.take(k as int)),
        decreases k,
    {
        let ghost c = ps[k - 1];
        assert(c == comps@[k - 1]@);
        assert(c.len() == 0 || c =~= seq!['.']);
        assert(ps.take(k as int).drop_last() =~= ps.take(k - 1));
        k = k - 1;
    }
    let empty: Vec<char> = Vec::new();
    let name = if k == 0 {
        assert(ps.take(0) =~= Seq::<Seq<char>>::empty());
        &empty
    } else {
        let ghost c = ps[k - 1];
        assert(c == comps@[k - 1]@);
        assert(!(c.len() == 0 || c =~= seq!['.'])) by {
            if c =~= seq!['.'] {
                assert(comps@[k - 1]@.len() == 1 && comps@[k - 1]@[0] == '.');
            }
        }
        assert(ps.take(k as int).last() == c);
        &comps[k - 1]
    };
    assert(name@ == last_component(path@));
    let pieces = split_chars(name, &dot);
    proof {
        lemma_split_nonempty(name@, dot@);
    }
    let n = pieces.len();
    if n < 2 || (n == 2 && pieces[0].len() == 0) {
        let none: Vec<char> = Vec::new();
        assert(none@ =~= Seq::<char>::empty());
        string_of(&none)
    } else {
        string_of(&pieces[n - 1])
    }
}

// ---------------------------------------------------------------------------
// Parsing the changed files.
// ---------------------------------------------------------------------------

pub open spec fn file_views(fs: Seq<(String, Option<String>)>) -> Seq<(Seq<char>, Option<Seq<char>>)> {
    fs.map_values(
        |f: (String, Option<String>)|
            (
                f.0@,
                match f.1 {
                    Some(s) => Some(s@),
                    None => None,
                },
            ),
    )
}

/// What the files `files` (relative path, and text where it could be read) contribute to
/// the graph, in order: each file whose extension a parser reads and whose text was read
/// gives the node and the edges of the first such parser; the others give nothing.
pub open spec fn file_contributions(
    parsers: Seq<PluggableParser>,
    files: Seq<(Seq<char>, Option<Seq<char>>)>,
) -> Seq<(Seq<NodeView>, Seq<EdgeView>)>
    decreases files.len(),
{
    if files.len() == 0 {
        Seq::empty()
    } else {
        let rest = file_contributions(parsers, files.drop_last());
        let f = files.last();
        match (first_parser_for(parser_extensions(parsers), path_extension(f.0)), f.1) {
            (Some(k), Some(text)) => rest.push(
                (seq![parsed_node(parsers[k], f.0, text)], parsed_edges(parsers[k], f.0, text)),
            ),
            _ => rest,
        }
    }
}

/// Parses the files `files` (see [`file_contributions`]); the result is what
/// [`crate::graph::build_graph`] takes.
pub fn parse_files(parsers: &Vec<PluggableParser>, files: Vec<(String, Option<String>)>) -> (r: Vec<
    (Vec<Node>, Vec<Edge>),
>)
    ensures
        contribution_views(r@) == file_contributions(parsers@, file_views(files@)),
{
    let ghost fv = file_views(files@);
    let mut r: Vec<(Vec<Node>, Vec<Edge>)> = Vec::new();
    let mut i: usize = 0;
    while i < files.len()
        invariant
            i <= files.len(),
            fv == file_views(files@),
            contribution_views(r@) == file_contributions(parsers@, fv.take(i as int)),
        decreases files.len() - i,
    {
        let ghost f = fv[i as int];
        assert(fv.take(i + 1).drop_last() =~= fv.take(i as int));
        assert(fv.take(i + 1).last() == f);
        let path = &files[i].0;
        let ext = extension_of(path.as_str());
        match select_parser(parsers, ext.as_str()) {
            Some(k) => match &files[i].1 {
                Some(content) => {
                    assert(f.1 == Some(content@));
                    let c = parsers[k].parse_file(path.as_str(), content.as_str());
                    let ghost before = contribution_views(r@);
                    let ghost cv = (node_views(c.0@), edge_views(c.1@));
                    assert(cv.0 =~= seq![parsed_node(parsers@[k as int], path@, content@)]);
                    r.push(c);
                    assert(contribution_views(r@) =~= before.push(cv));
                },
                None => {},
            },
            None => {},
        }
        i = i + 1;
    }
    assert(fv.take(i as int) =~= fv);
    r
}

// ---------------------------------------------------------------------------
// Touched files.
// ---------------------------------------------------------------------------

/// What the watcher knows of a touched file, as plain values: its path relative to the
/// repository, whether it is a regular file on disk, and its text where it could be read.
pub type TouchView = (Seq<char>, bool, Option<Seq<char>>);

pub open spec fn touch_views(ts: Seq<(String, bool, Option<String>)>) -> Seq<TouchView> {
    ts.map_values(
        |t: (String, bool, Option<String>)|
            (
                t.0@,
                t.1,
                match t.2 {
                    Some(s) => Some(s@),
                    None => None,
                },
            ),
    )
}

/// The node that the parser `p` gives for the file `path` with the text `content`.
pub open spec fn parsed_node(p: PluggableParser, path: Seq<char>, content: Seq<char>) -> NodeView {
    file_node_of(
        path,
        content,
        p.default_node_kind@,
        p.default_edge_kind@,
        file_matches(p.grammar, p.queries@, content),
    )
}

/// The edges that the parser `p` gives for the file `path` with the text `content`.
pub open spec fn parsed_edges(p: PluggableParser, path: Seq<char>, content: Seq<char>) -> Seq<
    EdgeView,
> {
    file_edges(file_matches(p.grammar, p.queries@, content), path, p.default_edge_kind@)
}

/// The graph `g` after the touched file `t`, and whether that changed it. The nodes of
/// the file are dropped. Where the file goes back into the graph under a status (see
/// [`touch_status_of`]), the parser of its extension, if there is one and its text was
/// read, gives its node, marked with that status, and its edges; otherwise it gets a
/// generic file node counting the lines of its text (0 where it was not read).
pub open spec fn touch_step(
    g: GraphView,
    parsers: Seq<PluggableParser>,
    changed: EntriesView,
    t: TouchView,
) -> (GraphView, bool) {
    let dropped = g.nodes.filter(|n: NodeView| n.file != t.0);
    let removed = dropped.len() != g.nodes.len();
    match touch_status_of(changed, t.0, t.1) {
        None => (GraphView { nodes: dropped, edges: g.edges }, removed),
        Some(status) => match (first_parser_for(parser_extensions(parsers), path_extension(t.0)), t.2) {
            (Some(k), Some(text)) => (
                GraphView {
                    nodes: dropped.push(with_status(parsed_node(parsers[k], t.0, text), status)),
                    edges: g.edges + parsed_edges(parsers[k], t.0, text),
                },
                true,
            ),
            _ => (
                GraphView {
                    nodes: dropped.push(
                        counted_file_node(
                            t.0,
                            status,
                            match t.2 {
                                Some(text) => lines(text).len(),
                                None => 0,
                            },
                        ),
                    ),
                    edges: g.edges,
                },
                true,
            ),
        },
    }
}

/// The graph after the touched files `ts` in order, and whether any of them changed it.
pub open spec fn touched_graph(
    g: GraphView,
    parsers: Seq<PluggableParser>,
    changed: EntriesView,
    ts: Seq<TouchView>,
) -> (GraphView, bool)
    decreases ts.len(),
{
    if ts.len() == 0 {
        (g, false)
    } else {
        let before = touched_graph(g, parsers, changed, ts.drop_last());
        let after = touch_step(before.0, parsers, changed, ts.last());
        (after.0, before.1 || after.1)
    }
}

/// The graph after the touched files `ts`, and whether it changed: where it did, its edges
/// are pointed at their resolved targets and finalized.
pub open spec fn applied_touches(
    g: GraphView,
    parsers: Seq<PluggableParser>,
    changed: EntriesView,
    ts: Seq<TouchView>,
) -> (GraphView, bool) {
    let t = touched_graph(g, parsers, changed, ts);
    if t.1 {
        let ids = node_ids(t.0.nodes);
        (
            GraphView {
                nodes: t.0.nodes,
                edges: finalized_edges(ids, t.0.edges.map_values(|e: EdgeView| resolved_edge(ids, e))),
            },
            true,
        )
    } else {
        (g, false)
    }
}

proof fn lemma_filter_keeps_all<A>(s: Seq<A>, pred: spec_fn(A) -> bool)
    requires
        s.filter(pred).len() == s.len(),
    ensures
        s.filter(pred) == s,
    decreases s.len(),
{
    reveal(Seq::filter);
    broadcast use vstd::seq_lib::group_filter_ensures;
    if s.len() > 0 {
        let init = s.drop_last();
        if !pred(s.last()) {
            assert(s.filter(pred) == init.filter(pred));
        } else {
            lemma_filter_keeps_all(init, pred);
            assert(s =~= init.push(s.last()));
        }
    }
}

/// Touched files that change nothing leave the graph as it was.
pub proof fn lemma_untouched_graph(
    g: GraphView,
    parsers: Seq<PluggableParser>,
    changed: EntriesView,
    ts: Seq<TouchView>,
)
    ensures
        !touched_graph(g, parsers, changed, ts).1 ==> touched_graph(g, parsers, changed, ts).0 == g,
    decreases ts.len(),
{
    if ts.len() > 0 {
        lemma_untouched_graph(g, parsers, changed, ts.drop_last());
        let before = touched_graph(g, parsers, changed, ts.drop_last());
        let t = ts.last();
        if !touched_graph(g, parsers, changed, ts).1 {
            lemma_filter_keeps_all(before.0.nodes, |n: NodeView| n.file != t.0);
        }
    }
}

/// After a touched file, the graph holds a node of that file exactly where the file goes
/// back under a status (see [`touch_status_of`]): then one node, the last, which carries
/// that status; otherwise none.
pub proof fn lemma_touch_step_nodes(
    g: GraphView,
    parsers: Seq<PluggableParser>,
    changed: EntriesView,
    t: TouchView,
)
    ensures
        ({
            let ns = touch_step(g, parsers, changed, t).0.nodes;
            match touch_status_of(changed, t.0, t.1) {
                None => forall|i: int| 0 <= i < ns.len() ==> (#[trigger] ns[i]).file != t.0,
                Some(s) => ns.len() > 0 && ns.last().file == t.0 && ns.last().change_status == s
                    && forall|i: int| 0 <= i < ns.len() - 1 ==> (#[trigger] ns[i]).file != t.0,
            }
        }),
{
    broadcast use vstd::seq_lib::group_filter_ensures;

    let dropped = g.nodes.filter(|n: NodeView| n.file != t.0);
    assert(forall|i: int| 0 <= i < dropped.len() ==> (#[trigger] dropped[i]).file != t.0);
}

/// A touched file that goes back into the graph through a parser brings the edges that
/// the parser gives for its text: the update reports a change, and each of those edges,
/// pointed at its resolved target, is in the updated graph wherever it then joins two
/// different nodes of it.
pub proof fn lemma_touched_file_edges(
    g: GraphView,
    parsers: Seq<PluggableParser>,
    changed: EntriesView,
    ts: Seq<TouchView>,
    t: TouchView,
    k: int,
    text: Seq<char>,
    e: EdgeView,
)
    requires
        touch_status_of(changed, t.0, t.1) is Some,
        first_parser_for(parser_extensions(parsers), path_extension(t.0)) == Some(k),
        t.2 == Some(text),
        file_edges(
            file_matches(parsers[k].grammar, parsers[k].queries@, text),
            t.0,
            parsers[k].default_edge_kind@,
        ).contains(e),
        crate::graph::edge_is_sound(
            node_ids(applied_touches(g, parsers, changed, ts.push(t)).0.nodes),
            resolved_edge(node_ids(applied_touches(g, parsers, changed, ts.push(t)).0.nodes), e),
        ),
    ensures
        applied_touches(g, parsers, changed, ts.push(t)).1,
        applied_touches(g, parsers, changed, ts.push(t)).0.edges.contains(
            resolved_edge(node_ids(applied_touches(g, parsers, changed, ts.push(t)).0.nodes), e),
        ),
{
    let all = ts.push(t);
    assert(all.drop_last() =~= ts);
    assert(all.last() == t);
    let before = touched_graph(g, parsers, changed, ts);
    let after = touch_step(before.0, parsers, changed, t);
    let pe = parsed_edges(parsers[k], t.0, text);
    assert(after.0.edges == before.0.edges + pe);
    let ids = node_ids(after.0.nodes);
    let es = after.0.edges;
    let resolved = es.map_values(|x: EdgeView| resolved_edge(ids, x));
    let j = choose|j: int| 0 <= j < pe.len() && pe[j] == e;
    assert(es[before.0.edges.len() + j] == e);
    assert(resolved[before.0.edges.len() + j] == resolved_edge(ids, e));
    crate::graph::lemma_finalized_edges(ids, resolved);
}

/// Brings the files that the watcher saw change back into the graph `g` (see
/// [`applied_touches`]): each touched file, in order, loses its nodes, and where it is in
/// the change set `changed`, not deleted and a regular file, gets them back from the
/// parser of its extension, or a generic file node. Where that changed anything, the
/// edges are resolved and finalized. Tells whether it changed anything; where it did not,
/// the graph is as it was.
pub fn apply_touched_files(
    g: &mut Graph,
    parsers: &Vec<PluggableParser>,
    changed: &ChangeSet,
    touched: Vec<(String, bool, Option<String>)>,
) -> (r: bool)
    ensures
        (final(g)@, r) == applied_touches(old(g)@, parsers@, changed@, touch_views(touched@)),
        !r ==> final(g)@ == old(g)@,
{
    let ghost g0 = g@;
    let ghost ts = touch_views(touched@);
    let mut any = false;
    let mut i: usize = 0;
    while i < touched.len()
        invariant
            i <= touched.len(),
            ts == touch_views(touched@),
            (g@, any) == touched_graph(g0, parsers@, changed@, ts.take(i as int)),
        decreases touched.len() - i,
    {
        let ghost before = g@;
        let ghost t = ts[i as int];
        assert(ts.take(i + 1).drop_last() =~= ts.take(i as int));
        assert(ts.take(i + 1).last() == t);
        let path = &touched[i].0;
        let is_file = touched[i].1;
        let text = &touched[i].2;
        assert(t.0 == path@ && t.1 == is_file);
        let removed = g.drop_file_nodes(path);
        let ghost dropped = g@;
        assert(dropped.nodes == before.nodes.filter(|n: NodeView| n.file != t.0));
        let back = match touch_status(changed, path, is_file) {
            None => false,
            Some(status) => {
                let ext = extension_of(path.as_str());
                assert(touch_status_of(changed@, t.0, t.1) == Some(status@));
                let mut added = false;
                match select_parser(parsers, ext.as_str()) {
                    Some(k) => match text {
                        Some(content) => {
                            assert(t.2 == Some(content@));
                            let (nodes, edges) = parsers[k].parse_file(path.as_str(), content.as_str());
                            let ghost nv = node_views(nodes@);
                            assert(nv =~= seq![parsed_node(parsers@[k as int], path@, content@)]);
                            added = g.merge_parsed_file(nodes, edges, &status);
                            assert(crate::graph::marked_all(nv, status@) =~= seq![
                                with_status(parsed_node(parsers@[k as int], path@, content@), status@),
                            ]);
                        },
                        None => {},
                    },
                    None => {},
                }
                if !added {
                    let lc = match text {
                        Some(content) => line_count(content.as_str()),
                        None => 0,
                    };
                    g.add_file_node(path, lc, &status);
                }
                true
            },
        };
        proof {
            let step = touch_step(before, parsers@, changed@, t);
            assert(g@.edges == step.0.edges);
            assert(g@.nodes == step.0.nodes);
            assert((removed || back) == step.1);
            assert(touched_graph(g0, parsers@, changed@, ts.take(i + 1)).0 == step.0);
        }
        any = any || removed || back;
        i = i + 1;
    }
    assert(ts.take(i as int) =~= ts);
    proof {
        lemma_untouched_graph(g0, parsers@, changed@, ts);
    }
    if any {
        resolve_graph_edges(g);
        g.finalize();
    }
    any
}

} // verus!
