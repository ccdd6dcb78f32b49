use vstd::prelude::*;

use crate::changes::{ChangeSet, EntriesView, lookup, entry_keys, distinct_keys, lemma_lookup_some};
use crate::text::{
    chars_of, eq_chars, string_of, replace, strip_prefixes, ends_with, contains_str, split,
    replace_chars, strip_prefixes_chars, ends_with_chars, contains_chars, split_chars,
    lemma_split_nonempty,
};

verus! {

/// A function signature extracted from a node.
pub struct Func {
    pub name: String,
    pub arity: usize,
    pub kind: String,
}

/// A node is a named unit of code: a module, a component, a file.
/// What counts as a node is up to the language parser.
pub struct Node {
    pub id: String,
    pub label: String,
    pub kind: String,
    pub file: String,
    pub line_count: usize,
    pub change_status: String,
    pub functions: Vec<Func>,
}

/// An edge captures a relationship: this node references that node.
pub struct Edge {
    pub source: String,
    pub target: String,
    pub kind: String,
}

/// The whole graph, as handed to the front end.
pub struct Graph {
    pub nodes: Vec<Node>,
    pub edges: Vec<Edge>,
}

/// The content of a [`Func`].
pub struct FuncView {
    pub name: Seq<char>,
    pub arity: nat,
    pub kind: Seq<char>,
}

/// The content of a [`Node`].
pub struct NodeView {
    pub id: Seq<char>,
    pub label: Seq<char>,
    pub kind: Seq<char>,
    pub file: Seq<char>,
    pub line_count: nat,
    pub change_status: Seq<char>,
    pub functions: Seq<FuncView>,
}

/// The content of an [`Edge`].
pub struct EdgeView {
    pub source: Seq<char>,
    pub target: Seq<char>,
    pub kind: Seq<char>,
}

/// The content of a [`Graph`].
pub struct GraphView {
    pub nodes: Seq<NodeView>,
    pub edges: Seq<EdgeView>,
}

impl View for Func {
    type V = FuncView;

    open spec fn view(&self) -> FuncView {
        FuncView { name: self.name@, arity: self.arity as nat, kind: self.kind@ }
    }
}

pub open spec fn func_views(fs: Seq<Func>) -> Seq<FuncView> {
    fs.map_values(|f: Func| f@)
}

impl View for Node {
    type V = NodeView;

    open spec fn view(&self) -> NodeView {
        NodeView {
            id: self.id@,
            label: self.label@,
            kind: self.kind@,
            file: self.file@,
            line_count: self.line_count as nat,
            change_status: self.change_status@,
            functions: func_views(self.functions@),
        }
    }
}

pub open spec fn node_views(ns: Seq<Node>) -> Seq<NodeView> {
    ns.map_values(|n: Node| n@)
}

impl View for Edge {
    type V = EdgeView;

    open spec fn view(&self) -> EdgeView {
        EdgeView { source: self.source@, target: self.target@, kind: self.kind@ }
    }
}

pub open spec fn edge_views(es: Seq<Edge>) -> Seq<EdgeView> {
    es.map_values(|e: Edge| e@)
}

impl View for Graph {
    type V = GraphView;

    open spec fn view(&self) -> GraphView {
        GraphView { nodes: node_views(self.nodes@), edges: edge_views(self.edges@) }
    }
}

/// The ids of `nodes`, in order.
pub open spec fn node_ids(nodes: Seq<NodeView>) -> Seq<Seq<char>> {
    nodes.map_values(|n: NodeView| n.id)
}

/// An edge that `finalize` keeps: no self-loop, both ends are nodes.
pub open spec fn edge_is_sound(ids: Seq<Seq<char>>, e: EdgeView) -> bool {
    e.source != e.target && ids.contains(e.source) && ids.contains(e.target)
}

/// The edges that `finalize` keeps, in order: the sound edges of `edges`,
/// each one only where it occurs first.
pub open spec fn finalized_edges(ids: Seq<Seq<char>>, edges: Seq<EdgeView>) -> Seq<EdgeView>
    decreases edges.len(),
{
    if edges.len() == 0 {
        Seq::empty()
    } else {
        let kept = finalized_edges(ids, edges.drop_last());
        let e = edges.last();
        if edge_is_sound(ids, e) && !kept.contains(e) {
            kept.push(e)
        } else {
            kept
        }
    }
}


/// The files of `nodes`, in order.
pub open spec fn node_files(nodes: Seq<NodeView>) -> Seq<Seq<char>> {
    nodes.map_values(|n: NodeView| n.file)
}

/// `n` marked with the change status `status`.
pub open spec fn with_status(n: NodeView, status: Seq<char>) -> NodeView {
    NodeView { change_status: status, ..n }
}

/// The nodes of `nodes` whose file has an entry in `changed`, in order, each marked with
/// its file's status.
pub open spec fn marked_changed_nodes(nodes: Seq<NodeView>, changed: EntriesView) -> Seq<NodeView>
    decreases nodes.len(),
{
    if nodes.len() == 0 {
        Seq::empty()
    } else {
        let rest = marked_changed_nodes(nodes.drop_last(), changed);
        let n = nodes.last();
        match lookup(changed, n.file) {
            Some(status) => rest.push(with_status(n, status)),
            None => rest,
        }
    }
}

/// The generic node that stands for a changed file no parser described.
pub open spec fn file_node(file: Seq<char>, status: Seq<char>) -> NodeView {
    NodeView {
        id: file,
        label: file,
        kind: seq!['f', 'i', 'l', 'e'],
        file: file,
        line_count: 0,
        change_status: status,
        functions: Seq::empty(),
    }
}

/// The status of a deleted file.
pub open spec fn deleted_status() -> Seq<char> {
    seq!['d', 'e', 'l', 'e', 't', 'e', 'd']
}

/// Generic nodes, in the order of `changed`, for the changed files that are not deleted
/// and that no node of `nodes` belongs to.
pub open spec fn fallback_nodes(nodes: Seq<NodeView>, changed: EntriesView) -> Seq<NodeView>
    decreases changed.len(),
{
    if changed.len() == 0 {
        Seq::empty()
    } else {
        let rest = fallback_nodes(nodes, changed.drop_last());
        let file = changed.last().0;
        let status = changed.last().1;
        if !node_files(nodes).contains(file) && status != deleted_status() {
            rest.push(file_node(file, status))
        } else {
            rest
        }
    }
}

/// The edges of `edges` whose two ends are in `ids`, in order.
pub open spec fn edges_between(ids: Seq<Seq<char>>, edges: Seq<EdgeView>) -> Seq<EdgeView>
    decreases edges.len(),
{
    if edges.len() == 0 {
        Seq::empty()
    } else {
        let rest = edges_between(ids, edges.drop_last());
        let e = edges.last();
        if ids.contains(e.source) && ids.contains(e.target) {
            rest.push(e)
        } else {
            rest
        }
    }
}

/// The graph `g` restricted to the files of `changed` (see [`Graph::filter_to_changes`]).
pub open spec fn filtered_graph(g: GraphView, changed: EntriesView) -> GraphView {
    let nodes = marked_changed_nodes(g.nodes, changed) + fallback_nodes(g.nodes, changed);
    GraphView { nodes: nodes, edges: edges_between(node_ids(nodes), g.edges) }
}

impl Func {
    /// A copy of this signature.
    pub fn duplicate(&self) -> (r: Func)
        ensures
            r@ == self@,
    {
        Func { name: self.name.clone(), arity: self.arity, kind: self.kind.clone() }
    }
}

impl Node {
    /// A copy of this node.
    pub fn duplicate(&self) -> (r: Node)
        ensures
            r@ == self@,
    {
        let mut functions: Vec<Func> = Vec::new();
        let mut i: usize = 0;
        while i < self.functions.len()
            invariant
                i <= self.functions.len(),
                func_views(functions@) == func_views(self.functions@).take(i as int),
            decreases self.functions.len() - i,
        {
            let f = self.functions[i].duplicate();
            let ghost before = func_views(functions@);
            functions.push(f);
            assert(func_views(functions@) =~= before.push(self.functions@[i as int]@));
            i = i + 1;
            assert(func_views(functions@) =~= func_views(self.functions@).take(i as int));
        }
        assert(func_views(self.functions@).take(i as int) =~= func_views(self.functions@));
        Node {
            id: self.id.clone(),
            label: self.label.clone(),
            kind: self.kind.clone(),
            file: self.file.clone(),
            line_count: self.line_count,
            change_status: self.change_status.clone(),
            functions,
        }
    }
}

impl Edge {
    /// A copy of this edge.
    pub fn duplicate(&self) -> (r: Edge)
        ensures
            r@ == self@,
    {
        Edge { source: self.source.clone(), target: self.target.clone(), kind: self.kind.clone() }
    }

    /// Whether both edges join the same nodes with the same kind.
    pub fn same_as(&self, other: &Edge) -> (r: bool)
        ensures
            r == (self@ == other@),
    {
        self.source == other.source && self.target == other.target && self.kind == other.kind
    }
}

/// Whether some node of `nodes` has the id `id`.
pub fn has_node_id(nodes: &Vec<Node>, id: &String) -> (r: bool)
    ensures
        r == node_ids(node_views(nodes@)).contains(id@),
{
    let ghost ids = node_ids(node_views(nodes@));
    let mut i: usize = 0;
    while i < nodes.len()
        invariant
            i <= nodes.len(),
            ids == node_ids(node_views(nodes@)),
            forall|j: int| 0 <= j < i ==> ids[j] != id@,
        decreases nodes.len() - i,
    {
        if nodes[i].id == *id {
            assert(ids[i as int] == id@);
            return true;
        }
        i = i + 1;
    }
    false
}

/// Whether `edges` holds an edge equal to `e`.
pub fn has_edge(edges: &Vec<Edge>, e: &Edge) -> (r: bool)
    ensures
        r == edge_views(edges@).contains(e@),
{
    let ghost es = edge_views(edges@);
    let mut i: usize = 0;
    while i < edges.len()
        invariant
            i <= edges.len(),
            es == edge_views(edges@),
            forall|j: int| 0 <= j < i ==> es[j] != e@,
        decreases edges.len() - i,
    {
        if edges[i].same_as(e) {
            assert(es[i as int] == e@);
            return true;
        }
        i = i + 1;
    }
    false
}


/// Whether some node of `nodes` belongs to the file `file`.
pub fn has_node_file(nodes: &Vec<Node>, file: &String) -> (r: bool)
    ensures
        r == node_files(node_views(nodes@)).contains(file@),
{
    let ghost files = node_files(node_views(nodes@));
    let mut i: usize = 0;
    while i < nodes.len()
        invariant
            i <= nodes.len(),
            files == node_files(node_views(nodes@)),
            forall|j: int| 0 <= j < i ==> files[j] != file@,
        decreases nodes.len() - i,
    {
        if nodes[i].file == *file {
            assert(files[i as int] == file@);
            return true;
        }
        i = i + 1;
    }
    false
}

/// Whether `status` is the status of a deleted file.
pub fn is_deleted_status(status: &String) -> (r: bool)
    ensures
        r == (status@ == deleted_status()),
{
    let d = chars_of("deleted");
    proof {
        reveal_strlit("deleted");
    }
    assert(d@ =~= deleted_status());
    eq_chars(&chars_of(status.as_str()), &d)
}

impl Graph {
    /// An empty graph.
    pub fn new() -> (g: Graph)
        ensures
            g@.nodes.len() == 0,
            g@.edges.len() == 0,
    {
        Graph { nodes: Vec::new(), edges: Vec::new() }
    }

    /// Appends `nodes` after the nodes already there.
    pub fn add_nodes(&mut self, nodes: Vec<Node>)
        ensures
            final(self)@.nodes == old(self)@.nodes + node_views(nodes@),
            final(self)@.edges == old(self)@.edges,
    {
        let mut nodes = nodes;
        let ghost added = node_views(nodes@);
        self.nodes.append(&mut nodes);
        assert(node_views(self.nodes@) =~= old(self)@.nodes + added);
    }

    /// Appends `edges` after the edges already there.
    pub fn add_edges(&mut self, edges: Vec<Edge>)
        ensures
            final(self)@.edges == old(self)@.edges + edge_views(edges@),
            final(self)@.nodes == old(self)@.nodes,
    {
        let mut edges = edges;
        let ghost added = edge_views(edges@);
        self.edges.append(&mut edges);
        assert(edge_views(self.edges@) =~= old(self)@.edges + added);
    }

    /// Drops edges that point at nodes we don't have, self-loops, and duplicates.
    /// Call this once after all parsers have contributed.
    pub fn finalize(&mut self)
        ensures
            final(self)@.nodes == old(self)@.nodes,
            final(self)@.edges == finalized_edges(node_ids(old(self)@.nodes), old(self)@.edges),
    {
        let ghost ids = node_ids(self@.nodes);
        let ghost es = self@.edges;
        let mut kept: Vec<Edge> = Vec::new();
        let mut i: usize = 0;
        while i < self.edges.len()
            invariant
                i <= self.edges.len(),
                ids == node_ids(self@.nodes),
                es == self@.edges,
                edge_views(kept@) == finalized_edges(ids, es.take(i as int)),
            decreases self.edges.len() - i,
        {
            let e = &self.edges[i];
            assert(es.take(i + 1).drop_last() =~= es.take(i as int));
            if e.source != e.target && has_node_id(&self.nodes, &e.source) && has_node_id(
                &self.nodes,
                &e.target,
            ) && !has_edge(&kept, e) {
                let ghost before = edge_views(kept@);
                kept.push(e.duplicate());
                assert(edge_views(kept@) =~= before.push(es[i as int]));
            }
            i = i + 1;
        }
        assert(es.take(i as int) =~= es);
        self.edges = kept;
    }

    /// Keeps only the nodes whose file appears in the changed set, marking each with its
    /// change status (added / modified / deleted). A changed file for which no parser
    /// created a node, and which is not deleted, gets a generic file node. Edges whose
    /// ends are no longer both present are dropped. An empty change set clears the graph.
    pub fn filter_to_changes(&mut self, changed: &ChangeSet)
        ensures
            final(self)@ == filtered_graph(old(self)@, changed@),
    {
        let ghost nodes0 = self@.nodes;
        let ghost es = changed@;
        let mut nodes: Vec<Node> = Vec::new();
        let mut i: usize = 0;
        while i < self.nodes.len()
            invariant
                i <= self.nodes.len(),
                nodes0 == self@.nodes,
                es == changed@,
                node_views(nodes@) == marked_changed_nodes(nodes0.take(i as int), es),
            decreases self.nodes.len() - i,
        {
            assert(nodes0.take(i + 1).drop_last() =~= nodes0.take(i as int));
            assert(nodes0.take(i + 1).last() == nodes0[i as int]);
            match changed.get(&self.nodes[i].file) {
                Some(status) => {
                    let mut n = self.nodes[i].duplicate();
                    n.change_status = status.clone();
                    let ghost before = node_views(nodes@);
                    let ghost nv = n@;
                    nodes.push(n);
                    assert(nv == with_status(nodes0[i as int], status@));
                    assert(node_views(nodes@) =~= before.push(nv));
                },
                None => {},
            }
            i = i + 1;
        }
        assert(nodes0.take(i as int) =~= nodes0);
        let ghost marked = node_views(nodes@);
        let mut j: usize = 0;
        while j < changed.len()
            invariant
                j <= changed@.len(),
                nodes0 == self@.nodes,
                es == changed@,
                marked == marked_changed_nodes(nodes0, es),
                node_views(nodes@) == marked + fallback_nodes(nodes0, es.take(j as int)),
            decreases changed@.len() - j,
        {
            assert(es.take(j + 1).drop_last() =~= es.take(j as int));
            assert(es.take(j + 1).last() == es[j as int]);
            let file = changed.key_at(j);
            let status = changed.value_at(j);
            if !has_node_file(&self.nodes, file) && !is_deleted_status(status) {
                let n = Node {
                    id: file.clone(),
                    label: file.clone(),
                    kind: "file".to_owned(),
                    file: file.clone(),
                    line_count: 0,
                    change_status: status.clone(),
                    functions: Vec::new(),
                };
                proof {
                    reveal_strlit("file");
                }
                let ghost before = node_views(nodes@);
                let ghost nv = n@;
                assert(nv.functions =~= Seq::<FuncView>::empty());
                assert(nv.kind =~= seq!['f', 'i', 'l', 'e']);
                assert(nv == file_node(es[j as int].0, es[j as int].1));
                nodes.push(n);
                assert(node_views(nodes@) =~= before.push(nv));
                assert(node_views(nodes@) =~= marked + fallback_nodes(nodes0, es.take(j + 1)));
            }
            j = j + 1;
        }
        assert(es.take(j as int) =~= es);
        let ghost ids = node_ids(node_views(nodes@));
        let ghost edges0 = self@.edges;
        let mut edges: Vec<Edge> = Vec::new();
        let mut k: usize = 0;
        while k < self.edges.len()
            invariant
                k <= self.edges.len(),
                edges0 == self@.edges,
                ids == node_ids(node_views(nodes@)),
                edge_views(edges@) == edges_between(ids, edges0.take(k as int)),
            decreases self.edges.len() - k,
        {
            assert(edges0.take(k + 1).drop_last() =~= edges0.take(k as int));
            assert(edges0.take(k + 1).last() == edges0[k as int]);
            let e = &self.edges[k];
            if has_node_id(&nodes, &e.source) && has_node_id(&nodes, &e.target) {
                let ghost before = edge_views(edges@);
                edges.push(e.duplicate());
                assert(edge_views(edges@) =~= before.push(edges0[k as int]));
            }
            k = k + 1;
        }
        assert(edges0.take(k as int) =~= edges0);
        self.nodes = nodes;
        self.edges = edges;
    }
}

// ---------------------------------------------------------------------------
// Resolving edge targets to node ids.
// ---------------------------------------------------------------------------

/// An edge target as a path: `::` read as `/`, `crate/` dropped, leading `./` dropped.
pub open spec fn normalized_target(t: Seq<char>) -> Seq<char> {
    strip_prefixes(replace(replace(t, "::"@, "/"@), "crate/"@, ""@), "./"@)
}

/// The first test: the id is the normalized target, ends with it, or, read with dots for
/// slashes, contains the target.
pub open spec fn path_matches(id: Seq<char>, t: Seq<char>) -> bool {
    let n = normalized_target(t);
    id == n || ends_with(id, n) || contains_str(replace(id, "/"@, "."@), t)
}

/// The second test: the id up to its first dot contains the target or is contained in it.
pub open spec fn stem_matches(id: Seq<char>, t: Seq<char>) -> bool {
    let stem = split(id, "."@)[0];
    contains_str(stem, t) || contains_str(t, stem)
}

/// The first id of `ids` that passes the first test for `t`.
pub open spec fn first_path_match(ids: Seq<Seq<char>>, t: Seq<char>) -> Option<Seq<char>>
    decreases ids.len(),
{
    if ids.len() == 0 {
        None
    } else if path_matches(ids[0], t) {
        Some(ids[0])
    } else {
        first_path_match(ids.drop_first(), t)
    }
}

/// The first id of `ids` that passes the second test for `t`.
pub open spec fn first_stem_match(ids: Seq<Seq<char>>, t: Seq<char>) -> Option<Seq<char>>
    decreases ids.len(),
{
    if ids.len() == 0 {
        None
    } else if stem_matches(ids[0], t) {
        Some(ids[0])
    } else {
        first_stem_match(ids.drop_first(), t)
    }
}

/// The target an edge pointing at `t` gets: `t` itself when it is a node id, else the
/// first id passing the first test, else the first passing the second, else `t`.
pub open spec fn resolved_target(ids: Seq<Seq<char>>, t: Seq<char>) -> Seq<char> {
    if ids.contains(t) {
        t
    } else {
        match first_path_match(ids, t) {
            Some(id) => id,
            None => match first_stem_match(ids, t) {
                Some(id) => id,
                None => t,
            },
        }
    }
}

/// `e` pointed at its resolved target.
pub open spec fn resolved_edge(ids: Seq<Seq<char>>, e: EdgeView) -> EdgeView {
    EdgeView { target: resolved_target(ids, e.target), ..e }
}

proof fn lemma_first_match_in(ids: Seq<Seq<char>>, t: Seq<char>)
    ensures
        first_path_match(ids, t) matches Some(id) ==> ids.contains(id),
        first_stem_match(ids, t) matches Some(id) ==> ids.contains(id),
    decreases ids.len(),
{
    if ids.len() > 0 {
        lemma_first_match_in(ids.drop_first(), t);
        if let Some(id) = first_path_match(ids.drop_first(), t) {
            let k = choose|k: int| 0 <= k < ids.drop_first().len() && ids.drop_first()[k] == id;
            assert(ids[k + 1] == id);
        }
        if let Some(id) = first_stem_match(ids.drop_first(), t) {
            let k = choose|k: int| 0 <= k < ids.drop_first().len() && ids.drop_first()[k] == id;
            assert(ids[k + 1] == id);
        }
        assert(ids[0] == ids[0]);
    }
}

/// A resolved target is the target itself or the id of a node.
pub proof fn lemma_resolved_target(ids: Seq<Seq<char>>, t: Seq<char>)
    ensures
        resolved_target(ids, t) == t || ids.contains(resolved_target(ids, t)),
        ids.contains(t) ==> resolved_target(ids, t) == t,
{
    lemma_first_match_in(ids, t);
}

proof fn lemma_suffix_match_found(ids: Seq<Seq<char>>, t: Seq<char>, k: int)
    requires
        0 <= k < ids.len(),
        ends_with(ids[k], normalized_target(t)),
    ensures
        first_path_match(ids, t) is Some,
    decreases ids.len(),
{
    if !path_matches(ids[0], t) {
        assert(k != 0);
        assert(ids.drop_first()[k - 1] == ids[k]);
        lemma_suffix_match_found(ids.drop_first(), t, k - 1);
    }
}

/// An edge target whose normalized path (see [`normalized_target`]) ends the id of some
/// node resolves to the id of a node.
pub proof fn lemma_suffix_target_resolves(ids: Seq<Seq<char>>, t: Seq<char>, k: int)
    requires
        0 <= k < ids.len(),
        ends_with(ids[k], normalized_target(t)),
    ensures
        ids.contains(resolved_target(ids, t)),
{
    lemma_first_match_in(ids, t);
    if !ids.contains(t) {
        lemma_suffix_match_found(ids, t, k);
    }
}

/// The first test, on one id.
fn path_matches_exec(id: &String, t: &Vec<char>, norm: &Vec<char>) -> (r: bool)
    requires
        norm@ == normalized_target(t@),
    ensures
        r == path_matches(id@, t@),
{
    let idc = chars_of(id.as_str());
    if eq_chars(&idc, norm) || ends_with_chars(&idc, norm) {
        return true;
    }
    let slash = chars_of("/");
    let dot = chars_of(".");
    proof {
        reveal_strlit("/");
    }
    let dotted = replace_chars(&idc, &slash, &dot);
    contains_chars(&dotted, t)
}

/// The second test, on one id.
fn stem_matches_exec(id: &String, t: &Vec<char>) -> (r: bool)
    ensures
        r == stem_matches(id@, t@),
{
    let idc = chars_of(id.as_str());
    let dot = chars_of(".");
    proof {
        reveal_strlit(".");
    }
    let pieces = split_chars(&idc, &dot);
    proof {
        lemma_split_nonempty(idc@, dot@);
    }
    let stem = &pieces[0];
    contains_chars(stem, t) || contains_chars(t, stem)
}

/// The resolved target of `target` among the ids of `nodes`.
fn resolve_target(nodes: &Vec<Node>, target: &String) -> (r: String)
    ensures
        r@ == resolved_target(node_ids(node_views(nodes@)), target@),
{
    let ghost ids = node_ids(node_views(nodes@));
    if has_node_id(nodes, target) {
        return target.clone();
    }
    let t = chars_of(target.as_str());
    let colons = chars_of("::");
    let slash = chars_of("/");
    let krate = chars_of("crate/");
    let nothing = chars_of("");
    let dot_slash = chars_of("./");
    proof {
        reveal_strlit("::");
        reveal_strlit("crate/");
        reveal_strlit("./");
    }
    let step1 = replace_chars(&t, &colons, &slash);
    let step2 = replace_chars(&step1, &krate, &nothing);
    let norm = strip_prefixes_chars(&step2, &dot_slash);
    let mut i: usize = 0;
    assert(ids.skip(0) =~= ids);
    while i < nodes.len()
        invariant
            i <= nodes.len(),
            ids == node_ids(node_views(nodes@)),
            norm@ == normalized_target(t@),
            t@ == target@,
            !ids.contains(target@),
            first_path_match(ids, t@) == first_path_match(ids.skip(i as int), t@),
        decreases nodes.len() - i,
    {
        assert(ids.skip(i as int)[0] == nodes@[i as int].id@);
        if path_matches_exec(&nodes[i].id, &t, &norm) {
            assert(first_path_match(ids.skip(i as int), t@) == Some(nodes@[i as int].id@));
            assert(!ids.contains(target@));
            assert(resolved_target(ids, target@) == nodes@[i as int].id@);
            return nodes[i].id.clone();
        }
        assert(ids.skip(i as int).drop_first() =~= ids.skip(i + 1));
        i = i + 1;
    }
    let mut j: usize = 0;
    assert(ids.skip(0) =~= ids);
    while j < nodes.len()
        invariant
            j <= nodes.len(),
            ids == node_ids(node_views(nodes@)),
            t@ == target@,
            !ids.contains(target@),
            first_path_match(ids, t@) is None,
            first_stem_match(ids, t@) == first_stem_match(ids.skip(j as int), t@),
        decreases nodes.len() - j,
    {
        assert(ids.skip(j as int)[0] == nodes@[j as int].id@);
        if stem_matches_exec(&nodes[j].id, &t) {
            assert(first_stem_match(ids.skip(j as int), t@) == Some(nodes@[j as int].id@));
            return nodes[j].id.clone();
        }
        assert(ids.skip(j as int).drop_first() =~= ids.skip(j + 1));
        j = j + 1;
    }
    target.clone()
}

/// Points each edge whose target is not a node id at the node it most likely means
/// (see [`resolved_target`]); edges whose target is a node id are left as they are.
pub fn resolve_graph_edges(g: &mut Graph)
    ensures
        final(g)@.nodes == old(g)@.nodes,
        final(g)@.edges == old(g)@.edges.map_values(
            |e: EdgeView| resolved_edge(node_ids(old(g)@.nodes), e),
        ),
{
    let ghost ids = node_ids(g@.nodes);
    let ghost edges0 = g@.edges;
    let mut edges: Vec<Edge> = Vec::new();
    let mut i: usize = 0;
    while i < g.edges.len()
        invariant
            i <= g.edges.len(),
            ids == node_ids(g@.nodes),
            edges0 == g@.edges,
            edge_views(edges@) == edges0.take(i as int).map_values(
                |e: EdgeView| resolved_edge(ids, e),
            ),
        decreases g.edges.len() - i,
    {
        let e = &g.edges[i];
        let target = resolve_target(&g.nodes, &e.target);
        let ne = Edge { source: e.source.clone(), target, kind: e.kind.clone() };
        let ghost before = edge_views(edges@);
        edges.push(ne);
        assert(edge_views(edges@) =~= before.push(resolved_edge(ids, edges0[i as int])));
        i = i + 1;
        assert(edge_views(edges@) =~= edges0.take(i as int).map_values(
            |e: EdgeView| resolved_edge(ids, e),
        ));
    }
    assert(edges0.take(i as int) =~= edges0);
    g.edges = edges;
}

// ---------------------------------------------------------------------------
// Building a graph, and keeping it current as files change.
// ---------------------------------------------------------------------------

/// The nodes and the edges that each parsed file contributed, as plain values.
pub open spec fn contribution_views(cs: Seq<(Vec<Node>, Vec<Edge>)>) -> Seq<
    (Seq<NodeView>, Seq<EdgeView>),
> {
    cs.map_values(|c: (Vec<Node>, Vec<Edge>)| (node_views(c.0@), edge_views(c.1@)))
}

pub open spec fn all_nodes(cs: Seq<(Seq<NodeView>, Seq<EdgeView>)>) -> Seq<NodeView> {
    cs.map_values(|c: (Seq<NodeView>, Seq<EdgeView>)| c.0).flatten()
}

pub open spec fn all_edges(cs: Seq<(Seq<NodeView>, Seq<EdgeView>)>) -> Seq<EdgeView> {
    cs.map_values(|c: (Seq<NodeView>, Seq<EdgeView>)| c.1).flatten()
}

/// The graph built from the contributions `cs` of the parsed files: all their nodes and
/// edges in order, each edge pointed at its resolved target, then finalized, and, where a
/// change set is given, restricted to it.
pub open spec fn built_graph(
    cs: Seq<(Seq<NodeView>, Seq<EdgeView>)>,
    changed: Option<EntriesView>,
) -> GraphView {
    let nodes = all_nodes(cs);
    let ids = node_ids(nodes);
    let resolved = all_edges(cs).map_values(|e: EdgeView| resolved_edge(ids, e));
    let g = GraphView { nodes, edges: finalized_edges(ids, resolved) };
    match changed {
        Some(c) => filtered_graph(g, c),
        None => g,
    }
}

/// The graph built from the contributions of the parsed files (see [`built_graph`]).
pub fn build_graph(contributions: Vec<(Vec<Node>, Vec<Edge>)>, changed: Option<&ChangeSet>) -> (g:
    Graph)
    ensures
        g@ == built_graph(
            contribution_views(contributions@),
            match changed {
                Some(c) => Some(c@),
                None => None,
            },
        ),
{
    let ghost cv = contribution_views(contributions@);
    let mut g = Graph::new();
    assert(g@.nodes =~= all_nodes(cv.take(0)));
    assert(g@.edges =~= all_edges(cv.take(0)));
    for c in it: contributions
        invariant
            cv == contribution_views(it.seq()),
            g@.nodes == all_nodes(cv.take(it.index() as int)),
            g@.edges == all_edges(cv.take(it.index() as int)),
    {
        let ghost k = it.index();
        let ghost pre = cv.take(k as int);
        let ghost next = cv.take(k + 1);
        assert(next =~= pre.push(cv[k as int]));
        proof {
            pre.map_values(|c: (Seq<NodeView>, Seq<EdgeView>)| c.0).lemma_flatten_push(cv[k as int].0);
            pre.map_values(|c: (Seq<NodeView>, Seq<EdgeView>)| c.1).lemma_flatten_push(cv[k as int].1);
            assert(next.map_values(|c: (Seq<NodeView>, Seq<EdgeView>)| c.0) =~= pre.map_values(
                |c: (Seq<NodeView>, Seq<EdgeView>)| c.0,
            ).push(cv[k as int].0));
            assert(next.map_values(|c: (Seq<NodeView>, Seq<EdgeView>)| c.1) =~= pre.map_values(
                |c: (Seq<NodeView>, Seq<EdgeView>)| c.1,
            ).push(cv[k as int].1));
        }
        let (nodes, edges) = c;
        g.add_nodes(nodes);
        g.add_edges(edges);
    }
    assert(cv.take(cv.len() as int) =~= cv);
    resolve_graph_edges(&mut g);
    g.finalize();
    match changed {
        Some(c) => g.filter_to_changes(c),
        None => {},
    }
    g
}

/// Building with a change set is filtering what building without one gives: the edges
/// are resolved and finalized among all the parsed nodes before the graph is restricted
/// to the change set.
pub proof fn lemma_build_then_filter(cs: Seq<(Seq<NodeView>, Seq<EdgeView>)>, changed: EntriesView)
    ensures
        built_graph(cs, Some(changed)) == filtered_graph(built_graph(cs, None), changed),
{
}

/// The generic node for the file `file` of `line_count` lines with the status `status`.
pub open spec fn counted_file_node(file: Seq<char>, status: Seq<char>, line_count: nat) -> NodeView {
    NodeView { line_count, ..file_node(file, status) }
}

/// `n` once its file's status is `status`.
pub open spec fn marked_all(ns: Seq<NodeView>, status: Seq<char>) -> Seq<NodeView> {
    ns.map_values(|n: NodeView| with_status(n, status))
}

impl Graph {
    /// Removes the nodes of the file `file`; tells whether there were any.
    pub fn drop_file_nodes(&mut self, file: &String) -> (removed: bool)
        ensures
            final(self)@.nodes == old(self)@.nodes.filter(|n: NodeView| n.file != file@),
            final(self)@.edges == old(self)@.edges,
            removed == (final(self)@.nodes.len() != old(self)@.nodes.len()),
    {
        let ghost ns = self@.nodes;
        let ghost keep = |n: NodeView| n.file != file@;
        let mut kept: Vec<Node> = Vec::new();
        let mut i: usize = 0;
        while i < self.nodes.len()
            invariant
                i <= self.nodes.len(),
                ns == self@.nodes,
                keep == (|n: NodeView| n.file != file@),
                node_views(kept@) == ns.take(i as int).filter(keep),
            decreases self.nodes.len() - i,
        {
            proof {
                reveal(Seq::filter);
                assert(ns.take(i + 1).drop_last() =~= ns.take(i as int));
                assert(ns.take(i + 1).last() == ns[i as int]);
            }
            if self.nodes[i].file != *file {
                let ghost before = node_views(kept@);
                kept.push(self.nodes[i].duplicate());
                assert(node_views(kept@) =~= before.push(ns[i as int]));
            }
            i = i + 1;
        }
        assert(ns.take(i as int) =~= ns);
        let removed = kept.len() != self.nodes.len();
        self.nodes = kept;
        removed
    }

    /// Adds what a parser found in a changed file, each node marked with the file's
    /// status; tells whether any node was added.
    pub fn merge_parsed_file(&mut self, nodes: Vec<Node>, edges: Vec<Edge>, status: &String) -> (added:
        bool)
        ensures
            final(self)@.nodes == old(self)@.nodes + marked_all(node_views(nodes@), status@),
            final(self)@.edges == old(self)@.edges + edge_views(edges@),
            added == (nodes@.len() > 0),
    {
        let ghost nv = node_views(nodes@);
        let added = nodes.len() > 0;
        let mut marked: Vec<Node> = Vec::new();
        let mut i: usize = 0;
        while i < nodes.len()
            invariant
                i <= nodes.len(),
                nv == node_views(nodes@),
                node_views(marked@) == marked_all(nv, status@).take(i as int),
            decreases nodes.len() - i,
        {
            let mut n = nodes[i].duplicate();
            n.change_status = status.clone();
            let ghost before = node_views(marked@);
            let ghost v = n@;
            marked.push(n);
            assert(node_views(marked@) =~= before.push(v));
            i = i + 1;
            assert(node_views(marked@) =~= marked_all(nv, status@).take(i as int));
        }
        assert(marked_all(nv, status@).take(i as int) =~= marked_all(nv, status@));
        self.add_nodes(marked);
        self.add_edges(edges);
        added
    }

    /// Adds the generic node of a changed file that no parser described.
    pub fn add_file_node(&mut self, file: &String, line_count: usize, status: &String)
        ensures
            final(self)@.nodes == old(self)@.nodes.push(
                counted_file_node(file@, status@, line_count as nat),
            ),
            final(self)@.edges == old(self)@.edges,
    {
        let n = Node {
            id: file.clone(),
            label: file.clone(),
            kind: "file".to_owned(),
            file: file.clone(),
            line_count,
            change_status: status.clone(),
            functions: Vec::new(),
        };
        proof {
            reveal_strlit("file");
        }
        let ghost v = n@;
        assert(v.functions =~= Seq::<FuncView>::empty());
        assert(v.kind =~= seq!['f', 'i', 'l', 'e']);
        assert(v == counted_file_node(file@, status@, line_count as nat));
        let ghost before = self@.nodes;
        self.nodes.push(n);
        assert(self@.nodes =~= before.push(v));
    }
}

/// The status under which a touched file goes back into the graph: its status in the
/// current change set, unless it has none, is deleted, or is not a file on disk.
pub open spec fn touch_status_of(changed: EntriesView, file: Seq<char>, is_file: bool) -> Option<
    Seq<char>,
> {
    match lookup(changed, file) {
        Some(s) => if s == deleted_status() || !is_file {
            None
        } else {
            Some(s)
        },
        None => None,
    }
}

/// The status under which a touched file goes back into the graph (see
/// [`touch_status_of`]).
pub fn touch_status(changed: &ChangeSet, file: &String, is_file: bool) -> (r: Option<String>)
    ensures
        match r {
            Some(s) => touch_status_of(changed@, file@, is_file) == Some(s@),
            None => touch_status_of(changed@, file@, is_file) is None,
        },
{
    match changed.get(file) {
        Some(s) => {
            if is_deleted_status(s) || !is_file {
                None
            } else {
                Some(s.clone())
            }
        },
        None => None,
    }
}

// ---------------------------------------------------------------------------
// Laws of `finalize` and `filter_to_changes`.
// ---------------------------------------------------------------------------

/// After `finalize`, every edge joins two different nodes of the graph and came from the
/// edges given, no edge occurs twice, and every such edge of the input survives.
pub proof fn lemma_finalized_edges(ids: Seq<Seq<char>>, edges: Seq<EdgeView>)
    ensures
        forall|i: int|
            0 <= i < finalized_edges(ids, edges).len() ==> #[trigger] edge_is_sound(
                ids,
                finalized_edges(ids, edges)[i],
            ) && edges.contains(finalized_edges(ids, edges)[i]),
        forall|i: int, j: int|
            0 <= i < j < finalized_edges(ids, edges).len() ==> finalized_edges(ids, edges)[i]
                != finalized_edges(ids, edges)[j],
        forall|e: EdgeView|
            edges.contains(e) && edge_is_sound(ids, e) ==> #[trigger] finalized_edges(
                ids,
                edges,
            ).contains(e),
    decreases edges.len(),
{
    if edges.len() > 0 {
        let init = edges.drop_last();
        lemma_finalized_edges(ids, init);
        let kept = finalized_edges(ids, init);
        let r = finalized_edges(ids, edges);
        assert forall|i: int| 0 <= i < r.len() implies #[trigger] edge_is_sound(ids, r[i])
            && edges.contains(r[i]) by {
            if i < kept.len() {
                assert(edge_is_sound(ids, kept[i]));
                let k = choose|k: int| 0 <= k < init.len() && init[k] == kept[i];
                assert(edges[k] == kept[i]);
            } else {
                assert(edges[edges.len() - 1] == r[i]);
            }
        }
        assert forall|e: EdgeView| edges.contains(e) && edge_is_sound(ids, e) implies #[trigger] r.contains(e) by {
            let k = choose|k: int| 0 <= k < edges.len() && edges[k] == e;
            if k < edges.len() - 1 {
                assert(init[k] == e);
                assert(kept.contains(e));
                let m = choose|m: int| 0 <= m < kept.len() && kept[m] == e;
                assert(r[m] == e);
            } else if kept.contains(e) {
                let m = choose|m: int| 0 <= m < kept.len() && kept[m] == e;
                assert(r[m] == e);
            } else {
                assert(r[r.len() - 1] == e);
            }
        }
    }
}

/// A sequence of sound edges without repetition is left as it is by `finalize`.
pub proof fn lemma_finalized_edges_fixed(ids: Seq<Seq<char>>, edges: Seq<EdgeView>)
    requires
        forall|i: int| 0 <= i < edges.len() ==> #[trigger] edge_is_sound(ids, edges[i]),
        forall|i: int, j: int| 0 <= i < j < edges.len() ==> edges[i] != edges[j],
    ensures
        finalized_edges(ids, edges) == edges,
    decreases edges.len(),
{
    if edges.len() > 0 {
        let init = edges.drop_last();
        assert forall|i: int| 0 <= i < init.len() implies #[trigger] edge_is_sound(ids, init[i]) by {
            assert(edge_is_sound(ids, edges[i]));
        }
        lemma_finalized_edges_fixed(ids, init);
        assert(!init.contains(edges.last())) by {
            if init.contains(edges.last()) {
                let k = choose|k: int| 0 <= k < init.len() && init[k] == edges.last();
                assert(edges[k] == edges[edges.len() - 1]);
            }
        }
        assert(edge_is_sound(ids, edges[edges.len() - 1]));
        assert(init.push(edges.last()) =~= edges);
    }
}

/// Finalizing twice gives what finalizing once gives.
pub proof fn lemma_finalize_idempotent(g: GraphView)
    ensures
        finalized_edges(node_ids(g.nodes), finalized_edges(node_ids(g.nodes), g.edges))
            == finalized_edges(node_ids(g.nodes), g.edges),
{
    let ids = node_ids(g.nodes);
    lemma_finalized_edges(ids, g.edges);
    lemma_finalized_edges_fixed(ids, finalized_edges(ids, g.edges));
}

proof fn lemma_marked_nodes(nodes: Seq<NodeView>, changed: EntriesView)
    ensures
        forall|i: int|
            0 <= i < marked_changed_nodes(nodes, changed).len() ==> lookup(
                changed,
                #[trigger] marked_changed_nodes(nodes, changed)[i].file,
            ) == Some(marked_changed_nodes(nodes, changed)[i].change_status),
        forall|i: int|
            0 <= i < nodes.len() && lookup(changed, #[trigger] nodes[i].file) is Some
                ==> node_files(marked_changed_nodes(nodes, changed)).contains(nodes[i].file),
    decreases nodes.len(),
{
    if nodes.len() > 0 {
        let init = nodes.drop_last();
        lemma_marked_nodes(init, changed);
        let rest = marked_changed_nodes(init, changed);
        let r = marked_changed_nodes(nodes, changed);
        assert forall|i: int|
            0 <= i < nodes.len() && lookup(changed, #[trigger] nodes[i].file) is Some
            implies node_files(r).contains(nodes[i].file) by {
            if i < nodes.len() - 1 {
                assert(init[i] == nodes[i]);
                let k = choose|k: int| 0 <= k < node_files(rest).len() && node_files(rest)[k] == nodes[i].file;
                assert(node_files(r)[k] == nodes[i].file);
            } else {
                assert(node_files(r)[r.len() - 1] == nodes[i].file);
            }
        }
    }
}

proof fn lemma_fallback_nodes(nodes: Seq<NodeView>, changed: EntriesView)
    requires
        distinct_keys(changed),
    ensures
        forall|i: int|
            0 <= i < fallback_nodes(nodes, changed).len() ==> lookup(
                changed,
                #[trigger] fallback_nodes(nodes, changed)[i].file,
            ) == Some(fallback_nodes(nodes, changed)[i].change_status),
        forall|i: int|
            0 <= i < changed.len() && !node_files(nodes).contains(#[trigger] changed[i].0)
                && changed[i].1 != deleted_status() ==> node_files(
                fallback_nodes(nodes, changed),
            ).contains(changed[i].0),
    decreases changed.len(),
{
    if changed.len() > 0 {
        let init = changed.drop_last();
        assert(distinct_keys(init)) by {
            assert forall|a: int, b: int| 0 <= a < b < init.len() implies init[a].0 != init[b].0 by {
                assert(init[a] == changed[a] && init[b] == changed[b]);
            }
        }
        lemma_fallback_nodes(nodes, init);
        lemma_lookup_some(changed, changed.last().0);
        let rest = fallback_nodes(nodes, init);
        let r = fallback_nodes(nodes, changed);
        assert forall|i: int| 0 <= i < r.len() implies lookup(changed, #[trigger] r[i].file)
            == Some(r[i].change_status) by {
            if i < rest.len() {
                lemma_lookup_some(init, rest[i].file);
                let k = choose|k: int| 0 <= k < entry_keys(init).len() && entry_keys(init)[k] == rest[i].file;
                assert(init[k] == changed[k]);
                lemma_lookup_some(changed, rest[i].file);
                assert(lookup(changed, rest[i].file) == Some(changed[k].1));
                assert(lookup(init, rest[i].file) == Some(init[k].1));
            } else {
                assert(r[i] == file_node(changed[changed.len() - 1].0, changed[changed.len() - 1].1));
            }
        }
        assert forall|i: int|
            0 <= i < changed.len() && !node_files(nodes).contains(#[trigger] changed[i].0)
                && changed[i].1 != deleted_status() implies node_files(r).contains(changed[i].0) by {
            if i < changed.len() - 1 {
                assert(init[i] == changed[i]);
                let k = choose|k: int| 0 <= k < node_files(rest).len() && node_files(rest)[k] == changed[i].0;
                assert(node_files(r)[k] == changed[i].0);
            } else {
                assert(node_files(r)[r.len() - 1] == changed[i].0);
            }
        }
    }
}

proof fn lemma_edges_between(ids: Seq<Seq<char>>, edges: Seq<EdgeView>)
    ensures
        forall|i: int|
            0 <= i < edges_between(ids, edges).len() ==> ids.contains(
                #[trigger] edges_between(ids, edges)[i].source,
            ) && ids.contains(edges_between(ids, edges)[i].target),
    decreases edges.len(),
{
    if edges.len() > 0 {
        lemma_edges_between(ids, edges.drop_last());
        let rest = edges_between(ids, edges.drop_last());
        let r = edges_between(ids, edges);
        assert forall|i: int| 0 <= i < r.len() implies ids.contains(#[trigger] r[i].source)
            && ids.contains(r[i].target) by {
            if i < rest.len() {
                assert(r[i] == rest[i]);
            }
        }
    }
}

/// After `filter_to_changes`, every node belongs to a changed file and carries that file's
/// status; every changed file that is not deleted has a node; every edge joins two nodes
/// of the result.
pub proof fn lemma_filter_to_changes(g: GraphView, changed: EntriesView)
    requires
        distinct_keys(changed),
    ensures
        forall|i: int|
            0 <= i < filtered_graph(g, changed).nodes.len() ==> lookup(
                changed,
                #[trigger] filtered_graph(g, changed).nodes[i].file,
            ) == Some(filtered_graph(g, changed).nodes[i].change_status),
        forall|i: int|
            0 <= i < changed.len() && #[trigger] changed[i].1 != deleted_status() ==> node_files(
                filtered_graph(g, changed).nodes,
            ).contains(changed[i].0),
        forall|i: int|
            0 <= i < filtered_graph(g, changed).edges.len() ==> node_ids(
                filtered_graph(g, changed).nodes,
            ).contains(#[trigger] filtered_graph(g, changed).edges[i].source) && node_ids(
                filtered_graph(g, changed).nodes,
            ).contains(filtered_graph(g, changed).edges[i].target),
{
    let marked = marked_changed_nodes(g.nodes, changed);
    let fallback = fallback_nodes(g.nodes, changed);
    let f = filtered_graph(g, changed);
    lemma_marked_nodes(g.nodes, changed);
    lemma_fallback_nodes(g.nodes, changed);
    lemma_edges_between(node_ids(f.nodes), g.edges);
    assert(f.nodes == marked + fallback);
    assert forall|i: int| 0 <= i < f.nodes.len() implies lookup(changed, #[trigger] f.nodes[i].file)
        == Some(f.nodes[i].change_status) by {
        if i < marked.len() {
            assert(f.nodes[i] == marked[i]);
        } else {
            assert(f.nodes[i] == fallback[i - marked.len()]);
        }
    }
    assert forall|i: int| 0 <= i < changed.len() && #[trigger] changed[i].1 != deleted_status()
        implies node_files(f.nodes).contains(changed[i].0) by {
        let file = changed[i].0;
        if node_files(g.nodes).contains(file) {
            let k = choose|k: int| 0 <= k < node_files(g.nodes).len() && node_files(g.nodes)[k] == file;
            lemma_lookup_some(changed, file);
            assert(entry_keys(changed)[i] == file);
            assert(g.nodes[k].file == file);
            assert(node_files(marked).contains(file));
            let m = choose|m: int| 0 <= m < node_files(marked).len() && node_files(marked)[m] == file;
            assert(node_files(f.nodes)[m] == file);
        } else {
            assert(node_files(fallback).contains(file));
            let m = choose|m: int| 0 <= m < node_files(fallback).len() && node_files(fallback)[m] == file;
            assert(node_files(f.nodes)[marked.len() + m] == file);
        }
    }
}

proof fn lemma_marked_empty(nodes: Seq<NodeView>, changed: EntriesView)
    requires
        changed.len() == 0,
    ensures
        marked_changed_nodes(nodes, changed).len() == 0,
    decreases nodes.len(),
{
    if nodes.len() > 0 {
        lemma_marked_empty(nodes.drop_last(), changed);
    }
}

proof fn lemma_edges_between_none(ids: Seq<Seq<char>>, edges: Seq<EdgeView>)
    requires
        ids.len() == 0,
    ensures
        edges_between(ids, edges).len() == 0,
    decreases edges.len(),
{
    if edges.len() > 0 {
        lemma_edges_between_none(ids, edges.drop_last());
    }
}

/// Filtering to an empty change set leaves neither nodes nor edges.
pub proof fn lemma_filter_to_no_changes(g: GraphView, changed: EntriesView)
    requires
        changed.len() == 0,
    ensures
        filtered_graph(g, changed).nodes.len() == 0,
        filtered_graph(g, changed).edges.len() == 0,
{
    lemma_marked_empty(g.nodes, changed);
    let f = filtered_graph(g, changed);
    assert(f.nodes.len() == 0);
    assert(node_ids(f.nodes) =~= Seq::<Seq<char>>::empty());
    lemma_edges_between_none(node_ids(f.nodes), g.edges);
}

proof fn lemma_marked_already(nodes: Seq<NodeView>, changed: EntriesView)
    requires
        forall|i: int|
            0 <= i < nodes.len() ==> lookup(changed, #[trigger] nodes[i].file) == Some(
                nodes[i].change_status,
            ),
    ensures
        marked_changed_nodes(nodes, changed) == nodes,
    decreases nodes.len(),
{
    if nodes.len() > 0 {
        let init = nodes.drop_last();
        assert forall|i: int| 0 <= i < init.len() implies lookup(changed, #[trigger] init[i].file)
            == Some(init[i].change_status) by {
            assert(init[i] == nodes[i]);
        }
        lemma_marked_already(init, changed);
        let n = nodes.last();
        assert(lookup(changed, nodes[nodes.len() - 1].file) == Some(n.change_status));
        assert(with_status(n, n.change_status) == n);
        assert(nodes =~= init.push(n));
    }
}

proof fn lemma_no_fallback(nodes: Seq<NodeView>, changed: EntriesView)
    requires
        forall|i: int|
            0 <= i < changed.len() && #[trigger] changed[i].1 != deleted_status() ==> node_files(
                nodes,
            ).contains(changed[i].0),
    ensures
        fallback_nodes(nodes, changed) == Seq::<NodeView>::empty(),
    decreases changed.len(),
{
    if changed.len() > 0 {
        let init = changed.drop_last();
        assert forall|i: int| 0 <= i < init.len() && #[trigger] init[i].1 != deleted_status()
            implies node_files(nodes).contains(init[i].0) by {
            assert(init[i] == changed[i]);
        }
        lemma_no_fallback(nodes, init);
        assert(changed.last() == changed[changed.len() - 1]);
    }
}

proof fn lemma_edges_between_twice(ids: Seq<Seq<char>>, edges: Seq<EdgeView>)
    ensures
        edges_between(ids, edges_between(ids, edges)) == edges_between(ids, edges),
    decreases edges.len(),
{
    if edges.len() > 0 {
        let init = edges.drop_last();
        lemma_edges_between_twice(ids, init);
        let r = edges_between(ids, edges);
        let e = edges.last();
        if ids.contains(e.source) && ids.contains(e.target) {
            assert(r.drop_last() =~= edges_between(ids, init));
            assert(r.last() == e);
        } else {
            assert(r == edges_between(ids, init));
        }
    }
}

/// Filtering a graph a second time to the same change set changes nothing.
pub proof fn lemma_filter_twice(g: GraphView, changed: EntriesView)
    requires
        distinct_keys(changed),
    ensures
        filtered_graph(filtered_graph(g, changed), changed) == filtered_graph(g, changed),
{
    let f = filtered_graph(g, changed);
    lemma_filter_to_changes(g, changed);
    lemma_marked_already(f.nodes, changed);
    lemma_no_fallback(f.nodes, changed);
    assert(f.nodes + Seq::<NodeView>::empty() =~= f.nodes);
    lemma_edges_between_twice(node_ids(f.nodes), g.edges);
}

/// A graph built without a change set has only edges between two different nodes of it,
/// each edge once; and every node is one that a parser contributed.
pub proof fn lemma_built_graph_sound(cs: Seq<(Seq<NodeView>, Seq<EdgeView>)>)
    ensures
        built_graph(cs, None).nodes == all_nodes(cs),
        forall|i: int|
            0 <= i < built_graph(cs, None).edges.len() ==> #[trigger] edge_is_sound(
                node_ids(built_graph(cs, None).nodes),
                built_graph(cs, None).edges[i],
            ),
        forall|i: int, j: int|
            0 <= i < j < built_graph(cs, None).edges.len() ==> built_graph(cs, None).edges[i]
                != built_graph(cs, None).edges[j],
{
    let nodes = all_nodes(cs);
    let ids = node_ids(nodes);
    let resolved = all_edges(cs).map_values(|e: EdgeView| resolved_edge(ids, e));
    lemma_finalized_edges(ids, resolved);
}

} // verus!
