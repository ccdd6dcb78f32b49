use vstd::prelude::*;

use streaming_iterator::StreamingIterator;

use crate::graph::{Edge, EdgeView, Func, FuncView, Node, NodeView, edge_views, func_views};
use crate::text::{
    chars_of, contains_str, eq_chars, lemma_contains_within, lemma_unquote_within, line_count, lines,
    string_of, unquote, unquote_chars,
};

verus! {

/// A tree-sitter grammar.
#[verifier::external_type_specification]
#[verifier::external_body]
pub struct ExLanguage(tree_sitter::Language);

/// A tree-sitter syntax tree.
#[verifier::external_type_specification]
#[verifier::external_body]
pub struct ExTree(tree_sitter::Tree);

/// A compiled tree-sitter query.
#[verifier::external_type_specification]
#[verifier::external_body]
pub struct ExQuery(tree_sitter::Query);

/// One capture of a query match, as plain values: the capture's name and the source
/// text of the captured node (`None` where that text is not valid UTF-8).
pub struct Capture {
    pub name: String,
    pub text: Option<String>,
}

/// The content of a [`Capture`].
pub struct CaptureView {
    pub name: Seq<char>,
    pub text: Option<Seq<char>>,
}

impl View for Capture {
    type V = CaptureView;

    open spec fn view(&self) -> CaptureView {
        CaptureView {
            name: self.name@,
            text: match self.text {
                Some(t) => Some(t@),
                None => None,
            },
        }
    }
}

pub open spec fn capture_views(cs: Seq<Capture>) -> Seq<CaptureView> {
    cs.map_values(|c: Capture| c@)
}

pub open spec fn match_views(ms: Seq<Vec<Capture>>) -> Seq<Seq<CaptureView>> {
    ms.map_values(|m: Vec<Capture>| capture_views(m@))
}

/// Every capture text of the matches `ms` that is present is a contiguous part of
/// `content`.
pub open spec fn texts_in(ms: Seq<Seq<CaptureView>>, content: Seq<char>) -> bool {
    forall|i: int, j: int|
        0 <= i < ms.len() && 0 <= j < ms[i].len() && (#[trigger] ms[i][j]).text is Some
            ==> contains_str(content, ms[i][j].text->0)
}

// ---------------------------------------------------------------------------
// The grammars.
// ---------------------------------------------------------------------------

/// The tree-sitter grammars that the parsers use.
#[derive(Clone, Copy, Debug, PartialEq, Eq, Structural)]
pub enum Grammar {
    Elixir,
    Ruby,
    JavaScript,
    Python,
    Rust,
    Go,
    Java,
    Cpp,
    Php,
    CSharp,
    Clojure,
    Kotlin,
}

/// `tree_sitter_elixir::LANGUAGE` loaded with `tree_sitter::Language::new`: the Elixir grammar,
/// labelled [`Grammar::Elixir`]. Of the language itself nothing is stated: it is opaque here.
#[verifier::external_body]
fn elixir_grammar() -> (r: LoadedGrammar)
    ensures
        r.grammar == Grammar::Elixir,
{
    LoadedGrammar {
        grammar: Grammar::Elixir,
        language: tree_sitter::Language::new(tree_sitter_elixir::LANGUAGE),
    }
}

/// `tree_sitter_ruby::LANGUAGE` loaded with `tree_sitter::Language::new`: the Ruby grammar,
/// labelled [`Grammar::Ruby`]. Of the language itself nothing is stated: it is opaque here.
#[verifier::external_body]
fn ruby_grammar() -> (r: LoadedGrammar)
    ensures
        r.grammar == Grammar::Ruby,
{
    LoadedGrammar {
        grammar: Grammar::Ruby,
        language: tree_sitter::Language::new(tree_sitter_ruby::LANGUAGE),
    }
}

/// `tree_sitter_javascript::LANGUAGE` loaded with `tree_sitter::Language::new`: the JavaScript grammar,
/// labelled [`Grammar::JavaScript`]. Of the language itself nothing is stated: it is opaque here.
#[verifier::external_body]
fn javascript_grammar() -> (r: LoadedGrammar)
    ensures
        r.grammar == Grammar::JavaScript,
{
    LoadedGrammar {
        grammar: Grammar::JavaScript,
        language: tree_sitter::Language::new(tree_sitter_javascript::LANGUAGE),
    }
}

/// `tree_sitter_python::LANGUAGE` loaded with `tree_sitter::Language::new`: the Python grammar,
/// labelled [`Grammar::Python`]. Of the language itself nothing is stated: it is opaque here.
#[verifier::external_body]
fn python_grammar() -> (r: LoadedGrammar)
    ensures
        r.grammar == Grammar::Python,
{
    LoadedGrammar {
        grammar: Grammar::Python,
        language: tree_sitter::Language::new(tree_sitter_python::LANGUAGE),
    }
}

/// `tree_sitter_rust::LANGUAGE` loaded with `tree_sitter::Language::new`: the Rust grammar,
/// labelled [`Grammar::Rust`]. Of the language itself nothing is stated: it is opaque here.
#[verifier::external_body]
fn rust_grammar() -> (r: LoadedGrammar)
    ensures
        r.grammar == Grammar::Rust,
{
    LoadedGrammar {
        grammar: Grammar::Rust,
        language: tree_sitter::Language::new(tree_sitter_rust::LANGUAGE),
    }
}

/// `tree_sitter_go::LANGUAGE` loaded with `tree_sitter::Language::new`: the Go grammar,
/// labelled [`Grammar::Go`]. Of the language itself nothing is stated: it is opaque here.
#[verifier::external_body]
fn go_grammar() -> (r: LoadedGrammar)
    ensures
        r.grammar == Grammar::Go,
{
    LoadedGrammar {
        grammar: Grammar::Go,
        language: tree_sitter::Language::new(tree_sitter_go::LANGUAGE),
    }
}

/// `tree_sitter_java::LANGUAGE` loaded with `tree_sitter::Language::new`: the Java grammar,
/// labelled [`Grammar::Java`]. Of the language itself nothing is stated: it is opaque here.
#[verifier::external_body]
fn java_grammar() -> (r: LoadedGrammar)
    ensures
        r.grammar == Grammar::Java,
{
    LoadedGrammar {
        grammar: Grammar::Java,
        language: tree_sitter::Language::new(tree_sitter_java::LANGUAGE),
    }
}

/// `tree_sitter_cpp::LANGUAGE` loaded with `tree_sitter::Language::new`: the C++ grammar,
/// labelled [`Grammar::Cpp`]. Of the language itself nothing is stated: it is opaque here.
#[verifier::external_body]
fn cpp_grammar() -> (r: LoadedGrammar)
    ensures
        r.grammar == Grammar::Cpp,
{
    LoadedGrammar {
        grammar: Grammar::Cpp,
        language: tree_sitter::Language::new(tree_sitter_cpp::LANGUAGE),
    }
}

/// `tree_sitter_php::LANGUAGE_PHP` loaded with `tree_sitter::Language::new`: the PHP grammar,
/// labelled [`Grammar::Php`]. Of the language itself nothing is stated: it is opaque here.
#[verifier::external_body]
fn php_grammar() -> (r: LoadedGrammar)
    ensures
        r.grammar == Grammar::Php,
{
    LoadedGrammar {
        grammar: Grammar::Php,
        language: tree_sitter::Language::new(tree_sitter_php::LANGUAGE_PHP),
    }
}

/// `tree_sitter_c_sharp::LANGUAGE` loaded with `tree_sitter::Language::new`: the C# grammar,
/// labelled [`Grammar::CSharp`]. Of the language itself nothing is stated: it is opaque here.
#[verifier::external_body]
fn c_sharp_grammar() -> (r: LoadedGrammar)
    ensures
        r.grammar == Grammar::CSharp,
{
    LoadedGrammar {
        grammar: Grammar::CSharp,
        language: tree_sitter::Language::new(tree_sitter_c_sharp::LANGUAGE),
    }
}

/// `tree_sitter_clojure::LANGUAGE` loaded with `tree_sitter::Language::new`: the Clojure grammar,
/// labelled [`Grammar::Clojure`]. Of the language itself nothing is stated: it is opaque here.
#[verifier::external_body]
fn clojure_grammar() -> (r: LoadedGrammar)
    ensures
        r.grammar == Grammar::Clojure,
{
    LoadedGrammar {
        grammar: Grammar::Clojure,
        language: tree_sitter::Language::new(tree_sitter_clojure::LANGUAGE),
    }
}

/// `tree_sitter_kotlin_ng::LANGUAGE` loaded with `tree_sitter::Language::new`: the Kotlin grammar,
/// labelled [`Grammar::Kotlin`]. Of the language itself nothing is stated: it is opaque here.
#[verifier::external_body]
fn kotlin_grammar() -> (r: LoadedGrammar)
    ensures
        r.grammar == Grammar::Kotlin,
{
    LoadedGrammar {
        grammar: Grammar::Kotlin,
        language: tree_sitter::Language::new(tree_sitter_kotlin_ng::LANGUAGE),
    }
}

/// A loaded grammar, with the id of the grammar it is. Only the grammar wrappers above
/// make one, each with its own id.
struct LoadedGrammar {
    grammar: Grammar,
    language: tree_sitter::Language,
}

/// The grammar `grammar`, loaded.
fn load_grammar(grammar: Grammar) -> (r: LoadedGrammar)
    ensures
        r.grammar == grammar,
{
    match grammar {
        Grammar::Elixir => elixir_grammar(),
        Grammar::Ruby => ruby_grammar(),
        Grammar::JavaScript => javascript_grammar(),
        Grammar::Python => python_grammar(),
        Grammar::Rust => rust_grammar(),
        Grammar::Go => go_grammar(),
        Grammar::Java => java_grammar(),
        Grammar::Cpp => cpp_grammar(),
        Grammar::Php => php_grammar(),
        Grammar::CSharp => c_sharp_grammar(),
        Grammar::Clojure => clojure_grammar(),
        Grammar::Kotlin => kotlin_grammar(),
    }
}

// ---------------------------------------------------------------------------
// Parsing and querying.
// ---------------------------------------------------------------------------

/// A syntax tree, with the grammar and the text that it was parsed from.
struct ParsedText<'a> {
    grammar: Grammar,
    tree: tree_sitter::Tree,
    text: &'a str,
}

/// `tree_sitter::Parser::set_language` then `Parser::parse`: the syntax tree of `content`
/// in the loaded grammar, kept with both. Stated: there is a tree. Every grammar that
/// [`load_grammar`] loads has ABI version 14 or 15, which `set_language` accepts
/// (`MIN_COMPATIBLE_LANGUAGE_VERSION` 13 to `LANGUAGE_VERSION` 15), and `parse` gives no
/// tree only without a language or after a timeout or cancellation, neither of which is
/// set here. Of the tree itself nothing is stated.
#[verifier::external_body]
fn parse_tree<'a>(loaded: &LoadedGrammar, content: &'a str) -> (r: Option<
    ParsedText<'a>,
>)
    ensures
        r is Some,
        r.unwrap().grammar == loaded.grammar,
        r.unwrap().text@ == content@,
{
    let mut parser = tree_sitter::Parser::new();
    parser.set_language(&loaded.language).ok();
    parser.parse(content, None).map(|tree| ParsedText { grammar: loaded.grammar, tree, text: content })
}

/// Whether the query source `source` compiles for the grammar `grammar`
/// (`tree_sitter::Query::new` succeeds).
pub uninterp spec fn query_compiles(grammar: Grammar, source: Seq<char>) -> bool;

/// A compiled query, with its grammar and its source.
struct CompiledQuery<'q> {
    grammar: Grammar,
    source: &'q str,
    query: tree_sitter::Query,
}

/// `tree_sitter::Query::new`: the query `source` compiled for the loaded grammar, or
/// `None` where it does not compile; which of the two is named by [`query_compiles`].
#[verifier::external_body]
fn compile_query<'q>(loaded: &LoadedGrammar, source: &'q str) -> (r: Option<CompiledQuery<'q>>)
    ensures
        r is Some == query_compiles(loaded.grammar, source@),
        r matches Some(q) ==> q.grammar == loaded.grammar && q.source@ == source@,
{
    tree_sitter::Query::new(&loaded.language, source).ok().map(
        |query| CompiledQuery { grammar: loaded.grammar, source, query },
    )
}

/// The matches of the query `query` on the syntax tree of `content` in the grammar
/// `grammar` (`tree_sitter::QueryCursor::matches` over the whole tree): each match as its
/// captures, in order, by capture name and captured text.
pub uninterp spec fn tree_sitter_matches(
    grammar: Grammar,
    query: Seq<char>,
    content: Seq<char>,
) -> Seq<Seq<CaptureView>>;

/// `tree_sitter::QueryCursor::matches` on the whole tree of `parsed`: every match, in the
/// order found, each as its captures named by the query's capture names, with the text of
/// each captured node (`Node::utf8_text`, a slice of the parsed text at the node's byte
/// range; none where that slice is not valid UTF-8). The result is named by
/// [`tree_sitter_matches`] over the grammar, the query's source and the parsed text, on
/// which alone it depends; stated besides: each text present is a contiguous part of the
/// parsed text.
#[verifier::external_body]
fn query_matches(query: &CompiledQuery, parsed: &ParsedText) -> (r: Vec<Vec<Capture>>)
    requires
        query.grammar == parsed.grammar,
    ensures
        match_views(r@) == tree_sitter_matches(parsed.grammar, query.source@, parsed.text@),
        texts_in(match_views(r@), parsed.text@),
{
    let (names, bytes) = (query.query.capture_names(), parsed.text.as_bytes());
    let mut cursor = tree_sitter::QueryCursor::new();
    let mut matches = cursor.matches(&query.query, parsed.tree.root_node(), bytes);
    let mut out = Vec::new();
    while let Some(m) = matches.next() {
        out.push(m.captures.iter().map(|c| Capture {
            name: names[c.index as usize].to_string(),
            text: c.node.utf8_text(bytes).ok().map(|t| t.to_string()),
        }).collect());
    }
    out
}

/// The matches that a parser of the grammar `grammar` with the query `query` finds in
/// `content`: those that tree-sitter gives, none where the query does not compile.
pub open spec fn file_matches(grammar: Grammar, query: Seq<char>, content: Seq<char>) -> Seq<
    Seq<CaptureView>,
> {
    if query_compiles(grammar, query) {
        tree_sitter_matches(grammar, query, content)
    } else {
        Seq::empty()
    }
}

// ---------------------------------------------------------------------------
// From query matches to a node and edges.
// ---------------------------------------------------------------------------

/// What one match has said so far: the edge target and kind, the function name and kind.
pub struct MatchState {
    pub target: Option<Seq<char>>,
    pub edge_kind: Seq<char>,
    pub func_name: Option<Seq<char>>,
    pub func_kind: Seq<char>,
}

/// `st` after the capture `c`: a capture with text, unquoted, sets the function name
/// (`func.name`), the function kind (`func.kind`), the edge target (`edge.target`) or the
/// edge kind (`edge.kind`); other captures change nothing.
pub open spec fn capture_step(st: MatchState, c: CaptureView) -> MatchState {
    match c.text {
        Some(t) => {
            let v = unquote(t);
            if c.name == "func.name"@ {
                MatchState { func_name: Some(v), ..st }
            } else if c.name == "func.kind"@ {
                MatchState { func_kind: v, ..st }
            } else if c.name == "edge.target"@ {
                MatchState { target: Some(v), ..st }
            } else if c.name == "edge.kind"@ {
                MatchState { edge_kind: v, ..st }
            } else {
                st
            }
        },
        None => st,
    }
}

/// What the captures `caps` of one match say, starting from no target, the default edge
/// kind, no function and the function kind `def`.
pub open spec fn match_state(caps: Seq<CaptureView>, edge_kind: Seq<char>) -> MatchState
    decreases caps.len(),
{
    if caps.len() == 0 {
        MatchState { target: None, edge_kind, func_name: None, func_kind: "def"@ }
    } else {
        capture_step(match_state(caps.drop_last(), edge_kind), caps.last())
    }
}

/// The node label after the capture `c`: the first `node.name` capture with text sets it
/// while it is still the file path.
pub open spec fn label_step(label: Seq<char>, path: Seq<char>, c: CaptureView) -> Seq<char> {
    match c.text {
        Some(t) => if c.name == "node.name"@ && label == path {
            unquote(t)
        } else {
            label
        },
        None => label,
    }
}

pub open spec fn label_in_match(caps: Seq<CaptureView>, start: Seq<char>, path: Seq<char>) -> Seq<
    char,
>
    decreases caps.len(),
{
    if caps.len() == 0 {
        start
    } else {
        label_step(label_in_match(caps.drop_last(), start, path), path, caps.last())
    }
}

/// The node label after all the matches `ms`, starting from the file path.
pub open spec fn file_label(ms: Seq<Seq<CaptureView>>, path: Seq<char>) -> Seq<char>
    decreases ms.len(),
{
    if ms.len() == 0 {
        path
    } else {
        label_in_match(ms.last(), file_label(ms.drop_last(), path), path)
    }
}

/// The edges of the matches `ms`: one from the file for each match that names a target.
pub open spec fn file_edges(ms: Seq<Seq<CaptureView>>, path: Seq<char>, edge_kind: Seq<char>) -> Seq<
    EdgeView,
>
    decreases ms.len(),
{
    if ms.len() == 0 {
        Seq::empty()
    } else {
        let rest = file_edges(ms.drop_last(), path, edge_kind);
        let st = match_state(ms.last(), edge_kind);
        match st.target {
            Some(t) => rest.push(EdgeView { source: path, target: t, kind: st.edge_kind }),
            None => rest,
        }
    }
}

/// The functions of the matches `ms`: one for each match that names a function.
pub open spec fn file_functions(ms: Seq<Seq<CaptureView>>, edge_kind: Seq<char>) -> Seq<FuncView>
    decreases ms.len(),
{
    if ms.len() == 0 {
        Seq::empty()
    } else {
        let rest = file_functions(ms.drop_last(), edge_kind);
        let st = match_state(ms.last(), edge_kind);
        match st.func_name {
            Some(n) => rest.push(FuncView { name: n, arity: 0, kind: st.func_kind }),
            None => rest,
        }
    }
}

/// The node of the file `path` with the text `content`, given the query matches `ms`.
pub open spec fn file_node_of(
    path: Seq<char>,
    content: Seq<char>,
    node_kind: Seq<char>,
    edge_kind: Seq<char>,
    ms: Seq<Seq<CaptureView>>,
) -> NodeView {
    NodeView {
        id: path,
        label: file_label(ms, path),
        kind: node_kind,
        file: path,
        line_count: lines(content).len(),
        change_status: "unchanged"@,
        functions: file_functions(ms, edge_kind),
    }
}

/// Every capture text of `caps` that is present is a contiguous part of `content`.
pub open spec fn capture_texts_in(caps: Seq<CaptureView>, content: Seq<char>) -> bool {
    forall|j: int|
        0 <= j < caps.len() && (#[trigger] caps[j]).text is Some ==> contains_str(
            content,
            caps[j].text->0,
        )
}

proof fn lemma_unquoted_in_text(t: Seq<char>, content: Seq<char>)
    requires
        contains_str(content, t),
    ensures
        contains_str(content, unquote(t)),
{
    lemma_unquote_within(t);
    lemma_contains_within(content, t, unquote(t));
}

proof fn lemma_match_state_in_text(caps: Seq<CaptureView>, edge_kind: Seq<char>, content: Seq<char>)
    requires
        capture_texts_in(caps, content),
    ensures
        match_state(caps, edge_kind).target matches Some(t) ==> contains_str(content, t),
        match_state(caps, edge_kind).func_name matches Some(n) ==> contains_str(content, n),
    decreases caps.len(),
{
    if caps.len() > 0 {
        let init = caps.drop_last();
        assert forall|j: int| 0 <= j < init.len() && (#[trigger] init[j]).text is Some implies contains_str(
            content,
            init[j].text->0,
        ) by {
            assert(init[j] == caps[j]);
        }
        lemma_match_state_in_text(init, edge_kind, content);
        let c = caps.last();
        assert(c == caps[caps.len() - 1]);
        if c.text is Some {
            lemma_unquoted_in_text(c.text->0, content);
        }
    }
}

proof fn lemma_label_in_text(
    caps: Seq<CaptureView>,
    start: Seq<char>,
    path: Seq<char>,
    content: Seq<char>,
)
    requires
        capture_texts_in(caps, content),
        start == path || contains_str(content, start),
    ensures
        label_in_match(caps, start, path) == path || contains_str(
            content,
            label_in_match(caps, start, path),
        ),
    decreases caps.len(),
{
    if caps.len() > 0 {
        let init = caps.drop_last();
        assert forall|j: int| 0 <= j < init.len() && (#[trigger] init[j]).text is Some implies contains_str(
            content,
            init[j].text->0,
        ) by {
            assert(init[j] == caps[j]);
        }
        lemma_label_in_text(init, start, path, content);
        let c = caps.last();
        assert(c == caps[caps.len() - 1]);
        if c.text is Some {
            lemma_unquoted_in_text(c.text->0, content);
        }
    }
}

/// A parser names only what the file says: when every capture text is a part of the
/// file's text, so is every function name and every edge target that the matches give,
/// and so is the node label unless it is the file path.
pub proof fn lemma_parsed_names_in_text(
    ms: Seq<Seq<CaptureView>>,
    path: Seq<char>,
    content: Seq<char>,
    edge_kind: Seq<char>,
)
    requires
        texts_in(ms, content),
    ensures
        forall|k: int|
            0 <= k < file_functions(ms, edge_kind).len() ==> contains_str(
                content,
                (#[trigger] file_functions(ms, edge_kind)[k]).name,
            ),
        forall|k: int|
            0 <= k < file_edges(ms, path, edge_kind).len() ==> contains_str(
                content,
                (#[trigger] file_edges(ms, path, edge_kind)[k]).target,
            ),
        file_label(ms, path) == path || contains_str(content, file_label(ms, path)),
    decreases ms.len(),
{
    if ms.len() > 0 {
        let init = ms.drop_last();
        assert forall|i: int, j: int|
            0 <= i < init.len() && 0 <= j < init[i].len() && (#[trigger] init[i][j]).text is Some
                implies contains_str(content, init[i][j].text->0) by {
            assert(init[i] == ms[i]);
            assert(ms[i][j] == init[i][j]);
        }
        lemma_parsed_names_in_text(init, path, content, edge_kind);
        let last = ms.last();
        assert forall|j: int| 0 <= j < last.len() && (#[trigger] last[j]).text is Some implies contains_str(
            content,
            last[j].text->0,
        ) by {
            assert(ms[ms.len() - 1][j] == last[j]);
        }
        lemma_match_state_in_text(last, edge_kind, content);
        lemma_label_in_text(last, file_label(init, path), path, content);
        let fs = file_functions(ms, edge_kind);
        let fs0 = file_functions(init, edge_kind);
        assert forall|k: int| 0 <= k < fs.len() implies contains_str(content, (#[trigger] fs[k]).name) by {
            if k < fs0.len() {
                assert(fs[k] == fs0[k]);
            }
        }
        let es = file_edges(ms, path, edge_kind);
        let es0 = file_edges(init, path, edge_kind);
        assert forall|k: int| 0 <= k < es.len() implies contains_str(content, (#[trigger] es[k]).target) by {
            if k < es0.len() {
                assert(es[k] == es0[k]);
            }
        }
    }
}

/// Within one match, the last `edge.target` capture with text decides the edge's target:
/// its text, unquoted, whatever earlier captures of the match said; and the match then
/// gives the file one more edge, from the file to that target.
pub proof fn lemma_last_edge_target_wins(
    ms: Seq<Seq<CaptureView>>,
    caps: Seq<CaptureView>,
    c: CaptureView,
    t: Seq<char>,
    path: Seq<char>,
    edge_kind: Seq<char>,
)
    requires
        c.name == "edge.target"@,
        c.text == Some(t),
    ensures
        match_state(caps.push(c), edge_kind).target == Some(unquote(t)),
        file_edges(ms.push(caps.push(c)), path, edge_kind).len() == file_edges(
            ms,
            path,
            edge_kind,
        ).len() + 1,
        file_edges(ms.push(caps.push(c)), path, edge_kind).last().source == path,
        file_edges(ms.push(caps.push(c)), path, edge_kind).last().target == unquote(t),
{
    lemma_capture_names_distinct();
    assert(caps.push(c).drop_last() =~= caps);
    assert(ms.push(caps.push(c)).drop_last() =~= ms);
}

proof fn lemma_capture_names_distinct()
    ensures
        "node.name"@ != "func.name"@,
        "node.name"@ != "func.kind"@,
        "node.name"@ != "edge.target"@,
        "node.name"@ != "edge.kind"@,
        "func.name"@ != "func.kind"@,
        "func.name"@ != "edge.target"@,
        "func.name"@ != "edge.kind"@,
        "func.kind"@ != "edge.target"@,
        "func.kind"@ != "edge.kind"@,
        "edge.target"@ != "edge.kind"@,
{
    reveal_strlit("node.name");
    reveal_strlit("func.name");
    reveal_strlit("func.kind");
    reveal_strlit("edge.target");
    reveal_strlit("edge.kind");
    assert("node.name"@[0] != "func.name"@[0]);
    assert("node.name"@[0] != "func.kind"@[0]);
    assert("node.name"@[0] != "edge.target"@[0]);
    assert("node.name"@[0] != "edge.kind"@[0]);
    assert("func.name"@[5] != "func.kind"@[5]);
    assert("func.name"@[0] != "edge.target"@[0]);
    assert("func.name"@[0] != "edge.kind"@[0]);
    assert("func.kind"@[0] != "edge.target"@[0]);
    assert("func.kind"@[0] != "edge.kind"@[0]);
    assert("edge.target"@[5] != "edge.kind"@[5]);
}

/// The state of an executing match.
struct MatchScan {
    target: Option<Vec<char>>,
    edge_kind: Vec<char>,
    func_name: Option<Vec<char>>,
    func_kind: Vec<char>,
}

spec fn scan_view(s: MatchScan) -> MatchState {
    MatchState {
        target: match s.target {
            Some(t) => Some(t@),
            None => None,
        },
        edge_kind: s.edge_kind@,
        func_name: match s.func_name {
            Some(n) => Some(n@),
            None => None,
        },
        func_kind: s.func_kind@,
    }
}

/// The node and the edges that the query matches `matches` give for the file `path`
/// with the text `content` (see [`file_node_of`] and [`file_edges`]).
pub fn assemble_file(
    path: &str,
    content: &str,
    node_kind: &str,
    edge_kind: &str,
    matches: &Vec<Vec<Capture>>,
) -> (r: (Node, Vec<Edge>))
    ensures
        r.0@ == file_node_of(path@, content@, node_kind@, edge_kind@, match_views(matches@)),
        edge_views(r.1@) == file_edges(match_views(matches@), path@, edge_kind@),
{
    let ghost ms = match_views(matches@);
    let p = chars_of(path);
    let ek = chars_of(edge_kind);
    let n_func_name = chars_of("func.name");
    let n_func_kind = chars_of("func.kind");
    let n_edge_target = chars_of("edge.target");
    let n_edge_kind = chars_of("edge.kind");
    let n_node_name = chars_of("node.name");
    let mut label = chars_of(path);
    let mut functions: Vec<Func> = Vec::new();
    let mut edges: Vec<Edge> = Vec::new();
    let mut i: usize = 0;
    while i < matches.len()
        invariant
            i <= matches.len(),
            ms == match_views(matches@),
            p@ == path@,
            ek@ == edge_kind@,
            n_func_name@ == "func.name"@,
            n_func_kind@ == "func.kind"@,
            n_edge_target@ == "edge.target"@,
            n_edge_kind@ == "edge.kind"@,
            n_node_name@ == "node.name"@,
            label@ == file_label(ms.take(i as int), path@),
            func_views(functions@) == file_functions(ms.take(i as int), edge_kind@),
            edge_views(edges@) == file_edges(ms.take(i as int), path@, edge_kind@),
        decreases matches.len() - i,
    {
        let caps = &matches[i];
        let ghost cv = capture_views(caps@);
        assert(ms[i as int] == cv);
        let ghost label0 = label@;
        let mut st = MatchScan {
            target: None,
            edge_kind: chars_of(edge_kind),
            func_name: None,
            func_kind: chars_of("def"),
        };
        let mut j: usize = 0;
        while j < caps.len()
            invariant
                j <= caps.len(),
                cv == capture_views(caps@),
                p@ == path@,
                n_func_name@ == "func.name"@,
                n_func_kind@ == "func.kind"@,
                n_edge_target@ == "edge.target"@,
                n_edge_kind@ == "edge.kind"@,
                n_node_name@ == "node.name"@,
                label@ == label_in_match(cv.take(j as int), label0, path@),
                scan_view(st) == match_state(cv.take(j as int), edge_kind@),
            decreases caps.len() - j,
        {
            assert(cv.take(j + 1).drop_last() =~= cv.take(j as int));
            assert(cv.take(j + 1).last() == cv[j as int]);
            let c = &caps[j];
            proof {
                reveal_strlit("node.name");
                reveal_strlit("func.name");
                reveal_strlit("func.kind");
                reveal_strlit("edge.target");
                reveal_strlit("edge.kind");
                lemma_capture_names_distinct();
            }
            assert(cv[j as int] == c@);
            let ghost st0 = scan_view(st);
            match &c.text {
                Some(t) => {
                    assert(c@.text == Some(t@));
                    let name = chars_of(c.name.as_str());
                    let v = unquote_chars(&chars_of(t.as_str()));
                    if eq_chars(&name, &n_node_name) && eq_chars(&label, &p) {
                        label = v;
                    } else if eq_chars(&name, &n_func_name) {
                        st.func_name = Some(v);
                    } else if eq_chars(&name, &n_func_kind) {
                        st.func_kind = v;
                    } else if eq_chars(&name, &n_edge_target) {
                        st.target = Some(v);
                    } else if eq_chars(&name, &n_edge_kind) {
                        st.edge_kind = v;
                    }
                    assert(scan_view(st) == capture_step(st0, c@));
                },
                None => {},
            }
            j = j + 1;
        }
        assert(cv.take(j as int) =~= cv);
        assert(ms.take(i + 1).drop_last() =~= ms.take(i as int));
        assert(ms.take(i + 1).last() == cv);
        match st.target {
            Some(t) => {
                let ghost before = edge_views(edges@);
                let e = Edge { source: string_of(&p), target: string_of(&t), kind: string_of(&st.edge_kind) };
                let ghost evw = e@;
                edges.push(e);
                assert(edge_views(edges@) =~= before.push(evw));
            },
            None => {},
        }
        match st.func_name {
            Some(n) => {
                let ghost before = func_views(functions@);
                let f = Func { name: string_of(&n), arity: 0, kind: string_of(&st.func_kind) };
                let ghost fv = f@;
                functions.push(f);
                assert(func_views(functions@) =~= before.push(fv));
            },
            None => {},
        }
        i = i + 1;
    }
    assert(ms.take(i as int) =~= ms);
    let line_count = line_count(content);
    let node = Node {
        id: string_of(&p),
        label: string_of(&label),
        kind: node_kind.to_owned(),
        file: string_of(&p),
        line_count,
        change_status: "unchanged".to_owned(),
        functions,
    };
    (node, edges)
}

/// Every language parser implements this trait.
pub trait Parser: Send + Sync {
    /// The file extensions this parser reads.
    fn extensions(&self) -> Vec<&'static str>;

    /// The nodes and edges of the file `relative_path` with the text `content`.
    fn parse_file(&self, relative_path: &str, content: &str) -> (
        Vec<Node>,
        Vec<Edge>,
    );
}

/// A generic parser that uses tree-sitter queries to extract nodes and edges.
pub struct PluggableParser {
    pub extensions: Vec<&'static str>,
    pub grammar: Grammar,
    pub queries: &'static str,
    pub default_node_kind: &'static str,
    pub default_edge_kind: &'static str,
}

impl Parser for PluggableParser {
    fn extensions(&self) -> (r: Vec<&'static str>)
        ensures
            r@ == self.extensions@,
    {
        let mut r: Vec<&'static str> = Vec::new();
        let mut i: usize = 0;
        while i < self.extensions.len()
            invariant
                i <= self.extensions.len(),
                r@ == self.extensions@.take(i as int),
            decreases self.extensions.len() - i,
        {
            r.push(self.extensions[i]);
            i = i + 1;
            assert(r@ =~= self.extensions@.take(i as int));
        }
        assert(self.extensions@.take(i as int) =~= self.extensions@);
        r
    }

    /// One node for the file, named after the first `node.name` capture (or the path), with
    /// the functions and edges that the query's matches in the file name (see
    /// [`file_matches`]). A query that does not compile finds no matches.
    fn parse_file(&self, relative_path: &str, content: &str) -> (r: (
        Vec<Node>,
        Vec<Edge>,
    ))
        ensures
            r.0@.len() == 1,
            r.0@[0]@ == file_node_of(
                relative_path@,
                content@,
                self.default_node_kind@,
                self.default_edge_kind@,
                file_matches(self.grammar, self.queries@, content@),
            ),
            edge_views(r.1@) == file_edges(
                file_matches(self.grammar, self.queries@, content@),
                relative_path@,
                self.default_edge_kind@,
            ),
            texts_in(file_matches(self.grammar, self.queries@, content@), content@),
    {
        let loaded = load_grammar(self.grammar);
        let parsed = match parse_tree(&loaded, content) {
            Some(t) => t,
            None => return (Vec::new(), Vec::new()),
        };
        let matches = match compile_query(&loaded, self.queries) {
            Some(q) => query_matches(&q, &parsed),
            None => Vec::new(),
        };
        assert(texts_in(match_views(matches@), content@));
        let (node, edges) = assemble_file(
            relative_path,
            content,
            self.default_node_kind,
            self.default_edge_kind,
            &matches,
        );
        let mut nodes: Vec<Node> = Vec::new();
        nodes.push(node);
        (nodes, edges)
    }
}

/// Whether `exts` lists the extension `ext`.
fn lists_extension(exts: &Vec<&'static str>, ext: &str) -> (r: bool)
    ensures
        r == exts@.map_values(|e: &str| e@).contains(ext@),
{
    let ghost ev = exts@.map_values(|e: &str| e@);
    let target = chars_of(ext);
    let mut i: usize = 0;
    while i < exts.len()
        invariant
            i <= exts.len(),
            ev == exts@.map_values(|e: &str| e@),
            target@ == ext@,
            forall|j: int| 0 <= j < i ==> ev[j] != ext@,
        decreases exts.len() - i,
    {
        if eq_chars(&chars_of(exts[i]), &target) {
            assert(ev[i as int] == ext@);
            return true;
        }
        i = i + 1;
    }
    false
}

/// The extensions of each parser, as plain values.
pub open spec fn parser_extensions(ps: Seq<PluggableParser>) -> Seq<Seq<Seq<char>>> {
    ps.map_values(|p: PluggableParser| p.extensions@.map_values(|e: &str| e@))
}

/// The first parser whose extensions include `ext`.
pub open spec fn first_parser_for(exts: Seq<Seq<Seq<char>>>, ext: Seq<char>) -> Option<int>
    decreases exts.len(),
{
    if exts.len() == 0 {
        None
    } else if exts[0].contains(ext) {
        Some(0)
    } else {
        match first_parser_for(exts.drop_first(), ext) {
            Some(k) => Some(k + 1),
            None => None,
        }
    }
}

/// The position of the first parser that reads files with the extension `ext`
/// (see [`first_parser_for`]).
pub fn select_parser(parsers: &Vec<PluggableParser>, ext: &str) -> (r: Option<usize>)
    ensures
        match r {
            Some(k) => k < parsers.len() && first_parser_for(parser_extensions(parsers@), ext@)
                == Some(k as int),
            None => first_parser_for(parser_extensions(parsers@), ext@) is None,
        },
{
    let ghost exts = parser_extensions(parsers@);
    let mut i: usize = 0;
    assert(exts.skip(0) =~= exts);
    while i < parsers.len()
        invariant
            i <= parsers.len(),
            exts == parser_extensions(parsers@),
            first_parser_for(exts, ext@) == crate::vcs::shift(
                first_parser_for(exts.skip(i as int), ext@),
                i as int,
            ),
        decreases parsers.len() - i,
    {
        assert(exts.skip(i as int)[0] == parsers@[i as int].extensions@.map_values(|e: &str| e@));
        if lists_extension(&parsers[i].extensions, ext) {
            return Some(i);
        }
        assert(exts.skip(i as int).drop_first() =~= exts.skip(i + 1));
        i = i + 1;
    }
    None
}

} // verus!
