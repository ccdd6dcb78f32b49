use vstd::prelude::*;

use crate::parser::{Grammar, PluggableParser};

verus! {

// ---------------------------------------------------------------------------
// The queries of each language.
// ---------------------------------------------------------------------------

/// The query that the Elixir parser runs.
pub const ELIXIR_QUERIES: &'static str = r#"
                (call target: (identifier) @kw (#eq? @kw "defmodule") (arguments (alias) @node.name))
                (call target: (identifier) @func.kind (#match? @func.kind "^(def|defp)$") (arguments [(identifier) @func.name (call target: (identifier) @func.name)]))
                (dot (alias) @edge.target (identifier))
                (call target: (identifier) @edge.kind (#match? @edge.kind "^(use|import|alias)$") (arguments (alias) @edge.target))
            "#;

/// The query that the Ruby parser runs.
pub const RUBY_QUERIES: &'static str = r#"
                (module name: [(constant) @node.name (scope_resolution) @node.name])
                (class name: [(constant) @node.name (scope_resolution) @node.name])
                (method name: (identifier) @func.name)
                (call receiver: [(constant) @edge.target (scope_resolution) @edge.target])
            "#;

/// The query that the JavaScript and TypeScript parser runs.
pub const JAVASCRIPT_QUERIES: &'static str = r#"
                (import_statement (import_clause (named_imports (import_specifier name: (identifier) @edge.target))) source: (string (string_fragment) @edge.target))
                (import_statement (import_clause (identifier) @edge.target) source: (string (string_fragment) @edge.target))
                (function_declaration name: (identifier) @func.name)
            "#;

/// The query that the Svelte parser runs.
pub const SVELTE_QUERIES: &'static str = r#"
                (import_statement source: (string (string_fragment) @edge.target))
                (import_statement (import_clause) source: (string (string_fragment) @edge.target))
            "#;

/// The query that the Python parser runs.
pub const PYTHON_QUERIES: &'static str = r#"
                (class_definition name: (identifier) @node.name)
                (function_definition name: (identifier) @func.name)
                (import_from_statement module: (dotted_name) @edge.target)
                (import_statement name: (dotted_name) @edge.target)
            "#;

/// The query that the Rust parser runs.
pub const RUST_QUERIES: &'static str = r#"
                (struct_item name: (type_identifier) @node.name)
                (enum_item name: (type_identifier) @node.name)
                (function_item name: (identifier) @func.name)
                (mod_item name: (identifier) @node.name)
                (use_declaration argument: [(scoped_identifier) @edge.target (identifier) @edge.target])
            "#;

/// The query that the Go parser runs.
pub const GO_QUERIES: &'static str = r#"
                (package_clause (package_identifier) @node.name)
                (function_declaration name: (identifier) @func.name)
                (method_declaration name: (field_identifier) @func.name)
                (import_spec path: (string_literal) @edge.target)
            "#;

/// The query that the Java parser runs.
pub const JAVA_QUERIES: &'static str = r#"
                (class_declaration name: (identifier) @node.name)
                (interface_declaration name: (identifier) @node.name)
                (method_declaration name: (identifier) @func.name)
                (import_declaration (scoped_identifier) @edge.target)
            "#;

/// The query that the C and C++ parser runs.
pub const CPP_QUERIES: &'static str = r#"
                (class_specifier name: (type_identifier) @node.name)
                (function_definition declarator: (function_declarator declarator: (identifier) @func.name))
                (preproc_include path: [(string_literal) @edge.target (system_lib_string) @edge.target])
            "#;

/// The query that the PHP parser runs.
pub const PHP_QUERIES: &'static str = r#"
                (class_declaration name: (identifier) @node.name)
                (method_declaration name: (identifier) @func.name)
                (namespace_use_declaration (namespace_use_clause (qualified_name) @edge.target))
            "#;

/// The query that the C# parser runs.
pub const C_SHARP_QUERIES: &'static str = r#"
                (class_declaration name: (identifier) @node.name)
                (method_declaration name: (identifier) @func.name)
                (using_directive (identifier) @edge.target)
            "#;

/// The query that the Clojure parser runs.
pub const CLOJURE_QUERIES: &'static str = r#"
                (list_lit (symbol) @ns_kw (#eq? @ns_kw "ns") (symbol) @node.name)
                (list_lit (symbol) @defn_kw (#match? @defn_kw "^defn-?$") (symbol) @func.name)
                (list_lit (keyword) @req_kw (#eq? @req_kw ":require") (list_lit (symbol) @edge.target))
            "#;

/// The query that the Kotlin parser runs.
pub const KOTLIN_QUERIES: &'static str = r#"
                (package_header (identifier) @node.name)
                (class_declaration (type_identifier) @node.name)
                (function_declaration (identifier) @func.name)
                (import_header (identifier) @edge.target)
            "#;

// ---------------------------------------------------------------------------
// The table of parsers.
// ---------------------------------------------------------------------------

/// What a parser is configured with: its extensions, its grammar, the kinds of its nodes
/// and edges, and its query.
pub struct ParserSettings {
    pub extensions: Seq<Seq<char>>,
    pub grammar: Grammar,
    pub node_kind: Seq<char>,
    pub edge_kind: Seq<char>,
    pub queries: Seq<char>,
}

/// The settings of the parser `p`.
pub open spec fn settings_of(p: PluggableParser) -> ParserSettings {
    ParserSettings {
        extensions: p.extensions@.map_values(|e: &str| e@),
        grammar: p.grammar,
        node_kind: p.default_node_kind@,
        edge_kind: p.default_edge_kind@,
        queries: p.queries@,
    }
}

/// The supported languages, in the order in which a file's extension is looked up.
pub open spec fn supported_languages() -> Seq<ParserSettings> {
    seq![
        ParserSettings {
            extensions: seq!["ex"@, "exs"@],
            grammar: Grammar::Elixir,
            node_kind: "module"@,
            edge_kind: "call"@,
            queries: ELIXIR_QUERIES@,
        },
        ParserSettings {
            extensions: seq!["rb"@, "rake"@],
            grammar: Grammar::Ruby,
            node_kind: "class"@,
            edge_kind: "call"@,
            queries: RUBY_QUERIES@,
        },
        ParserSettings {
            extensions: seq!["js"@, "ts"@, "jsx"@, "tsx"@],
            grammar: Grammar::JavaScript,
            node_kind: "lib"@,
            edge_kind: "import"@,
            queries: JAVASCRIPT_QUERIES@,
        },
        ParserSettings {
            extensions: seq!["svelte"@],
            grammar: Grammar::JavaScript,
            node_kind: "component"@,
            edge_kind: "import"@,
            queries: SVELTE_QUERIES@,
        },
        ParserSettings {
            extensions: seq!["py"@],
            grammar: Grammar::Python,
            node_kind: "module"@,
            edge_kind: "import"@,
            queries: PYTHON_QUERIES@,
        },
        ParserSettings {
            extensions: seq!["rs"@],
            grammar: Grammar::Rust,
            node_kind: "module"@,
            edge_kind: "use"@,
            queries: RUST_QUERIES@,
        },
        ParserSettings {
            extensions: seq!["go"@],
            grammar: Grammar::Go,
            node_kind: "package"@,
            edge_kind: "import"@,
            queries: GO_QUERIES@,
        },
        ParserSettings {
            extensions: seq!["java"@],
            grammar: Grammar::Java,
            node_kind: "class"@,
            edge_kind: "import"@,
            queries: JAVA_QUERIES@,
        },
        ParserSettings {
            extensions: seq!["cpp"@, "hpp"@, "cc"@, "h"@],
            grammar: Grammar::Cpp,
            node_kind: "module"@,
            edge_kind: "include"@,
            queries: CPP_QUERIES@,
        },
        ParserSettings {
            extensions: seq!["php"@],
            grammar: Grammar::Php,
            node_kind: "class"@,
            edge_kind: "use"@,
            queries: PHP_QUERIES@,
        },
        ParserSettings {
            extensions: seq!["cs"@],
            grammar: Grammar::CSharp,
            node_kind: "class"@,
            edge_kind: "using"@,
            queries: C_SHARP_QUERIES@,
        },
        ParserSettings {
            extensions: seq!["clj"@, "cljs"@, "cljc"@, "edn"@],
            grammar: Grammar::Clojure,
            node_kind: "namespace"@,
            edge_kind: "require"@,
            queries: CLOJURE_QUERIES@,
        },
        ParserSettings {
            extensions: seq!["kt"@, "kts"@],
            grammar: Grammar::Kotlin,
            node_kind: "class"@,
            edge_kind: "import"@,
            queries: KOTLIN_QUERIES@,
        },
    ]
}

/// One parser for each supported language (see [`supported_languages`]).
pub fn default_parsers() -> (r: Vec<PluggableParser>)
    ensures
        r@.map_values(|p: PluggableParser| settings_of(p)) == supported_languages(),
{
    let r = vec![
        PluggableParser {
            extensions: vec!["ex", "exs"],
            grammar: Grammar::Elixir,
            queries: ELIXIR_QUERIES,
            default_node_kind: "module",
            default_edge_kind: "call",
        },
        PluggableParser {
            extensions: vec!["rb", "rake"],
            grammar: Grammar::Ruby,
            queries: RUBY_QUERIES,
            default_node_kind: "class",
            default_edge_kind: "call",
        },
        PluggableParser {
            extensions: vec!["js", "ts", "jsx", "tsx"],
            grammar: Grammar::JavaScript,
            queries: JAVASCRIPT_QUERIES,
            default_node_kind: "lib",
            default_edge_kind: "import",
        },
        PluggableParser {
            extensions: vec!["svelte"],
            grammar: Grammar::JavaScript,
            queries: SVELTE_QUERIES,
            default_node_kind: "component",
            default_edge_kind: "import",
        },
        PluggableParser {
            extensions: vec!["py"],
            grammar: Grammar::Python,
            queries: PYTHON_QUERIES,
            default_node_kind: "module",
            default_edge_kind: "import",
        },
        PluggableParser {
            extensions: vec!["rs"],
            grammar: Grammar::Rust,
            queries: RUST_QUERIES,
            default_node_kind: "module",
            default_edge_kind: "use",
        },
        PluggableParser {
            extensions: vec!["go"],
            grammar: Grammar::Go,
            queries: GO_QUERIES,
            default_node_kind: "package",
            default_edge_kind: "import",
        },
        PluggableParser {
            extensions: vec!["java"],
            grammar: Grammar::Java,
            queries: JAVA_QUERIES,
            default_node_kind: "class",
            default_edge_kind: "import",
        },
        PluggableParser {
            extensions: vec!["cpp", "hpp", "cc", "h"],
            grammar: Grammar::Cpp,
            queries: CPP_QUERIES,
            default_node_kind: "module",
            default_edge_kind: "include",
        },
        PluggableParser {
            extensions: vec!["php"],
            grammar: Grammar::Php,
            queries: PHP_QUERIES,
            default_node_kind: "class",
            default_edge_kind: "use",
        },
        PluggableParser {
            extensions: vec!["cs"],
            grammar: Grammar::CSharp,
            queries: C_SHARP_QUERIES,
            default_node_kind: "class",
            default_edge_kind: "using",
        },
        PluggableParser {
            extensions: vec!["clj", "cljs", "cljc", "edn"],
            grammar: Grammar::Clojure,
            queries: CLOJURE_QUERIES,
            default_node_kind: "namespace",
            default_edge_kind: "require",
        },
        PluggableParser {
            extensions: vec!["kt", "kts"],
            grammar: Grammar::Kotlin,
            queries: KOTLIN_QUERIES,
            default_node_kind: "class",
            default_edge_kind: "import",
        },
    ];
    proof {
        assert(r@[0].extensions@.map_values(|e: &str| e@) =~= seq!["ex"@, "exs"@]);
        assert(r@[1].extensions@.map_values(|e: &str| e@) =~= seq!["rb"@, "rake"@]);
        assert(r@[2].extensions@.map_values(|e: &str| e@) =~= seq!["js"@, "ts"@, "jsx"@, "tsx"@]);
        assert(r@[3].extensions@.map_values(|e: &str| e@) =~= seq!["svelte"@]);
        assert(r@[4].extensions@.map_values(|e: &str| e@) =~= seq!["py"@]);
        assert(r@[5].extensions@.map_values(|e: &str| e@) =~= seq!["rs"@]);
        assert(r@[6].extensions@.map_values(|e: &str| e@) =~= seq!["go"@]);
        assert(r@[7].extensions@.map_values(|e: &str| e@) =~= seq!["java"@]);
        assert(r@[8].extensions@.map_values(|e: &str| e@) =~= seq!["cpp"@, "hpp"@, "cc"@, "h"@]);
        assert(r@[9].extensions@.map_values(|e: &str| e@) =~= seq!["php"@]);
        assert(r@[10].extensions@.map_values(|e: &str| e@) =~= seq!["cs"@]);
        assert(r@[11].extensions@.map_values(|e: &str| e@) =~= seq!["clj"@, "cljs"@, "cljc"@, "edn"@]);
        assert(r@[12].extensions@.map_values(|e: &str| e@) =~= seq!["kt"@, "kts"@]);
        assert(r@.map_values(|p: PluggableParser| settings_of(p)) =~= supported_languages());
    }
    r
}

} // verus!
