use sloposcope::changes::ChangeSet;
use sloposcope::jj;
use sloposcope::vcs::{
    detect_engine, get_current_branch, get_current_revision, git_changed_files, git_changes_page,
    git_diff_revs, git_file_diff_arguments, git_wants_untracked, parse_git_branches, parse_git_log,
    retain_graph_paths, should_ignore_graph_path, Change, VCSEngine,
};

fn change(id: &str) -> Change {
    Change { id: id.into(), description: format!("d{}", id), timestamp: "t".into() }
}

fn ids(cs: &[Change]) -> Vec<String> {
    cs.iter().map(|c| c.id.clone()).collect()
}

#[test]
fn test_detect_jj() {
    // A directory holding `.jj` only.
    assert!(matches!(detect_engine(false, true), VCSEngine::JJ));
}

#[test]
fn test_detect_git() {
    // A directory holding `.git` only.
    assert!(matches!(detect_engine(true, false), VCSEngine::Git));
}

#[test]
fn test_detect_none() {
    // An empty directory.
    assert!(matches!(detect_engine(false, false), VCSEngine::NoVcs));
}

#[test]
fn detect_prefers_git_over_jj() {
    assert!(matches!(detect_engine(true, true), VCSEngine::Git));
}

#[test]
fn ignored_graph_paths() {
    assert!(should_ignore_graph_path(""));
    assert!(should_ignore_graph_path("./"));
    assert!(should_ignore_graph_path("node_modules/x/index.js"));
    assert!(should_ignore_graph_path("a/target/b.rs"));
    assert!(should_ignore_graph_path(".\\.git\\config"));
    assert!(should_ignore_graph_path("web/.svelte-kit/x.js"));
    assert!(should_ignore_graph_path("src-tauri/gen/schema.json"));
    assert!(!should_ignore_graph_path("src/targets.rs"));
    assert!(!should_ignore_graph_path("./src/lib.rs"));
    assert!(!should_ignore_graph_path("src-tauri/src/gen.rs"));
}

#[test]
fn retain_graph_paths_keeps_order() {
    let mut c = ChangeSet::new();
    c.insert("src/a.rs".into(), "modified".into());
    c.insert("dist/app.js".into(), "added".into());
    c.insert("lib/b.ex".into(), "deleted".into());
    let r = retain_graph_paths(&c);
    assert_eq!(r.keys(), vec!["src/a.rs".to_string(), "lib/b.ex".to_string()]);
    assert_eq!(r.get(&"lib/b.ex".to_string()), Some(&"deleted".to_string()));
}

#[test]
fn git_log_lines() {
    let out = "abc1234\tFix parser\t2024-05-01 10:20:30 +0200\n\n  \tno id\t\ndef5678\tOnly subject\nfff0000\n";
    let cs = parse_git_log(out);
    assert_eq!(ids(&cs), vec!["abc1234", "def5678", "fff0000"]);
    assert_eq!(cs[0].description, "Fix parser");
    assert_eq!(cs[0].timestamp, "2024-05-01 10:20:30");
    assert_eq!(cs[1].description, "Only subject");
    assert_eq!(cs[1].timestamp, "");
    assert_eq!(cs[2].description, "");
}

#[test]
fn git_pages() {
    let all: Vec<Change> = vec![change("aaa111"), change("bbb222"), change("ccc333"), change("ddd444")];
    let first = git_changes_page(&all, 3, None);
    assert_eq!(ids(&first), vec!["@", "aaa111", "bbb222"]);
    assert_eq!(first[0].description, "(working copy)");
    assert_eq!(first[0].timestamp, "now");
    assert_eq!(ids(&git_changes_page(&all, 2, Some("@".into()))), vec!["aaa111", "bbb222"]);
    assert_eq!(ids(&git_changes_page(&all, 2, Some("bbb".into()))), vec!["ccc333", "ddd444"]);
    assert_eq!(ids(&git_changes_page(&all, 5, Some("ddd444".into()))), Vec::<String>::new());
    assert!(git_changes_page(&all, 5, Some("zzz".into())).is_empty());
    assert!(git_changes_page(&all, 0, None).is_empty());
    assert!(git_changes_page(&Vec::new(), 5, None).is_empty());
}

#[test]
fn git_branch_lines() {
    let bs = parse_git_branches("main\tabc123\n  feature/x \t def456 \nnotab\n\tonlyid\n");
    assert_eq!(bs.len(), 2);
    assert_eq!(bs[0].name, "main");
    assert_eq!(bs[0].id, "abc123");
    assert_eq!(bs[1].name, "feature/x");
    assert_eq!(bs[1].id, "def456");
}

#[test]
fn git_revisions_for_since() {
    assert_eq!(
        git_diff_revs("@ | abc | a..b | HEAD"),
        vec!["HEAD".to_string(), "abc~1..abc".to_string(), "a..b".to_string(), "HEAD".to_string()]
    );
    assert!(git_wants_untracked("abc | @"));
    assert!(git_wants_untracked("HEAD"));
    assert!(!git_wants_untracked("abc"));
}

#[test]
fn git_changed_file_sets() {
    let diffs = vec![
        Some("M\tsrc/a.rs\nA\tsrc/b.rs\nR100\told.rs\tnew.rs\n".to_string()),
        None,
        Some("D\tsrc/a.rs\n".to_string()),
    ];
    let c = git_changed_files("@", &diffs, Some("notes.txt\n\n  extra.md  \n".to_string()));
    assert_eq!(
        c.keys(),
        vec!["src/a.rs".to_string(), "src/b.rs".to_string(), "old.rs".to_string(), "notes.txt".to_string(), "extra.md".to_string()]
    );
    assert_eq!(c.get(&"src/a.rs".to_string()), Some(&"deleted".to_string()));
    assert_eq!(c.get(&"src/b.rs".to_string()), Some(&"added".to_string()));
    assert_eq!(c.get(&"old.rs".to_string()), Some(&"modified".to_string()));
    assert_eq!(c.get(&"extra.md".to_string()), Some(&"added".to_string()));
    let c = git_changed_files("abc", &vec![], Some("notes.txt\n".to_string()));
    assert!(c.is_empty());
}

#[test]
fn git_file_diff_argument_lists() {
    assert_eq!(git_file_diff_arguments("a.rs", None), vec!["--no-pager", "diff", "--", "a.rs"]);
    assert_eq!(
        git_file_diff_arguments("a.rs", Some("abc")),
        vec!["--no-pager", "diff", "abc~1..abc", "--", "a.rs"]
    );
    assert_eq!(
        git_file_diff_arguments("a.rs", Some("@")),
        vec!["--no-pager", "diff", "HEAD", "--", "a.rs"]
    );
}

#[test]
fn branch_and_revision_labels() {
    assert_eq!(get_current_branch(&VCSEngine::JJ, Some("  main, dev \n")), "main, dev");
    assert_eq!(get_current_branch(&VCSEngine::JJ, Some(" \n")), "@");
    assert_eq!(get_current_branch(&VCSEngine::JJ, None), "@");
    assert_eq!(get_current_branch(&VCSEngine::Git, Some("main\n")), "main");
    assert_eq!(get_current_branch(&VCSEngine::Git, None), "HEAD");
    assert_eq!(get_current_branch(&VCSEngine::NoVcs, Some("x")), "");
    assert_eq!(get_current_revision(&VCSEngine::Git, Some("0123abcd\n")), "0123abcd");
    assert_eq!(get_current_revision(&VCSEngine::JJ, None), "");
    assert_eq!(get_current_revision(&VCSEngine::NoVcs, Some("x")), "");
}

#[test]
fn jj_log_output() {
    let out = "abcd1234\tFirst line\t2024-05-01 10:20\\nbeef0000\t\t2024-04-30 09:00\n\nc0ffee00\n   \n";
    let cs = jj::parse_changes(out);
    assert_eq!(ids(&cs), vec!["abcd1234", "beef0000", "c0ffee00"]);
    assert_eq!(cs[0].description, "First line");
    assert_eq!(cs[0].timestamp, "2024-05-01 10:20");
    assert_eq!(cs[1].description, "");
    assert_eq!(cs[2].description, "(working copy)");
    assert_eq!(cs[2].timestamp, "");
}

#[test]
fn jj_pages() {
    let all: Vec<Change> = vec![change("a1"), change("b2"), change("c3"), change("d4"), change("e5")];
    assert_eq!(ids(&jj::changes(&all, 2, None)), vec!["a1", "b2"]);
    assert_eq!(ids(&jj::changes(&all, 2, Some(String::new()))), vec!["a1", "b2"]);
    assert_eq!(ids(&jj::changes(&all, 2, Some("b2".into()))), vec!["c3", "d4"]);
    assert_eq!(ids(&jj::changes(&all, 9, Some("d".into()))), vec!["e5"]);
    assert!(jj::changes(&all, 2, Some("zz".into())).is_empty());
    assert_eq!(jj::history_revset(), "(ancestors(@) ~ root())");
}

#[test]
fn jj_pages_continue_after_a_short_page() {
    let all: Vec<Change> = vec![change("a1"), change("b2"), change("c3")];
    let first = jj::changes(&all, 5, None);
    assert_eq!(ids(&first), vec!["a1", "b2", "c3"]);
    let next = jj::changes(&all, 5, Some(first.last().unwrap().id.clone()));
    assert!(next.is_empty());
    let full = jj::changes(&all, 2, None);
    let rest = jj::changes(&all, 2, Some(full.last().unwrap().id.clone()));
    let mut joined = ids(&full);
    joined.extend(ids(&rest));
    assert_eq!(joined, vec!["a1", "b2", "c3"]);
}

#[test]
fn jj_bookmark_lines() {
    let bs = jj::bookmarks("main: qpvuntsm 0123abcdef Fix\nfeature (deleted): abcdefghijk\nno colon here\n : x\n");
    assert_eq!(bs.len(), 2);
    assert_eq!(bs[0].name, "main");
    assert_eq!(bs[0].id, "qpvuntsm");
    assert_eq!(bs[1].name, "feature");
    assert_eq!(bs[1].id, "abcdefgh");
}

#[test]
fn jj_changed_file_sets() {
    let summary = "M src/a.rs\nA docs/new file.md\nR x.rs\nD gone.rs\nbad\n";
    let status = "Working copy changes:\nU scratch.txt\nM src/a.rs\n";
    let c = jj::changed_files("@", Some(summary), Some(status));
    assert_eq!(
        c.keys(),
        vec!["src/a.rs".to_string(), "docs/new file.md".to_string(), "gone.rs".to_string(), "scratch.txt".to_string()]
    );
    assert_eq!(c.get(&"gone.rs".to_string()), Some(&"deleted".to_string()));
    assert_eq!(c.get(&"scratch.txt".to_string()), Some(&"added".to_string()));
    let c = jj::changed_files("abc", Some(summary), Some(status));
    assert_eq!(c.len(), 3);
    assert!(jj::changed_files("root()", Some(summary), None).is_empty());
    assert!(jj::changed_files("zzzzzzzz", Some(summary), None).is_empty());
    assert!(jj::names_root("00000000"));
    assert!(!jj::names_root("@"));
    assert!(jj::lists_untracked("@"));
    assert!(!jj::lists_untracked("abc"));
}

#[test]
fn jj_diff_arguments() {
    assert_eq!(jj::diff_summary_args("@"), vec!["--no-pager", "diff", "--summary", "-r", "@"]);
    assert_eq!(
        jj::file_diff_args("a.rs", None),
        Some(vec!["--no-pager".to_string(), "diff".to_string(), "--git".to_string(), "--".to_string(), "a.rs".to_string()])
    );
    assert_eq!(
        jj::file_diff_args("a.rs", Some("abc")),
        Some(vec![
            "--no-pager".to_string(), "diff".to_string(), "--git".to_string(), "-r".to_string(),
            "abc".to_string(), "--".to_string(), "a.rs".to_string()
        ])
    );
    assert_eq!(jj::file_diff_args("a.rs", Some("root()")), None);
    assert_eq!(jj::diff_text(Some("\n diff --git a b \n\n")), "diff --git a b");
    assert_eq!(jj::diff_text(None), "");
}
