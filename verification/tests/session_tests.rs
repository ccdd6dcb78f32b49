use sloposcope::changes::ChangeSet;
use sloposcope::session::{
    classify_watch_event, debounce_interval_ms, debug_flag, first_repo_ancestor, fingerprint_skips,
    forward_slashes, is_cache_hit, keep_changed_candidates, newest_modification, no_repository_message,
    parse_u64, plan_refresh, poll_interval_ms, runtime_path, short_rev_label, since_label,
    unreadable_file_text, vcs_meta_path, GraphRequest, RefreshPlan, WatchDecision, WatcherQueue,
    DEFAULT_PAGE_SIZE,
};
use sloposcope::vcs::VCSEngine;

#[test]
fn u64_parsing() {
    assert_eq!(parse_u64("1500"), Some(1500));
    assert_eq!(parse_u64("+7"), Some(7));
    assert_eq!(parse_u64("0"), Some(0));
    assert_eq!(parse_u64("18446744073709551615"), Some(u64::MAX));
    assert_eq!(parse_u64("18446744073709551616"), None);
    assert_eq!(parse_u64("99999999999999999999x"), None);
    assert_eq!(parse_u64(""), None);
    assert_eq!(parse_u64("+"), None);
    assert_eq!(parse_u64("-1"), None);
    assert_eq!(parse_u64(" 5"), None);
    assert_eq!(parse_u64("12a"), None);
}

#[test]
fn interval_settings() {
    assert_eq!(poll_interval_ms(None), 1000);
    assert_eq!(poll_interval_ms(Some("50")), 250);
    assert_eq!(poll_interval_ms(Some("60000")), 10_000);
    assert_eq!(poll_interval_ms(Some("2000")), 2000);
    assert_eq!(poll_interval_ms(Some("soon")), 1000);
    assert_eq!(debounce_interval_ms(None), 450);
    assert_eq!(debounce_interval_ms(Some("1")), 100);
    assert_eq!(debounce_interval_ms(Some("9999")), 5_000);
}

#[test]
fn debug_setting() {
    assert!(debug_flag(Some("TRUE"), false));
    assert!(debug_flag(Some("Yes"), false));
    assert!(debug_flag(Some("on"), false));
    assert!(debug_flag(Some("1"), false));
    assert!(!debug_flag(Some("0"), true));
    assert!(!debug_flag(Some(" true"), true));
    assert!(debug_flag(None, true));
    assert!(!debug_flag(None, false));
}

#[test]
fn short_revision_labels() {
    assert_eq!(short_rev_label("0123456789abcdef0123"), "0123456789ab");
    assert_eq!(short_rev_label("abc"), "abc");
    assert_eq!(short_rev_label("0123456789ab"), "0123456789ab");
    assert_eq!(short_rev_label("ééééééééé"), "éééééé");
}

fn request(since: Option<&str>, n: bool, b: &str, r: &str) -> GraphRequest {
    GraphRequest { since: since.map(|s| s.to_string()), include_neighbors: n, branch: b.into(), revision: r.into() }
}

#[test]
fn cache_hits() {
    let last = request(Some("@"), false, "main", "abc");
    assert!(is_cache_hit(&last, &request(Some("@"), false, "main", "abc")));
    assert!(!is_cache_hit(&last, &request(None, false, "main", "abc")));
    assert!(!is_cache_hit(&last, &request(Some("@"), true, "main", "abc")));
    assert!(!is_cache_hit(&last, &request(Some("@"), false, "dev", "abc")));
    assert!(!is_cache_hit(&last, &request(Some("@"), false, "main", "abd")));
}

#[test]
fn refresh_plans() {
    let s = |x: &str| x.to_string();
    assert!(matches!(plan_refresh(&s("main"), &s("r1"), &s("main"), &s("r1"), &Some(s("abc"))), RefreshPlan::Unchanged));
    match plan_refresh(&s("main"), &s("r1"), &s("dev"), &s("r2"), &Some(s("abc"))) {
        RefreshPlan::Rebuild { since, since_reset } => {
            assert_eq!(since, Some(s("@")));
            assert!(since_reset);
        }
        RefreshPlan::Unchanged => panic!("expected a rebuild"),
    }
    match plan_refresh(&s("main"), &s("r1"), &s("main"), &s("r2"), &Some(s("abc"))) {
        RefreshPlan::Rebuild { since, since_reset } => {
            assert_eq!(since, Some(s("abc")));
            assert!(!since_reset);
        }
        RefreshPlan::Unchanged => panic!("expected a rebuild"),
    }
    assert_eq!(since_label(&None), "@");
    assert_eq!(since_label(&Some(s("abc"))), "abc");
}

#[test]
fn watch_event_decisions() {
    let v = |xs: &[&str]| xs.iter().map(|x| x.to_string()).collect::<Vec<_>>();
    assert!(vcs_meta_path("/repo/.git/HEAD"));
    assert!(vcs_meta_path("/repo/.jj"));
    assert!(!vcs_meta_path("/repo/.github/ci.yml"));
    assert!(runtime_path("/repo/node_modules/x.js"));
    assert!(!runtime_path("/repo/src/main.rs"));
    assert!(matches!(
        classify_watch_event(&v(&["/r/src/a.rs", "/r/.git/index"]), true, "@"),
        WatchDecision::VcsMeta
    ));
    assert!(matches!(classify_watch_event(&v(&["/r/src/a.rs"]), false, "@"), WatchDecision::Ignore));
    assert!(matches!(classify_watch_event(&v(&["/r/src/a.rs"]), true, "abc"), WatchDecision::Ignore));
    assert!(matches!(classify_watch_event(&v(&["/r/target/x"]), true, "@"), WatchDecision::Ignore));
    match classify_watch_event(&v(&["/r/target/x", "/r/src/a.rs", "/r/b.py"]), true, "@") {
        WatchDecision::Candidates(ps) => assert_eq!(ps, v(&["/r/src/a.rs", "/r/b.py"])),
        _ => panic!("expected candidates"),
    }
}

#[test]
fn changed_candidates_only() {
    let mut changed = ChangeSet::new();
    changed.insert("src/a.rs".into(), "modified".into());
    let candidates = vec!["/r/src/a.rs".to_string(), "/r/src/b.rs".to_string(), "/elsewhere/a.rs".to_string()];
    let relative = vec![Some("src\\a.rs".to_string()), Some("src/b.rs".to_string()), None];
    assert_eq!(keep_changed_candidates(&candidates, &relative, &changed), vec!["/r/src/a.rs".to_string()]);
    assert_eq!(forward_slashes("a\\b\\c"), "a/b/c");
}

#[test]
fn watcher_queue_batches() {
    let mut q = WatcherQueue::new();
    assert!(!q.enqueue(false, vec![]));
    assert!(q.enqueue(false, vec!["/r/a".into(), "/r/b".into()]));
    assert!(!q.enqueue(false, vec!["/r/a".into(), "/r/c".into()]));
    assert!(!q.enqueue(true, vec![]));
    let (meta, paths) = q.take_batch();
    assert!(meta);
    assert_eq!(paths, vec!["/r/a".to_string(), "/r/b".to_string(), "/r/c".to_string()]);
    let (meta, paths) = q.take_batch();
    assert!(!meta);
    assert!(paths.is_empty());
    assert!(q.enqueue(true, vec![]));
}

#[test]
fn repository_and_fingerprint() {
    assert_eq!(first_repo_ancestor(&vec![VCSEngine::NoVcs, VCSEngine::JJ, VCSEngine::Git]), Some(1));
    assert_eq!(first_repo_ancestor(&vec![VCSEngine::NoVcs]), None);
    assert!(fingerprint_skips(".git"));
    assert!(fingerprint_skips("node_modules"));
    assert!(!fingerprint_skips("dist"));
    assert_eq!(newest_modification(&vec![5, 90, 12]), 90);
    assert_eq!(newest_modification(&vec![]), 0);
    assert!(no_repository_message().starts_with("This directory contains no record"));
    assert_eq!(unreadable_file_text(), "--- FILE DELETED OR INACCESSIBLE ---");
    assert_eq!(DEFAULT_PAGE_SIZE, 20);
}
