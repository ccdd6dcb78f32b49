use vstd::prelude::*;

use crate::changes::{ChangeSet, EntriesView, entry_keys};
use crate::text::{
    chars_of, string_of, eq_chars, contains_str, ends_with, replace, contains_chars,
    ends_with_chars, replace_chars, views,
};
use crate::vcs::VCSEngine;
use vstd::string::StringSliceAdditionalSpecFns;

verus! {

// ---------------------------------------------------------------------------
// Settings read from the environment.
// ---------------------------------------------------------------------------

/// An ASCII decimal digit.
pub open spec fn is_digit(c: char) -> bool {
    '0' <= c && c <= '9'
}

/// The number that the digits `d` write in decimal.
pub open spec fn digits_value(d: Seq<char>) -> nat
    decreases d.len(),
{
    if d.len() == 0 {
        0
    } else {
        digits_value(d.drop_last()) * 10 + ((d.last() as nat) - ('0' as nat)) as nat
    }
}

/// The value of `s` as a `u64` (`str::parse::<u64>`): an optional `+`, then at least one
/// digit and nothing else, and a value that fits.
/// `s` without one leading `+`.
pub open spec fn digit_part(s: Seq<char>) -> Seq<char> {
    if s.len() > 0 && s[0] == '+' {
        s.drop_first()
    } else {
        s
    }
}

pub open spec fn parsed_u64(s: Seq<char>) -> Option<u64> {
    let d = digit_part(s);
    if d.len() > 0 && (forall|i: int| 0 <= i < d.len() ==> is_digit(#[trigger] d[i]))
        && digits_value(d) <= u64::MAX {
        Some(digits_value(d) as u64)
    } else {
        None
    }
}

proof fn lemma_digits_value_grows(d: Seq<char>, i: int)
    requires
        0 <= i <= d.len(),
        forall|k: int| 0 <= k < d.len() ==> is_digit(#[trigger] d[k]),
    ensures
        digits_value(d.take(i)) <= digits_value(d),
    decreases d.len(),
{
    if i < d.len() {
        let init = d.drop_last();
        assert forall|k: int| 0 <= k < init.len() implies is_digit(#[trigger] init[k]) by {
            assert(init[k] == d[k]);
        }
        lemma_digits_value_grows(init, i);
        assert(init.take(i) =~= d.take(i));
    } else {
        assert(d.take(i) =~= d);
    }
}

/// `s` parsed as a `u64` (see [`parsed_u64`]).
pub fn parse_u64(s: &str) -> (r: Option<u64>)
    ensures
        r == parsed_u64(s@),
{
    let v = chars_of(s);
    let start: usize = if v.len() > 0 && v[0] == '+' {
        1
    } else {
        0
    };
    let ghost d = digit_part(s@);
    assert(d =~= v@.skip(start as int));
    if start == v.len() {
        assert(d.len() == 0);
        assert(parsed_u64(s@) is None);
        return None;
    }
    let mut acc: u64 = 0;
    let mut i: usize = start;
    assert(d.take(0) =~= Seq::<char>::empty());
    while i < v.len()
        invariant
            start <= i <= v.len(),
            d == v@.skip(start as int),
            d == digit_part(s@),
            forall|k: int| 0 <= k < i - start ==> is_digit(#[trigger] d[k]),
            acc == digits_value(d.take(i - start)),
        decreases v.len() - i,
    {
        let c = v[i];
        if !('0' <= c && c <= '9') {
            assert(!is_digit(d[i - start]));
            assert(parsed_u64(s@) is None);
            return None;
        }
        let digit = (c as u32 - '0' as u32) as u64;
        assert(d.take(i - start + 1).drop_last() =~= d.take(i - start));
        assert(d.take(i - start + 1).last() == c);
        let ghost next = d.take(i - start + 1);
        match acc.checked_mul(10) {
            Some(m) => match m.checked_add(digit) {
                Some(a) => {
                    acc = a;
                },
                None => {
                    proof {
                        lemma_overflow_is_none(d, i - start + 1);
                    }
                    return None;
                },
            },
            None => {
                proof {
                    lemma_overflow_is_none(d, i - start + 1);
                }
                return None;
            },
        }
        i = i + 1;
    }
    assert(d.take(i - start) =~= d);
    Some(acc)
}

proof fn lemma_overflow_is_none(d: Seq<char>, i: int)
    requires
        0 < i <= d.len(),
        digits_value(d.take(i)) > u64::MAX,
    ensures
        !(d.len() > 0 && (forall|k: int| 0 <= k < d.len() ==> is_digit(#[trigger] d[k]))
            && digits_value(d) <= u64::MAX),
{
    if forall|k: int| 0 <= k < d.len() ==> is_digit(#[trigger] d[k]) {
        lemma_digits_value_grows(d, i);
    }
}

/// `v` brought into `lo..=hi`.
pub open spec fn clamped(v: u64, lo: u64, hi: u64) -> u64 {
    if v < lo {
        lo
    } else if v > hi {
        hi
    } else {
        v
    }
}

/// An interval in milliseconds from an optional setting: the setting's value when it
/// parses as a `u64`, else `default`, brought into `lo..=hi`.
pub open spec fn interval_ms(raw: Option<Seq<char>>, default: u64, lo: u64, hi: u64) -> u64 {
    let v = match raw {
        Some(r) => match parsed_u64(r) {
            Some(n) => n,
            None => default,
        },
        None => default,
    };
    clamped(v, lo, hi)
}

fn interval_from(raw: Option<&str>, default: u64, lo: u64, hi: u64) -> (r: u64)
    requires
        lo <= hi,
    ensures
        r == interval_ms(
            match raw {
                Some(s) => Some(s@),
                None => None,
            },
            default,
            lo,
            hi,
        ),
{
    let v = match raw {
        Some(s) => match parse_u64(s) {
            Some(n) => n,
            None => default,
        },
        None => default,
    };
    if v < lo {
        lo
    } else if v > hi {
        hi
    } else {
        v
    }
}

/// How often the version-control state is polled, in milliseconds: the setting, else
/// 1000, within 250..=10000.
pub fn poll_interval_ms(raw: Option<&str>) -> (r: u64)
    ensures
        r == interval_ms(
            match raw {
                Some(s) => Some(s@),
                None => None,
            },
            1000,
            250,
            10_000,
        ),
        250 <= r <= 10_000,
{
    interval_from(raw, 1000, 250, 10_000)
}

/// How long file-watcher events are gathered before they are handled, in milliseconds:
/// the setting, else 450, within 100..=5000.
pub fn debounce_interval_ms(raw: Option<&str>) -> (r: u64)
    ensures
        r == interval_ms(
            match raw {
                Some(s) => Some(s@),
                None => None,
            },
            450,
            100,
            5_000,
        ),
        100 <= r <= 5_000,
{
    interval_from(raw, 450, 100, 5_000)
}

/// `c` in lower case if it is an ASCII capital.
pub open spec fn ascii_lower(c: char) -> char {
    if 'A' <= c && c <= 'Z' {
        ((c as u32) + 32) as char
    } else {
        c
    }
}

/// The values of the debug setting that turn debugging on, compared in ASCII lower case.
pub open spec fn is_on_value(v: Seq<char>) -> bool {
    let l = v.map_values(|c: char| ascii_lower(c));
    l == "1"@ || l == "true"@ || l == "yes"@ || l == "on"@
}

/// Whether debug output is on: from the setting when it is present, else `fallback`.
pub fn debug_flag(raw: Option<&str>, fallback: bool) -> (r: bool)
    ensures
        r == match raw {
            Some(v) => is_on_value(v@),
            None => fallback,
        },
{
    match raw {
        Some(v) => {
            let cs = chars_of(v);
            let mut low: Vec<char> = Vec::new();
            let mut i: usize = 0;
            while i < cs.len()
                invariant
                    i <= cs.len(),
                    low@ == cs@.take(i as int).map_values(|c: char| ascii_lower(c)),
                decreases cs.len() - i,
            {
                let c = cs[i];
                let l = if 'A' <= c && c <= 'Z' {
                    ((c as u8) + 32) as char
                } else {
                    c
                };
                assert(l == ascii_lower(c));
                low.push(l);
                i = i + 1;
                assert(low@ =~= cs@.take(i as int).map_values(|c: char| ascii_lower(c)));
            }
            assert(cs@.take(i as int) =~= cs@);
            eq_chars(&low, &chars_of("1")) || eq_chars(&low, &chars_of("true")) || eq_chars(
                &low,
                &chars_of("yes"),
            ) || eq_chars(&low, &chars_of("on"))
        },
        None => fallback,
    }
}

/// A revision id shortened for display: its first twelve bytes when it is longer.
/// The cut must fall between two characters.
pub fn short_rev_label(rev: &str) -> (r: String)
    requires
        rev.len() > 12 ==> vstd::utf8::is_char_boundary(rev.spec_bytes(), 12),
    ensures
        rev.len() > 12 ==> vstd::utf8::encode_utf8(r@) == rev.spec_bytes().subrange(0, 12),
        rev.len() <= 12 ==> r@ == rev@,
{
    if rev.len() > 12 {
        let (head, _tail) = rev.split_at(12);
        let r = head.to_owned();
        assert(head.spec_bytes() == rev.spec_bytes().subrange(0, 12));
        assert(vstd::utf8::encode_utf8(r@) == head.spec_bytes());
        r
    } else {
        rev.to_owned()
    }
}

// ---------------------------------------------------------------------------
// When the graph must be rebuilt.
// ---------------------------------------------------------------------------

fn owned(s: &str) -> (r: String)
    ensures
        r@ == s@,
{
    s.to_owned()
}

pub open spec fn opt_view(o: Option<String>) -> Option<Seq<char>> {
    match o {
        Some(s) => Some(s@),
        None => None,
    }
}

fn same_option(a: &Option<String>, b: &Option<String>) -> (r: bool)
    ensures
        r == (opt_view(*a) == opt_view(*b)),
{
    match (a, b) {
        (Some(x), Some(y)) => *x == *y,
        (None, None) => true,
        _ => false,
    }
}

/// What a graph was built for: the `since` filter, whether neighbors were asked for, and
/// the branch and revision of the repository at the time.
pub struct GraphRequest {
    pub since: Option<String>,
    pub include_neighbors: bool,
    pub branch: String,
    pub revision: String,
}

/// The content of a [`GraphRequest`].
pub struct GraphRequestView {
    pub since: Option<Seq<char>>,
    pub include_neighbors: bool,
    pub branch: Seq<char>,
    pub revision: Seq<char>,
}

impl View for GraphRequest {
    type V = GraphRequestView;

    open spec fn view(&self) -> GraphRequestView {
        GraphRequestView {
            since: opt_view(self.since),
            include_neighbors: self.include_neighbors,
            branch: self.branch@,
            revision: self.revision@,
        }
    }
}

/// Whether the graph built for `last` answers `request`: every part of the two is the
/// same.
pub fn is_cache_hit(last: &GraphRequest, request: &GraphRequest) -> (r: bool)
    ensures
        r == (last@ == request@),
{
    same_option(&last.since, &request.since) && last.include_neighbors == request.include_neighbors
        && last.branch == request.branch && last.revision == request.revision
}

/// What a poll of the version-control state leads to.
pub enum RefreshPlan {
    /// Neither the branch nor the revision moved: nothing to do.
    Unchanged,
    /// Rebuild the graph for `since`; `since_reset` tells that the branch changed, so the
    /// filter went back to the working copy.
    Rebuild { since: Option<String>, since_reset: bool },
}

/// The plan after a poll: nothing when branch and revision are the same as before; a
/// rebuild for the working copy `@` when the branch changed; else a rebuild for the
/// filter in use.
pub open spec fn refresh_plan_of(
    last_branch: Seq<char>,
    last_revision: Seq<char>,
    branch: Seq<char>,
    revision: Seq<char>,
    last_since: Option<Seq<char>>,
) -> Option<(Option<Seq<char>>, bool)> {
    if branch == last_branch && revision == last_revision {
        None
    } else if branch != last_branch {
        Some((Some("@"@), true))
    } else {
        Some((last_since, false))
    }
}

/// The plan after a poll (see [`refresh_plan_of`]).
pub fn plan_refresh(
    last_branch: &String,
    last_revision: &String,
    branch: &String,
    revision: &String,
    last_since: &Option<String>,
) -> (r: RefreshPlan)
    ensures
        refresh_plan_of(last_branch@, last_revision@, branch@, revision@, opt_view(*last_since))
            == match r {
            RefreshPlan::Unchanged => None,
            RefreshPlan::Rebuild { since, since_reset } => Some((opt_view(since), since_reset)),
        },
{
    let branch_changed = *branch != *last_branch;
    let revision_changed = *revision != *last_revision;
    if !branch_changed && !revision_changed {
        return RefreshPlan::Unchanged;
    }
    if branch_changed {
        RefreshPlan::Rebuild { since: Some(owned("@")), since_reset: true }
    } else {
        let since = match last_since {
            Some(s) => Some(s.clone()),
            None => None,
        };
        RefreshPlan::Rebuild { since, since_reset: false }
    }
}

/// The filter reported with a rebuilt graph: the one in use, or the working copy `@`.
pub fn since_label(since: &Option<String>) -> (r: String)
    ensures
        r@ == match opt_view(*since) {
            Some(s) => s,
            None => "@"@,
        },
{
    match since {
        Some(s) => s.clone(),
        None => owned("@"),
    }
}

// ---------------------------------------------------------------------------
// Gathering file-watcher events.
// ---------------------------------------------------------------------------

/// Whether a watched path lies in version-control metadata (`.git` or `.jj`).
pub open spec fn is_vcs_meta_path(p: Seq<char>) -> bool {
    contains_str(p, "/.git/"@) || ends_with(p, "/.git"@) || contains_str(p, "/.jj/"@) || ends_with(
        p,
        "/.jj"@,
    )
}

/// Whether a watched path lies in build output or dependencies.
pub open spec fn is_runtime_path(p: Seq<char>) -> bool {
    ||| contains_str(p, "/_build/"@)
    ||| contains_str(p, "/deps/"@)
    ||| contains_str(p, "/dist/"@)
    ||| contains_str(p, "/.svelte-kit/"@)
    ||| contains_str(p, "/.output/"@)
    ||| contains_str(p, "/node_modules/"@)
    ||| contains_str(p, "/target/"@)
    ||| contains_str(p, "/src-tauri/gen/"@)
}

/// Whether a watched path lies in version-control metadata (see [`is_vcs_meta_path`]).
pub fn vcs_meta_path(p: &str) -> (r: bool)
    ensures
        r == is_vcs_meta_path(p@),
{
    let s = chars_of(p);
    contains_chars(&s, &chars_of("/.git/")) || ends_with_chars(&s, &chars_of("/.git"))
        || contains_chars(&s, &chars_of("/.jj/")) || ends_with_chars(&s, &chars_of("/.jj"))
}

/// Whether a watched path lies in build output (see [`is_runtime_path`]).
pub fn runtime_path(p: &str) -> (r: bool)
    ensures
        r == is_runtime_path(p@),
{
    let s = chars_of(p);
    contains_chars(&s, &chars_of("/_build/")) || contains_chars(&s, &chars_of("/deps/"))
        || contains_chars(&s, &chars_of("/dist/")) || contains_chars(&s, &chars_of("/.svelte-kit/"))
        || contains_chars(&s, &chars_of("/.output/")) || contains_chars(
        &s,
        &chars_of("/node_modules/"),
    ) || contains_chars(&s, &chars_of("/target/")) || contains_chars(
        &s,
        &chars_of("/src-tauri/gen/"),
    )
}

/// What a file-watcher event leads to.
pub enum WatchDecision {
    /// Version-control metadata changed: refresh the whole state.
    VcsMeta,
    /// Nothing to do.
    Ignore,
    /// These paths may be changed files of the working copy.
    Candidates(Vec<String>),
}

/// The paths of an event worth a look: neither metadata nor build output.
pub open spec fn interesting_paths(paths: Seq<Seq<char>>) -> Seq<Seq<char>> {
    paths.filter(|p: Seq<char>| !is_vcs_meta_path(p) && !is_runtime_path(p))
}

/// The decision for an event on `paths`: a metadata path anywhere calls for a full
/// refresh; events that do not touch file content, and every event while a historical
/// filter (other than `@`) is shown, are ignored; else the interesting paths, if any.
pub open spec fn watch_decision_of(
    paths: Seq<Seq<char>>,
    is_content_event: bool,
    active_since: Seq<char>,
) -> Option<Option<Seq<Seq<char>>>> {
    if exists|i: int| 0 <= i < paths.len() && is_vcs_meta_path(#[trigger] paths[i]) {
        None
    } else if !is_content_event || active_since != "@"@ || interesting_paths(paths).len() == 0 {
        Some(None)
    } else {
        Some(Some(interesting_paths(paths)))
    }
}

/// The decision for a file-watcher event (see [`watch_decision_of`]).
pub fn classify_watch_event(paths: &Vec<String>, is_content_event: bool, active_since: &str) -> (r:
    WatchDecision)
    ensures
        watch_decision_of(paths@.map_values(|p: String| p@), is_content_event, active_since@)
            == match r {
            WatchDecision::VcsMeta => None,
            WatchDecision::Ignore => Some(None),
            WatchDecision::Candidates(v) => Some(Some(v@.map_values(|p: String| p@))),
        },
{
    let ghost pv = paths@.map_values(|p: String| p@);
    let mut i: usize = 0;
    while i < paths.len()
        invariant
            i <= paths.len(),
            pv == paths@.map_values(|p: String| p@),
            forall|j: int| 0 <= j < i ==> !is_vcs_meta_path(#[trigger] pv[j]),
        decreases paths.len() - i,
    {
        if vcs_meta_path(paths[i].as_str()) {
            assert(is_vcs_meta_path(pv[i as int]));
            return WatchDecision::VcsMeta;
        }
        i = i + 1;
    }
    if !is_content_event || !eq_chars(&chars_of(active_since), &chars_of("@")) {
        return WatchDecision::Ignore;
    }
    let ghost keep = |p: Seq<char>| !is_vcs_meta_path(p) && !is_runtime_path(p);
    let mut kept: Vec<String> = Vec::new();
    let mut k: usize = 0;
    while k < paths.len()
        invariant
            k <= paths.len(),
            pv == paths@.map_values(|p: String| p@),
            keep == (|p: Seq<char>| !is_vcs_meta_path(p) && !is_runtime_path(p)),
            kept@.map_values(|p: String| p@) == pv.take(k as int).filter(keep),
        decreases paths.len() - k,
    {
        proof {
            reveal(Seq::filter);
            assert(pv.take(k + 1).drop_last() =~= pv.take(k as int));
            assert(pv.take(k + 1).last() == pv[k as int]);
        }
        if !vcs_meta_path(paths[k].as_str()) && !runtime_path(paths[k].as_str()) {
            let ghost before = kept@.map_values(|p: String| p@);
            kept.push(paths[k].clone());
            assert(kept@.map_values(|p: String| p@) =~= before.push(pv[k as int]));
        }
        k = k + 1;
    }
    assert(pv.take(k as int) =~= pv);
    if kept.len() == 0 {
        WatchDecision::Ignore
    } else {
        WatchDecision::Candidates(kept)
    }
}

/// `path` with backslashes read as slashes.
pub fn forward_slashes(path: &str) -> (r: String)
    ensures
        r@ == replace(path@, "\\"@, "/"@),
{
    let b = chars_of("\\");
    proof {
        reveal_strlit("\\");
    }
    string_of(&replace_chars(&chars_of(path), &b, &chars_of("/")))
}

/// The candidates that are changed files of the working copy: candidate `i` stays when
/// `relative[i]` is its path inside the repository and, with forward slashes, has an
/// entry in `changed`.
pub open spec fn changed_candidates(
    candidates: Seq<Seq<char>>,
    relative: Seq<Option<Seq<char>>>,
    changed: EntriesView,
) -> Seq<Seq<char>>
    decreases candidates.len(),
{
    if candidates.len() == 0 {
        Seq::empty()
    } else {
        let n = (candidates.len() - 1) as int;
        let rest = changed_candidates(candidates.drop_last(), relative, changed);
        if n < relative.len() && (relative[n] matches Some(r) && entry_keys(changed).contains(
            replace(r, "\\"@, "/"@),
        )) {
            rest.push(candidates.last())
        } else {
            rest
        }
    }
}

/// The candidates that are changed files of the working copy (see
/// [`changed_candidates`]).
pub fn keep_changed_candidates(
    candidates: &Vec<String>,
    relative: &Vec<Option<String>>,
    changed: &ChangeSet,
) -> (r: Vec<String>)
    ensures
        r@.map_values(|p: String| p@) == changed_candidates(
            candidates@.map_values(|p: String| p@),
            relative@.map_values(|o: Option<String>| opt_view(o)),
            changed@,
        ),
{
    let ghost cv = candidates@.map_values(|p: String| p@);
    let ghost rv = relative@.map_values(|o: Option<String>| opt_view(o));
    let mut kept: Vec<String> = Vec::new();
    let mut i: usize = 0;
    while i < candidates.len()
        invariant
            i <= candidates.len(),
            cv == candidates@.map_values(|p: String| p@),
            rv == relative@.map_values(|o: Option<String>| opt_view(o)),
            kept@.map_values(|p: String| p@) == changed_candidates(cv.take(i as int), rv, changed@),
        decreases candidates.len() - i,
    {
        assert(cv.take(i + 1).drop_last() =~= cv.take(i as int));
        assert(cv.take(i + 1).last() == cv[i as int]);
        if i < relative.len() {
            match &relative[i] {
                Some(rel) => {
                    assert(rv[i as int] == Some(rel@));
                    let key = forward_slashes(rel.as_str());
                    if changed.contains_key(&key) {
                        let ghost before = kept@.map_values(|p: String| p@);
                        kept.push(candidates[i].clone());
                        assert(kept@.map_values(|p: String| p@) =~= before.push(cv[i as int]));
                    }
                },
                None => {},
            }
        }
        i = i + 1;
    }
    assert(cv.take(i as int) =~= cv);
    kept
}

/// The pending work of the file watcher, as plain values.
pub struct WatcherQueueView {
    pub vcs_meta: bool,
    pub paths: Seq<Seq<char>>,
    pub scheduled: bool,
}

/// The file-watcher events gathered since the last flush: whether version-control
/// metadata changed, the paths touched, and whether a flush is already scheduled.
pub struct WatcherQueue {
    pending_vcs_meta: bool,
    pending_paths: Vec<String>,
    flush_scheduled: bool,
}

impl View for WatcherQueue {
    type V = WatcherQueueView;

    closed spec fn view(&self) -> WatcherQueueView {
        WatcherQueueView {
            vcs_meta: self.pending_vcs_meta,
            paths: self.pending_paths@.map_values(|p: String| p@),
            scheduled: self.flush_scheduled,
        }
    }
}

/// The queue after an event: nothing changes for an event with neither metadata nor
/// paths; else the metadata flag is raised if asked, the paths are appended, and a flush
/// is scheduled.
pub open spec fn enqueued(q: WatcherQueueView, vcs_meta: bool, paths: Seq<Seq<char>>) -> WatcherQueueView {
    if !vcs_meta && paths.len() == 0 {
        q
    } else {
        WatcherQueueView { vcs_meta: q.vcs_meta || vcs_meta, paths: q.paths + paths, scheduled: true }
    }
}

/// Whether an event makes the caller schedule a flush: only when it brings something and
/// no flush is scheduled yet.
pub open spec fn schedules_flush(q: WatcherQueueView, vcs_meta: bool, paths: Seq<Seq<char>>) -> bool {
    (vcs_meta || paths.len() > 0) && !q.scheduled
}

/// `s` with each element kept only where it occurs first.
pub open spec fn first_occurrences(s: Seq<Seq<char>>) -> Seq<Seq<char>>
    decreases s.len(),
{
    if s.len() == 0 {
        Seq::empty()
    } else {
        let kept = first_occurrences(s.drop_last());
        if kept.contains(s.last()) {
            kept
        } else {
            kept.push(s.last())
        }
    }
}

/// An empty queue.
pub open spec fn idle_queue() -> WatcherQueueView {
    WatcherQueueView { vcs_meta: false, paths: Seq::empty(), scheduled: false }
}

impl WatcherQueue {
    /// An empty queue with no flush scheduled.
    pub fn new() -> (q: WatcherQueue)
        ensures
            q@ == idle_queue(),
    {
        let q = WatcherQueue { pending_vcs_meta: false, pending_paths: Vec::new(), flush_scheduled: false };
        assert(q@.paths =~= Seq::<Seq<char>>::empty());
        q
    }

    /// Records an event; tells whether the caller must schedule a flush.
    pub fn enqueue(&mut self, vcs_meta_changed: bool, paths: Vec<String>) -> (schedule: bool)
        ensures
            final(self)@ == enqueued(old(self)@, vcs_meta_changed, paths@.map_values(|p: String| p@)),
            schedule == schedules_flush(old(self)@, vcs_meta_changed, paths@.map_values(|p: String| p@)),
    {
        if !vcs_meta_changed && paths.len() == 0 {
            return false;
        }
        if vcs_meta_changed {
            self.pending_vcs_meta = true;
        }
        let ghost before = self@.paths;
        let ghost added = paths@.map_values(|p: String| p@);
        let mut paths = paths;
        self.pending_paths.append(&mut paths);
        assert(self@.paths =~= before + added);
        if self.flush_scheduled {
            false
        } else {
            self.flush_scheduled = true;
            true
        }
    }

    /// Takes the gathered work for a flush: whether metadata changed, and the touched
    /// paths, each once, in the order first seen. The queue is empty afterwards and no
    /// flush is scheduled.
    pub fn take_batch(&mut self) -> (r: (bool, Vec<String>))
        ensures
            r.0 == old(self)@.vcs_meta,
            r.1@.map_values(|p: String| p@) == first_occurrences(old(self)@.paths),
            final(self)@ == idle_queue(),
    {
        let ghost ps = self@.paths;
        let mut unique: Vec<String> = Vec::new();
        let mut i: usize = 0;
        while i < self.pending_paths.len()
            invariant
                i <= self.pending_paths.len(),
                ps == self.pending_paths@.map_values(|p: String| p@),
                unique@.map_values(|p: String| p@) == first_occurrences(ps.take(i as int)),
            decreases self.pending_paths.len() - i,
        {
            assert(ps.take(i + 1).drop_last() =~= ps.take(i as int));
            assert(ps.take(i + 1).last() == ps[i as int]);
            let ghost uv = unique@.map_values(|p: String| p@);
            let mut seen = false;
            let mut k: usize = 0;
            while k < unique.len()
                invariant
                    k <= unique.len(),
                    uv == unique@.map_values(|p: String| p@),
                    seen == (exists|j: int| 0 <= j < k && uv[j] == ps[i as int]),
                    ps == self.pending_paths@.map_values(|p: String| p@),
                    i < self.pending_paths.len(),
                decreases unique.len() - k,
            {
                if unique[k] == self.pending_paths[i] {
                    seen = true;
                    assert(uv[k as int] == ps[i as int]);
                } else {
                    assert(uv[k as int] != ps[i as int]);
                }
                k = k + 1;
            }
            if !seen {
                unique.push(self.pending_paths[i].clone());
                assert(unique@.map_values(|p: String| p@) =~= uv.push(ps[i as int]));
            }
            i = i + 1;
        }
        assert(ps.take(i as int) =~= ps);
        let meta = self.pending_vcs_meta;
        self.pending_vcs_meta = false;
        self.pending_paths = Vec::new();
        self.flush_scheduled = false;
        assert(self@.paths =~= Seq::<Seq<char>>::empty());
        (meta, unique)
    }
}

// ---------------------------------------------------------------------------
// Laws of the watcher queue.
// ---------------------------------------------------------------------------

/// Once a flush is scheduled, no further event schedules another until the batch is
/// taken; after the batch is taken, the next event that brings something schedules one.
pub proof fn lemma_one_flush_at_a_time(
    q: WatcherQueueView,
    m1: bool,
    p1: Seq<Seq<char>>,
    m2: bool,
    p2: Seq<Seq<char>>,
)
    ensures
        schedules_flush(q, m1, p1) ==> !schedules_flush(enqueued(q, m1, p1), m2, p2),
        q.scheduled ==> !schedules_flush(q, m1, p1),
        schedules_flush(idle_queue(), m2, p2) == (m2 || p2.len() > 0),
{
}

/// A batch holds every pending path and each only once.
pub proof fn lemma_batch_paths(s: Seq<Seq<char>>)
    ensures
        forall|i: int, j: int|
            0 <= i < j < first_occurrences(s).len() ==> first_occurrences(s)[i]
                != first_occurrences(s)[j],
        forall|p: Seq<char>| s.contains(p) <==> #[trigger] first_occurrences(s).contains(p),
    decreases s.len(),
{
    if s.len() > 0 {
        let init = s.drop_last();
        lemma_batch_paths(init);
        let kept = first_occurrences(init);
        let r = first_occurrences(s);
        assert forall|p: Seq<char>| s.contains(p) <==> #[trigger] r.contains(p) by {
            if s.contains(p) {
                let k = choose|k: int| 0 <= k < s.len() && s[k] == p;
                if k < s.len() - 1 {
                    assert(init[k] == p);
                    assert(kept.contains(p));
                    let m = choose|m: int| 0 <= m < kept.len() && kept[m] == p;
                    assert(r[m] == p);
                } else if !kept.contains(p) {
                    assert(r[r.len() - 1] == p);
                }
            }
            if r.contains(p) {
                let m = choose|m: int| 0 <= m < r.len() && r[m] == p;
                if m < kept.len() {
                    assert(kept[m] == p);
                    assert(kept.contains(p));
                    assert(init.contains(p));
                    let k = choose|k: int| 0 <= k < init.len() && init[k] == p;
                    assert(s[k] == p);
                } else {
                    assert(s[s.len() - 1] == p);
                }
            }
        }
    }
}

// ---------------------------------------------------------------------------
// The repository and its fingerprint.
// ---------------------------------------------------------------------------

/// The first directory, nearest first, that is under version control.
pub open spec fn first_versioned(engines: Seq<VCSEngine>) -> Option<int>
    decreases engines.len(),
{
    if engines.len() == 0 {
        None
    } else if !(engines[0] is NoVcs) {
        Some(0)
    } else {
        match first_versioned(engines.drop_first()) {
            Some(k) => Some(k + 1),
            None => None,
        }
    }
}

/// Given the engine of each directory from the current one up to the root, the position
/// of the nearest one under version control (see [`first_versioned`]).
pub fn first_repo_ancestor(engines: &Vec<VCSEngine>) -> (r: Option<usize>)
    ensures
        match r {
            Some(k) => first_versioned(engines@) == Some(k as int),
            None => first_versioned(engines@) is None,
        },
{
    let mut i: usize = 0;
    assert(engines@.skip(0) =~= engines@);
    while i < engines.len()
        invariant
            i <= engines.len(),
            first_versioned(engines@) == crate::vcs::shift(
                first_versioned(engines@.skip(i as int)),
                i as int,
            ),
        decreases engines.len() - i,
    {
        assert(engines@.skip(i as int)[0] == engines@[i as int]);
        match &engines[i] {
            VCSEngine::NoVcs => {},
            _ => {
                return Some(i);
            },
        }
        assert(engines@.skip(i as int).drop_first() =~= engines@.skip(i + 1));
        i = i + 1;
    }
    None
}

/// Directory and file names that the source fingerprint does not look into.
pub open spec fn is_unfingerprinted_name(name: Seq<char>) -> bool {
    name == ".git"@ || name == "_build"@ || name == "deps"@ || name == "node_modules"@ || name
        == "target"@
}

/// Whether the fingerprint skips the entry named `name` (see
/// [`is_unfingerprinted_name`]).
pub fn fingerprint_skips(name: &str) -> (r: bool)
    ensures
        r == is_unfingerprinted_name(name@),
{
    let n = chars_of(name);
    eq_chars(&n, &chars_of(".git")) || eq_chars(&n, &chars_of("_build")) || eq_chars(
        &n,
        &chars_of("deps"),
    ) || eq_chars(&n, &chars_of("node_modules")) || eq_chars(&n, &chars_of("target"))
}

/// The largest of `s`, or 0.
pub open spec fn newest(s: Seq<u64>) -> u64
    decreases s.len(),
{
    if s.len() == 0 {
        0
    } else {
        let m = newest(s.drop_last());
        if s.last() > m {
            s.last()
        } else {
            m
        }
    }
}

/// The fingerprint of a repository: the newest modification time, in seconds, of its
/// files, or 0 without any.
pub fn newest_modification(times: &Vec<u64>) -> (r: u64)
    ensures
        r == newest(times@),
{
    let mut m: u64 = 0;
    let mut i: usize = 0;
    while i < times.len()
        invariant
            i <= times.len(),
            m == newest(times@.take(i as int)),
        decreases times.len() - i,
    {
        assert(times@.take(i + 1).drop_last() =~= times@.take(i as int));
        if times[i] > m {
            m = times[i];
        }
        i = i + 1;
    }
    assert(times@.take(i as int) =~= times@);
    m
}

/// The message that refuses a folder without version control.
pub fn no_repository_message() -> (r: String)
    ensures
        r@ == "This directory contains no record of its own failures. Sloposcope requires a Git or JJ repository to function. How disappointing."@,
{
    owned("This directory contains no record of its own failures. Sloposcope requires a Git or JJ repository to function. How disappointing.")
}

/// The text shown for a file that can no longer be read.
pub fn unreadable_file_text() -> (r: String)
    ensures
        r@ == "--- FILE DELETED OR INACCESSIBLE ---"@,
{
    owned("--- FILE DELETED OR INACCESSIBLE ---")
}

/// How many changes a page holds when the front end does not say.
pub const DEFAULT_PAGE_SIZE: usize = 20;

} // verus!
