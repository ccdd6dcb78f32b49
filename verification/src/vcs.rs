use vstd::prelude::*;

use crate::changes::{ChangeSet, EntriesView, insert_entry};
use crate::text::{
    chars_of, string_of, eq_chars, trim, split, lines, words, replace, strip_prefixes, starts_with,
    contains_str, filter_map, take_up_to, trim_chars, split_chars, lines_chars, words_chars,
    replace_chars, strip_prefixes_chars, starts_with_chars, contains_chars, concat_chars,
    lemma_split_nonempty, views,
};

verus! {

/// One entry of a history: a commit or a change.
pub struct Change {
    pub id: String,
    pub description: String,
    pub timestamp: String,
}

/// A named pointer into the history: a branch or a bookmark.
pub struct Bookmark {
    pub name: String,
    pub id: String,
}

/// The version-control system that manages a repository.
pub enum VCSEngine {
    JJ,
    Git,
    NoVcs,
}

/// The content of a [`Change`].
pub struct ChangeView {
    pub id: Seq<char>,
    pub description: Seq<char>,
    pub timestamp: Seq<char>,
}

/// The content of a [`Bookmark`].
pub struct BookmarkView {
    pub name: Seq<char>,
    pub id: Seq<char>,
}

impl View for Change {
    type V = ChangeView;

    open spec fn view(&self) -> ChangeView {
        ChangeView { id: self.id@, description: self.description@, timestamp: self.timestamp@ }
    }
}

impl View for Bookmark {
    type V = BookmarkView;

    open spec fn view(&self) -> BookmarkView {
        BookmarkView { name: self.name@, id: self.id@ }
    }
}

pub open spec fn change_views(cs: Seq<Change>) -> Seq<ChangeView> {
    cs.map_values(|c: Change| c@)
}

pub open spec fn bookmark_views(bs: Seq<Bookmark>) -> Seq<BookmarkView> {
    bs.map_values(|b: Bookmark| b@)
}

impl Change {
    /// A copy of this change.
    pub fn duplicate(&self) -> (r: Change)
        ensures
            r@ == self@,
    {
        Change {
            id: self.id.clone(),
            description: self.description.clone(),
            timestamp: self.timestamp.clone(),
        }
    }
}

/// Copies of `cs[from..]`, at most `limit` of them.
pub fn copy_run(cs: &Vec<Change>, from: usize, limit: usize) -> (r: Vec<Change>)
    requires
        from <= cs.len(),
    ensures
        change_views(r@) == take_up_to(change_views(cs@).skip(from as int), limit as nat),
{
    let ghost src = change_views(cs@).skip(from as int);
    let mut r: Vec<Change> = Vec::new();
    let mut i: usize = from;
    while i < cs.len() && i - from < limit
        invariant
            from <= i <= cs.len(),
            i - from <= limit,
            src == change_views(cs@).skip(from as int),
            change_views(r@) == src.take(i - from),
        decreases cs.len() - i,
    {
        let ghost before = change_views(r@);
        r.push(cs[i].duplicate());
        assert(change_views(r@) =~= before.push(src[i - from]));
        i = i + 1;
        assert(change_views(r@) =~= src.take(i - from));
    }
    assert(i - from == limit ==> src.take(i - from) =~= take_up_to(src, limit as nat));
    assert(i == cs.len() ==> src.take(i - from) =~= take_up_to(src, limit as nat));
    r
}

// ---------------------------------------------------------------------------
// Which engine manages a repository.
// ---------------------------------------------------------------------------

/// The engine of a repository, from whether it holds a `.git` and a `.jj` directory.
/// Git is preferred when both exist: many repositories are primarily Git and may carry
/// experimental JJ metadata.
pub fn detect_engine(has_git_dir: bool, has_jj_dir: bool) -> (e: VCSEngine)
    ensures
        has_git_dir ==> e is Git,
        !has_git_dir && has_jj_dir ==> e is JJ,
        !has_git_dir && !has_jj_dir ==> e is NoVcs,
{
    if has_git_dir {
        VCSEngine::Git
    } else if has_jj_dir {
        VCSEngine::JJ
    } else {
        VCSEngine::NoVcs
    }
}

// ---------------------------------------------------------------------------
// Paths that never belong in the graph.
// ---------------------------------------------------------------------------

/// A path with backslashes read as slashes and leading `./` removed.
pub open spec fn normalized_path(path: Seq<char>) -> Seq<char> {
    strip_prefixes(replace(path, "\\"@, "/"@), "./"@)
}

/// Directory names whose content is never part of the graph.
pub open spec fn is_ignored_segment(seg: Seq<char>) -> bool {
    ||| seg == ".git"@
    ||| seg == ".jj"@
    ||| seg == "node_modules"@
    ||| seg == "target"@
    ||| seg == "_build"@
    ||| seg == "deps"@
    ||| seg == "dist"@
    ||| seg == ".svelte-kit"@
    ||| seg == ".output"@
}

/// A path the graph ignores: empty once normalized, with an ignored directory among its
/// segments, or under `src-tauri/gen/`.
pub open spec fn ignored_graph_path(path: Seq<char>) -> bool {
    let n = normalized_path(path);
    let segs = split(n, "/"@);
    ||| n.len() == 0
    ||| exists|i: int| 0 <= i < segs.len() && is_ignored_segment(#[trigger] segs[i])
    ||| starts_with(n, "src-tauri/gen/"@)
}

fn is_ignored_segment_exec(seg: &Vec<char>) -> (r: bool)
    ensures
        r == is_ignored_segment(seg@),
{
    eq_chars(seg, &chars_of(".git")) || eq_chars(seg, &chars_of(".jj")) || eq_chars(
        seg,
        &chars_of("node_modules"),
    ) || eq_chars(seg, &chars_of("target")) || eq_chars(seg, &chars_of("_build")) || eq_chars(
        seg,
        &chars_of("deps"),
    ) || eq_chars(seg, &chars_of("dist")) || eq_chars(seg, &chars_of(".svelte-kit")) || eq_chars(
        seg,
        &chars_of(".output"),
    )
}

/// Whether a changed path is left out of the graph (see [`ignored_graph_path`]).
pub fn should_ignore_graph_path(path: &str) -> (r: bool)
    ensures
        r == ignored_graph_path(path@),
{
    let p = chars_of(path);
    let backslash = chars_of("\\");
    let slash = chars_of("/");
    let dot_slash = chars_of("./");
    proof {
        reveal_strlit("\\");
        reveal_strlit("/");
        reveal_strlit("./");
    }
    let replaced = replace_chars(&p, &backslash, &slash);
    let n = strip_prefixes_chars(&replaced, &dot_slash);
    if n.len() == 0 {
        return true;
    }
    let segs = split_chars(&n, &slash);
    let mut i: usize = 0;
    while i < segs.len()
        invariant
            i <= segs.len(),
            views(segs@) == split(n@, "/"@),
            n@ == normalized_path(path@),
            forall|j: int| 0 <= j < i ==> !is_ignored_segment(views(segs@)[j]),
        decreases segs.len() - i,
    {
        if is_ignored_segment_exec(&segs[i]) {
            assert(is_ignored_segment(split(n@, "/"@)[i as int]));
            return true;
        }
        i = i + 1;
    }
    starts_with_chars(&n, &chars_of("src-tauri/gen/"))
}

/// `changed` without the paths that the graph ignores, in the same order.
pub fn retain_graph_paths(changed: &ChangeSet) -> (r: ChangeSet)
    ensures
        r@ == changed@.filter(|e: (Seq<char>, Seq<char>)| !ignored_graph_path(e.0)),
{
    let ghost es = changed@;
    let ghost keep = |e: (Seq<char>, Seq<char>)| !ignored_graph_path(e.0);
    let mut r = ChangeSet::new();
    let mut i: usize = 0;
    while i < changed.len()
        invariant
            i <= changed@.len(),
            es == changed@,
            keep == (|e: (Seq<char>, Seq<char>)| !ignored_graph_path(e.0)),
            r@ == es.take(i as int).filter(keep),
        decreases changed@.len() - i,
    {
        let ghost next = es.take(i + 1);
        proof {
            reveal(Seq::filter);
            assert(next.drop_last() =~= es.take(i as int));
            assert(next.last() == es[i as int]);
        }
        let key = changed.key_at(i);
        if !should_ignore_graph_path(key.as_str()) {
            let ghost before = r@;
            proof {
                lemma_filter_keys_absent(es, i as int, keep);
            }
            r.insert(key.clone(), changed.value_at(i).clone());
            assert(r@ =~= before.push(es[i as int]));
            proof {
                reveal(Seq::filter);
                assert(keep(next.last()));
                assert(next.filter(keep) == es.take(i as int).filter(keep).push(es[i as int]));
            }
        } else {
            proof {
                reveal(Seq::filter);
                assert(!keep(next.last()));
                assert(next.filter(keep) == es.take(i as int).filter(keep));
            }
        }
        i = i + 1;
    }
    assert(es.take(i as int) =~= es);
    r
}

/// A key at position `i` of a set of distinct keys is not the key of an entry kept
/// from before `i`.
proof fn lemma_filter_keys_absent(
    es: EntriesView,
    i: int,
    keep: spec_fn((Seq<char>, Seq<char>)) -> bool,
)
    requires
        0 <= i < es.len(),
        crate::changes::distinct_keys(es),
    ensures
        !crate::changes::entry_keys(es.take(i).filter(keep)).contains(es[i].0),
        insert_entry(es.take(i).filter(keep), es[i].0, es[i].1) == es.take(i).filter(keep).push(
            es[i],
        ),
{
    let f = es.take(i).filter(keep);
    if crate::changes::entry_keys(f).contains(es[i].0) {
        let k = choose|k: int| 0 <= k < crate::changes::entry_keys(f).len() && crate::changes::entry_keys(f)[k] == es[i].0;
        crate::text::lemma_filter_from(es.take(i), keep);
        assert(es.take(i).contains(f[k]));
        let m = choose|m: int| 0 <= m < es.take(i).len() && es.take(i)[m] == f[k];
        assert(es[m].0 == es[i].0);
    }
}

// ---------------------------------------------------------------------------
// Histories and pages of them.
// ---------------------------------------------------------------------------

/// `c` is the change that a page cursor `id` names: its id is `id` or begins with it.
pub open spec fn names_change(c: ChangeView, id: Seq<char>) -> bool {
    c.id == id || starts_with(c.id, id)
}

/// The position of the first change of `all` that the cursor `id` names.
pub open spec fn cursor_index(all: Seq<ChangeView>, id: Seq<char>) -> Option<int>
    decreases all.len(),
{
    if all.len() == 0 {
        None
    } else if names_change(all[0], id) {
        Some(0)
    } else {
        match cursor_index(all.drop_first(), id) {
            Some(k) => Some(k + 1),
            None => None,
        }
    }
}

pub proof fn lemma_cursor_index(all: Seq<ChangeView>, id: Seq<char>)
    ensures
        cursor_index(all, id) matches Some(k) ==> 0 <= k < all.len() && names_change(all[k], id)
            && forall|j: int| 0 <= j < k ==> !names_change(#[trigger] all[j], id),
        cursor_index(all, id) is None ==> forall|j: int|
            0 <= j < all.len() ==> !names_change(#[trigger] all[j], id),
    decreases all.len(),
{
    if all.len() > 0 {
        let rest = all.drop_first();
        lemma_cursor_index(rest, id);
        if !names_change(all[0], id) {
            match cursor_index(rest, id) {
                Some(k) => {
                    assert(all[k + 1] == rest[k]);
                    assert forall|j: int| 0 <= j < k + 1 implies !names_change(#[trigger] all[j], id) by {
                        if j > 0 {
                            assert(all[j] == rest[j - 1]);
                        }
                    }
                },
                None => {
                    assert forall|j: int| 0 <= j < all.len() implies !names_change(#[trigger] all[j], id) by {
                        if j > 0 {
                            assert(all[j] == rest[j - 1]);
                        }
                    }
                },
            }
        }
    }
}

/// `o` moved `d` places further.
pub open spec fn shift(o: Option<int>, d: int) -> Option<int> {
    match o {
        Some(k) => Some(k + d),
        None => None,
    }
}

/// The position of the first change of `all` that `id` names.
pub fn find_cursor(all: &Vec<Change>, id: &String) -> (r: Option<usize>)
    ensures
        match r {
            Some(k) => cursor_index(change_views(all@), id@) == Some(k as int),
            None => cursor_index(change_views(all@), id@) is None,
        },
{
    let ghost cs = change_views(all@);
    let idc = chars_of(id.as_str());
    let mut i: usize = 0;
    assert(cs.skip(0) =~= cs);
    while i < all.len()
        invariant
            i <= all.len(),
            cs == change_views(all@),
            idc@ == id@,
            cursor_index(cs, id@) == shift(cursor_index(cs.skip(i as int), id@), i as int),
        decreases all.len() - i,
    {
        let cid = chars_of(all[i].id.as_str());
        assert(cs.skip(i as int)[0] == cs[i as int]);
        if all[i].id == *id || starts_with_chars(&cid, &idc) {
            return Some(i);
        }
        assert(cs.skip(i as int).drop_first() =~= cs.skip(i + 1));
        i = i + 1;
    }
    None
}

/// The pseudo-change that stands for the working copy at the top of a Git history.
pub open spec fn working_copy_change() -> ChangeView {
    ChangeView { id: "@"@, description: "(working copy)"@, timestamp: "now"@ }
}

/// One page of a Git history `all` (newest first), at most `limit` long. Without a
/// cursor the page starts with the working copy and goes on with the newest commits; the
/// cursor `@` starts at the newest commit; any other cursor starts after the first commit
/// it names, and names nothing when no commit matches. An empty history has no page.
pub open spec fn git_page(all: Seq<ChangeView>, limit: nat, before: Option<Seq<char>>) -> Seq<
    ChangeView,
> {
    if all.len() == 0 {
        Seq::empty()
    } else {
        match before {
            None => take_up_to(
                seq![working_copy_change()] + take_up_to(
                    all,
                    if limit > 0 {
                        (limit - 1) as nat
                    } else {
                        0
                    },
                ),
                limit,
            ),
            Some(id) => if id == "@"@ {
                take_up_to(all, limit)
            } else {
                match cursor_index(all, id) {
                    Some(k) => take_up_to(all.skip(k + 1), limit),
                    None => Seq::empty(),
                }
            },
        }
    }
}

fn owned(s: &str) -> (r: String)
    ensures
        r@ == s@,
{
    s.to_owned()
}

/// A page of a Git history (see [`git_page`]).
pub fn git_changes_page(all: &Vec<Change>, limit: usize, before_id: Option<String>) -> (r: Vec<
    Change,
>)
    ensures
        change_views(r@) == git_page(
            change_views(all@),
            limit as nat,
            match before_id {
                Some(id) => Some(id@),
                None => None,
            },
        ),
{
    let ghost cs = change_views(all@);
    if all.len() == 0 {
        return Vec::new();
    }
    match before_id {
        None => {
            if limit == 0 {
                return Vec::new();
            }
            let mut page: Vec<Change> = Vec::new();
            page.push(
                Change {
                    id: owned("@"),
                    description: owned("(working copy)"),
                    timestamp: owned("now"),
                },
            );
            let rest = copy_run(all, 0, limit - 1);
            let ghost first = change_views(page@);
            let mut rest = rest;
            page.append(&mut rest);
            assert(cs.skip(0) =~= cs);
            assert(first =~= seq![working_copy_change()]);
            let ghost whole = seq![working_copy_change()] + take_up_to(cs, (limit - 1) as nat);
            assert(change_views(page@) =~= whole);
            assert(whole.len() <= limit);
            assert(take_up_to(whole, limit as nat) =~= whole);
            page
        },
        Some(id) => {
            let at = chars_of("@");
            if eq_chars(&chars_of(id.as_str()), &at) {
                let r = copy_run(all, 0, limit);
                assert(cs.skip(0) =~= cs);
                r
            } else {
                match find_cursor(all, &id) {
                    Some(k) => {
                        proof {
                            lemma_cursor_index(cs, id@);
                        }
                        copy_run(all, k + 1, limit)
                    },
                    None => Vec::new(),
                }
            }
        },
    }
}

// ---------------------------------------------------------------------------
// Reading Git output.
// ---------------------------------------------------------------------------

/// The timestamp shown for `%ai` (date, time, zone): its first two space-separated
/// pieces, joined by a space, or its first piece when there is only one.
pub open spec fn short_timestamp(full: Seq<char>) -> Seq<char> {
    let ts = split(full, " "@);
    if ts.len() >= 2 {
        ts[0] + " "@ + ts[1]
    } else {
        ts[0]
    }
}

/// The commit that a line of `git log --pretty=format:%h<TAB>%s<TAB>%ai` describes: the
/// tab-separated id, subject and date, trimmed; no commit for a line whose id is empty.
pub open spec fn git_change_of_line(l: Seq<char>) -> Option<ChangeView> {
    let parts = split(l, "\t"@);
    let id = trim(parts[0]);
    if id.len() == 0 {
        None
    } else {
        let description = if parts.len() > 1 {
            trim(parts[1])
        } else {
            Seq::empty()
        };
        let full = if parts.len() > 2 {
            trim(parts[2])
        } else {
            Seq::empty()
        };
        Some(ChangeView { id, description, timestamp: short_timestamp(full) })
    }
}

/// The commits listed in the output of `git log`.
pub open spec fn git_log_changes(output: Seq<char>) -> Seq<ChangeView> {
    filter_map(lines(output), |l: Seq<char>| git_change_of_line(l))
}

fn git_change_from_line(l: &Vec<char>) -> (r: Option<Change>)
    ensures
        match r {
            Some(c) => git_change_of_line(l@) == Some(c@),
            None => git_change_of_line(l@) is None,
        },
{
    let tab = chars_of("\t");
    let space = chars_of(" ");
    proof {
        reveal_strlit("\t");
        reveal_strlit(" ");
    }
    let parts = split_chars(l, &tab);
    proof {
        lemma_split_nonempty(l@, tab@);
    }
    let id = trim_chars(&parts[0]);
    if id.len() == 0 {
        return None;
    }
    let description = if parts.len() > 1 {
        trim_chars(&parts[1])
    } else {
        Vec::new()
    };
    let full = if parts.len() > 2 {
        trim_chars(&parts[2])
    } else {
        Vec::new()
    };
    let ts = split_chars(&full, &space);
    proof {
        lemma_split_nonempty(full@, space@);
    }
    let timestamp = if ts.len() >= 2 {
        concat_chars(&concat_chars(&ts[0], &space), &ts[1])
    } else {
        concat_chars(&ts[0], &Vec::new())
    };
    assert(ts.len() < 2 ==> ts[0]@ + Seq::<char>::empty() =~= ts[0]@);
    let c = Change {
        id: string_of(&id),
        description: string_of(&description),
        timestamp: string_of(&timestamp),
    };
    assert(description@ == (if parts.len() > 1 { trim(views(parts@)[1]) } else { Seq::<char>::empty() }));
    Some(c)
}

/// The commits listed in the output of `git log` (see [`git_change_of_line`]).
pub fn parse_git_log(output: &str) -> (r: Vec<Change>)
    ensures
        change_views(r@) == git_log_changes(output@),
{
    let ls = lines_chars(&chars_of(output));
    let ghost lv = views(ls@);
    let ghost f = |l: Seq<char>| git_change_of_line(l);
    let mut r: Vec<Change> = Vec::new();
    let mut i: usize = 0;
    while i < ls.len()
        invariant
            i <= ls.len(),
            lv == views(ls@),
            f == (|l: Seq<char>| git_change_of_line(l)),
            change_views(r@) == filter_map(lv.take(i as int), f),
        decreases ls.len() - i,
    {
        assert(lv.take(i + 1).drop_last() =~= lv.take(i as int));
        assert(lv.take(i + 1).last() == lv[i as int]);
        match git_change_from_line(&ls[i]) {
            Some(c) => {
                let ghost before = change_views(r@);
                let ghost cv = c@;
                r.push(c);
                assert(change_views(r@) =~= before.push(cv));
            },
            None => {},
        }
        i = i + 1;
    }
    assert(lv.take(i as int) =~= lv);
    r
}

/// The branch that a line of `git branch --format=%(refname:short)<TAB>%(objectname:short)`
/// describes: the trimmed name and commit; none without a tab or with an empty name.
pub open spec fn git_branch_of_line(l: Seq<char>) -> Option<BookmarkView> {
    let parts = split(l, "\t"@);
    if parts.len() < 2 || trim(parts[0]).len() == 0 {
        None
    } else {
        Some(BookmarkView { name: trim(parts[0]), id: trim(parts[1]) })
    }
}

/// The branches listed in the output of `git branch`.
pub open spec fn git_branches(output: Seq<char>) -> Seq<BookmarkView> {
    filter_map(lines(output), |l: Seq<char>| git_branch_of_line(l))
}

fn git_branch_from_line(l: &Vec<char>) -> (r: Option<Bookmark>)
    ensures
        match r {
            Some(b) => git_branch_of_line(l@) == Some(b@),
            None => git_branch_of_line(l@) is None,
        },
{
    let tab = chars_of("\t");
    proof {
        reveal_strlit("\t");
    }
    let parts = split_chars(l, &tab);
    if parts.len() < 2 {
        return None;
    }
    let name = trim_chars(&parts[0]);
    if name.len() == 0 {
        return None;
    }
    let id = trim_chars(&parts[1]);
    Some(Bookmark { name: string_of(&name), id: string_of(&id) })
}

/// The branches listed in the output of `git branch` (see [`git_branch_of_line`]).
pub fn parse_git_branches(output: &str) -> (r: Vec<Bookmark>)
    ensures
        bookmark_views(r@) == git_branches(output@),
{
    let ls = lines_chars(&chars_of(output));
    let ghost lv = views(ls@);
    let ghost f = |l: Seq<char>| git_branch_of_line(l);
    let mut r: Vec<Bookmark> = Vec::new();
    let mut i: usize = 0;
    while i < ls.len()
        invariant
            i <= ls.len(),
            lv == views(ls@),
            f == (|l: Seq<char>| git_branch_of_line(l)),
            bookmark_views(r@) == filter_map(lv.take(i as int), f),
        decreases ls.len() - i,
    {
        assert(lv.take(i + 1).drop_last() =~= lv.take(i as int));
        assert(lv.take(i + 1).last() == lv[i as int]);
        match git_branch_from_line(&ls[i]) {
            Some(b) => {
                let ghost before = bookmark_views(r@);
                let ghost bv = b@;
                r.push(b);
                assert(bookmark_views(r@) =~= before.push(bv));
            },
            None => {},
        }
        i = i + 1;
    }
    assert(lv.take(i as int) =~= lv);
    r
}

// ---------------------------------------------------------------------------
// Changed files in Git.
// ---------------------------------------------------------------------------

/// `es` after recording each (file, status) of `pairs` in turn.
pub open spec fn with_entries(es: EntriesView, pairs: Seq<(Seq<char>, Seq<char>)>) -> EntriesView
    decreases pairs.len(),
{
    if pairs.len() == 0 {
        es
    } else {
        let before = with_entries(es, pairs.drop_last());
        insert_entry(before, pairs.last().0, pairs.last().1)
    }
}

/// The revision range that `git diff` is given for one part of a `since` filter: `HEAD`
/// for `@` or `HEAD`, a range as it is, else the single commit `part`.
pub open spec fn git_diff_rev(part: Seq<char>) -> Seq<char> {
    if part == "@"@ || part == "HEAD"@ {
        "HEAD"@
    } else if contains_str(part, ".."@) {
        part
    } else {
        part + "~1.."@ + part
    }
}

fn git_diff_rev_exec(part: &Vec<char>) -> (r: Vec<char>)
    ensures
        r@ == git_diff_rev(part@),
{
    let head = chars_of("HEAD");
    if eq_chars(part, &chars_of("@")) || eq_chars(part, &head) {
        return head;
    }
    if contains_chars(part, &chars_of("..")) {
        return concat_chars(part, &Vec::new());
    }
    concat_chars(&concat_chars(part, &chars_of("~1..")), part)
}

/// The parts of a `since` filter: the pieces between ` | `.
pub open spec fn since_parts(since: Seq<char>) -> Seq<Seq<char>> {
    split(since, " | "@)
}

/// The revision ranges that `git diff --name-status` is run on for `since`, in order.
pub fn git_diff_revs(since: &str) -> (r: Vec<String>)
    ensures
        r@.map_values(|x: String| x@) == since_parts(since@).map_values(
            |p: Seq<char>| git_diff_rev(p),
        ),
{
    let sep = chars_of(" | ");
    proof {
        reveal_strlit(" | ");
    }
    let parts = split_chars(&chars_of(since), &sep);
    let ghost target = since_parts(since@).map_values(|p: Seq<char>| git_diff_rev(p));
    let mut r: Vec<String> = Vec::new();
    let mut i: usize = 0;
    while i < parts.len()
        invariant
            i <= parts.len(),
            views(parts@) == since_parts(since@),
            target == since_parts(since@).map_values(|p: Seq<char>| git_diff_rev(p)),
            r@.map_values(|x: String| x@) == target.take(i as int),
        decreases parts.len() - i,
    {
        let rev = git_diff_rev_exec(&parts[i]);
        let ghost before = r@.map_values(|x: String| x@);
        r.push(string_of(&rev));
        assert(r@.map_values(|x: String| x@) =~= before.push(target[i as int]));
        i = i + 1;
        assert(r@.map_values(|x: String| x@) =~= target.take(i as int));
    }
    assert(target.take(i as int) =~= target);
    r
}

/// Whether untracked files count as changes for `since`: it mentions `@` or `HEAD`.
pub open spec fn git_lists_untracked(since: Seq<char>) -> bool {
    contains_str(since, "@"@) || contains_str(since, "HEAD"@)
}

/// Whether untracked files count as changes for `since` (see [`git_lists_untracked`]).
pub fn git_wants_untracked(since: &str) -> (r: bool)
    ensures
        r == git_lists_untracked(since@),
{
    let s = chars_of(since);
    contains_chars(&s, &chars_of("@")) || contains_chars(&s, &chars_of("HEAD"))
}

/// The status a `git diff --name-status` code stands for.
pub open spec fn git_status_of_code(code: Seq<char>) -> Seq<char> {
    if code.len() > 0 && code[0] == 'A' {
        "added"@
    } else if code.len() > 0 && code[0] == 'D' {
        "deleted"@
    } else {
        "modified"@
    }
}

/// The (file, status) of a line of `git diff --name-status`: its first two
/// whitespace-separated words are the code and the file.
pub open spec fn name_status_entry(l: Seq<char>) -> Option<(Seq<char>, Seq<char>)> {
    let w = words(l);
    if w.len() >= 2 {
        Some((w[1], git_status_of_code(w[0])))
    } else {
        None
    }
}

/// The (file, status) of a line of `git ls-files --others`: the trimmed line, added.
pub open spec fn untracked_entry(l: Seq<char>) -> Option<(Seq<char>, Seq<char>)> {
    let t = trim(l);
    if t.len() > 0 {
        Some((t, "added"@))
    } else {
        None
    }
}

/// The change set that Git reports for a `since` filter, from the output of
/// `git diff --name-status` for each of its revision ranges (`None` where the command
/// failed) and of `git ls-files --others --exclude-standard`, which counts only when
/// [`git_lists_untracked`] holds. A later entry for a file replaces an earlier one.
pub open spec fn git_changed_entries(
    since: Seq<char>,
    diffs: Seq<Option<Seq<char>>>,
    untracked: Option<Seq<char>>,
) -> EntriesView {
    let committed = diff_entries(Seq::empty(), diffs);
    match untracked {
        Some(out) => if git_lists_untracked(since) {
            with_entries(committed, listing_entries(ListingFormat::GitUntracked, out))
        } else {
            committed
        },
        None => committed,
    }
}

/// `es` after recording the files of each diff output of `diffs` in turn.
pub open spec fn diff_entries(es: EntriesView, diffs: Seq<Option<Seq<char>>>) -> EntriesView
    decreases diffs.len(),
{
    if diffs.len() == 0 {
        es
    } else {
        let before = diff_entries(es, diffs.drop_last());
        match diffs.last() {
            Some(out) => with_entries(before, listing_entries(ListingFormat::GitNameStatus, out)),
            None => before,
        }
    }
}

fn name_status_exec(l: &Vec<char>) -> (r: Option<(String, String)>)
    ensures
        match r {
            Some(e) => name_status_entry(l@) == Some((e.0@, e.1@)),
            None => name_status_entry(l@) is None,
        },
{
    let w = words_chars(l);
    if w.len() < 2 {
        return None;
    }
    let code = &w[0];
    let status = if code.len() > 0 && code[0] == 'A' {
        owned("added")
    } else if code.len() > 0 && code[0] == 'D' {
        owned("deleted")
    } else {
        owned("modified")
    };
    Some((string_of(&w[1]), status))
}

fn untracked_exec(l: &Vec<char>) -> (r: Option<(String, String)>)
    ensures
        match r {
            Some(e) => untracked_entry(l@) == Some((e.0@, e.1@)),
            None => untracked_entry(l@) is None,
        },
{
    let t = trim_chars(l);
    if t.len() == 0 {
        return None;
    }
    Some((string_of(&t), owned("added")))
}

/// The listings of changed files that the version-control commands print.
pub enum ListingFormat {
    /// `git diff --name-status`
    GitNameStatus,
    /// `git ls-files --others --exclude-standard`
    GitUntracked,
    /// `jj diff --summary`
    JjSummary,
    /// `jj status`
    JjStatus,
}

/// The (file, status) that one line of a listing in format `fmt` reports, if any.
pub open spec fn listing_entry(fmt: ListingFormat, l: Seq<char>) -> Option<(Seq<char>, Seq<char>)> {
    match fmt {
        ListingFormat::GitNameStatus => name_status_entry(l),
        ListingFormat::GitUntracked => untracked_entry(l),
        ListingFormat::JjSummary => crate::jj::summary_entry(l),
        ListingFormat::JjStatus => crate::jj::status_entry(l),
    }
}

/// The (file, status) pairs that a listing in format `fmt` reports, line by line.
pub open spec fn listing_entries(fmt: ListingFormat, output: Seq<char>) -> Seq<
    (Seq<char>, Seq<char>),
> {
    filter_map(lines(output), |l: Seq<char>| listing_entry(fmt, l))
}

fn listing_entry_exec(fmt: &ListingFormat, l: &Vec<char>) -> (r: Option<(String, String)>)
    ensures
        match r {
            Some(e) => listing_entry(*fmt, l@) == Some((e.0@, e.1@)),
            None => listing_entry(*fmt, l@) is None,
        },
{
    match fmt {
        ListingFormat::GitNameStatus => name_status_exec(l),
        ListingFormat::GitUntracked => untracked_exec(l),
        ListingFormat::JjSummary => crate::jj::summary_entry_exec(l),
        ListingFormat::JjStatus => crate::jj::status_entry_exec(l),
    }
}

/// Records in `set`, line by line, each (file, status) that the listing `output`
/// reports; a later status for a file replaces an earlier one.
pub fn record_listing(set: &mut ChangeSet, fmt: ListingFormat, output: &str)
    ensures
        final(set)@ == with_entries(old(set)@, listing_entries(fmt, output@)),
{
    let ls = lines_chars(&chars_of(output));
    let ghost lv = views(ls@);
    let ghost f = |l: Seq<char>| listing_entry(fmt, l);
    let ghost start = set@;
    let mut i: usize = 0;
    while i < ls.len()
        invariant
            i <= ls.len(),
            lv == views(ls@),
            f == (|l: Seq<char>| listing_entry(fmt, l)),
            set@ == with_entries(start, filter_map(lv.take(i as int), f)),
        decreases ls.len() - i,
    {
        assert(lv.take(i + 1).drop_last() =~= lv.take(i as int));
        assert(lv.take(i + 1).last() == lv[i as int]);
        match listing_entry_exec(&fmt, &ls[i]) {
            Some(e) => {
                let ghost pairs = filter_map(lv.take(i as int), f);
                let ghost ev = (e.0@, e.1@);
                set.insert(e.0, e.1);
                assert(pairs.push(ev).drop_last() =~= pairs);
            },
            None => {},
        }
        i = i + 1;
    }
    assert(lv.take(i as int) =~= lv);
}

pub open spec fn option_views(v: Seq<Option<String>>) -> Seq<Option<Seq<char>>> {
    v.map_values(
        |o: Option<String>|
            match o {
                Some(s) => Some(s@),
                None => None,
            },
    )
}

/// The change set that Git reports for `since` (see [`git_changed_entries`]).
pub fn git_changed_files(since: &str, diffs: &Vec<Option<String>>, untracked: Option<String>) -> (r:
    ChangeSet)
    ensures
        r@ == git_changed_entries(
            since@,
            option_views(diffs@),
            match untracked {
                Some(s) => Some(s@),
                None => None,
            },
        ),
{
    let ghost dv = option_views(diffs@);
    let mut set = ChangeSet::new();
    let mut i: usize = 0;
    while i < diffs.len()
        invariant
            i <= diffs.len(),
            dv == option_views(diffs@),
            set@ == diff_entries(Seq::empty(), dv.take(i as int)),
        decreases diffs.len() - i,
    {
        assert(dv.take(i + 1).drop_last() =~= dv.take(i as int));
        assert(dv.take(i + 1).last() == dv[i as int]);
        match &diffs[i] {
            Some(out) => {
                record_listing(&mut set, ListingFormat::GitNameStatus, out.as_str());
            },
            None => {},
        }
        i = i + 1;
    }
    assert(dv.take(i as int) =~= dv);
    match untracked {
        Some(out) => {
            if git_wants_untracked(since) {
                record_listing(&mut set, ListingFormat::GitUntracked, out.as_str());
            }
        },
        None => {},
    }
    set
}

/// The arguments of `git` that show the diff of `file`, optionally since a revision.
pub open spec fn git_file_diff_args(file: Seq<char>, since: Option<Seq<char>>) -> Seq<Seq<char>> {
    let head = seq!["--no-pager"@, "diff"@];
    let with_rev = match since {
        Some(s) => head.push(git_diff_rev(s)),
        None => head,
    };
    with_rev + seq!["--"@, file]
}

/// The arguments of `git` for the diff of `file` (see [`git_file_diff_args`]).
pub fn git_file_diff_arguments(file: &str, since: Option<&str>) -> (r: Vec<String>)
    ensures
        r@.map_values(|x: String| x@) == git_file_diff_args(
            file@,
            match since {
                Some(s) => Some(s@),
                None => None,
            },
        ),
{
    let mut r: Vec<String> = Vec::new();
    r.push(owned("--no-pager"));
    r.push(owned("diff"));
    match since {
        Some(s) => {
            let rev = git_diff_rev_exec(&chars_of(s));
            r.push(string_of(&rev));
        },
        None => {},
    }
    r.push(owned("--"));
    r.push(owned(file));
    assert(r@.map_values(|x: String| x@) =~= git_file_diff_args(
        file@,
        match since {
            Some(s) => Some(s@),
            None => None,
        },
    ));
    r
}

// ---------------------------------------------------------------------------
// The current branch and revision.
// ---------------------------------------------------------------------------

/// The branch label shown for a repository, from the output of the command that asks
/// for it (`None` where it could not be run): for JJ the bookmarks of `@`, trimmed, or
/// `@` when there is none; for Git the trimmed name of `HEAD`, or `HEAD` when the
/// command could not run; nothing without a version-control system.
pub open spec fn branch_label(engine: VCSEngine, output: Option<Seq<char>>) -> Seq<char> {
    match engine {
        VCSEngine::JJ => match output {
            Some(o) => if trim(o).len() == 0 {
                "@"@
            } else {
                trim(o)
            },
            None => "@"@,
        },
        VCSEngine::Git => match output {
            Some(o) => trim(o),
            None => "HEAD"@,
        },
        VCSEngine::NoVcs => Seq::empty(),
    }
}

/// The revision label for a repository: the trimmed output of the command that asks
/// for the current commit, or nothing.
pub open spec fn revision_label(engine: VCSEngine, output: Option<Seq<char>>) -> Seq<char> {
    match engine {
        VCSEngine::NoVcs => Seq::empty(),
        _ => match output {
            Some(o) => trim(o),
            None => Seq::empty(),
        },
    }
}

/// The current branch (see [`branch_label`]).
pub fn get_current_branch(engine: &VCSEngine, output: Option<&str>) -> (r: String)
    ensures
        r@ == branch_label(
            *engine,
            match output {
                Some(o) => Some(o@),
                None => None,
            },
        ),
{
    match engine {
        VCSEngine::JJ => match output {
            Some(o) => {
                let t = trim_chars(&chars_of(o));
                if t.len() == 0 {
                    owned("@")
                } else {
                    string_of(&t)
                }
            },
            None => owned("@"),
        },
        VCSEngine::Git => match output {
            Some(o) => string_of(&trim_chars(&chars_of(o))),
            None => owned("HEAD"),
        },
        VCSEngine::NoVcs => String::new(),
    }
}

/// The current revision (see [`revision_label`]).
pub fn get_current_revision(engine: &VCSEngine, output: Option<&str>) -> (r: String)
    ensures
        r@ == revision_label(
            *engine,
            match output {
                Some(o) => Some(o@),
                None => None,
            },
        ),
{
    match engine {
        VCSEngine::NoVcs => String::new(),
        _ => match output {
            Some(o) => string_of(&trim_chars(&chars_of(o))),
            None => String::new(),
        },
    }
}

} // verus!
