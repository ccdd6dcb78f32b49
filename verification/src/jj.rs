use vstd::prelude::*;

use crate::changes::{ChangeSet, EntriesView};
use crate::text::{
    chars_of, string_of, eq_chars, trim, split, lines, words, filter_map, take_up_to, trim_chars,
    split_chars, lines_chars, words_chars, take_chars, lemma_split_nonempty, views, concat_chars,
};
use crate::vcs::{
    Bookmark, BookmarkView, Change, ChangeView, change_views, bookmark_views, cursor_index,
    find_cursor, copy_run, lemma_cursor_index, with_entries, ListingFormat, listing_entries,
    record_listing,
};

verus! {

fn owned(s: &str) -> (r: String)
    ensures
        r@ == s@,
{
    s.to_owned()
}

/// The lines of JJ log output: JJ templates can emit a literal `\n` (a backslash and an
/// `n`) in place of a line break, so the output is first cut at those, then each piece
/// into its lines.
pub open spec fn jj_lines(output: Seq<char>) -> Seq<Seq<char>> {
    split(output, "\\n"@).map_values(|c: Seq<char>| lines(c)).flatten()
}

/// The change that a line of JJ log output (`<id>TAB<description>TAB<time>`) describes:
/// the trimmed fields, `(working copy)` when there is no description and an empty time
/// when there is none; no change for a blank line or an empty id.
pub open spec fn jj_change_of_line(l: Seq<char>) -> Option<ChangeView> {
    let t = trim(l);
    let parts = split(t, "\t"@);
    if t.len() == 0 || trim(parts[0]).len() == 0 {
        None
    } else {
        Some(
            ChangeView {
                id: trim(parts[0]),
                description: if parts.len() > 1 {
                    trim(parts[1])
                } else {
                    "(working copy)"@
                },
                timestamp: if parts.len() > 2 {
                    trim(parts[2])
                } else {
                    Seq::empty()
                },
            },
        )
    }
}

/// The changes listed in JJ log output.
pub open spec fn jj_changes(output: Seq<char>) -> Seq<ChangeView> {
    filter_map(jj_lines(output), |l: Seq<char>| jj_change_of_line(l))
}

fn jj_change_from_line(l: &Vec<char>) -> (r: Option<Change>)
    ensures
        match r {
            Some(c) => jj_change_of_line(l@) == Some(c@),
            None => jj_change_of_line(l@) is None,
        },
{
    let tab = chars_of("\t");
    proof {
        reveal_strlit("\t");
    }
    let t = trim_chars(l);
    let parts = split_chars(&t, &tab);
    proof {
        lemma_split_nonempty(t@, tab@);
    }
    if t.len() == 0 {
        return None;
    }
    let id = trim_chars(&parts[0]);
    if id.len() == 0 {
        return None;
    }
    let description = if parts.len() > 1 {
        string_of(&trim_chars(&parts[1]))
    } else {
        owned("(working copy)")
    };
    let timestamp = if parts.len() > 2 {
        string_of(&trim_chars(&parts[2]))
    } else {
        String::new()
    };
    Some(Change { id: string_of(&id), description, timestamp })
}

/// The changes listed in JJ log output (see [`jj_change_of_line`]).
pub fn parse_changes(output: &str) -> (r: Vec<Change>)
    ensures
        change_views(r@) == jj_changes(output@),
{
    let marker = chars_of("\\n");
    proof {
        reveal_strlit("\\n");
    }
    let chunks = split_chars(&chars_of(output), &marker);
    let ghost cv = views(chunks@).map_values(|c: Seq<char>| lines(c));
    let mut all: Vec<Vec<char>> = Vec::new();
    let mut c: usize = 0;
    while c < chunks.len()
        invariant
            c <= chunks.len(),
            views(chunks@) == split(output@, "\\n"@),
            cv == views(chunks@).map_values(|c: Seq<char>| lines(c)),
            views(all@) == cv.take(c as int).flatten(),
        decreases chunks.len() - c,
    {
        let mut ls = lines_chars(&chunks[c]);
        let ghost before = views(all@);
        let ghost added = views(ls@);
        all.append(&mut ls);
        proof {
            assert(views(all@) =~= before + added);
            assert(cv.take(c + 1) =~= cv.take(c as int).push(cv[c as int]));
            cv.take(c as int).lemma_flatten_push(cv[c as int]);
        }
        c = c + 1;
    }
    assert(cv.take(c as int) =~= cv);
    let ghost lv = views(all@);
    let ghost f = |l: Seq<char>| jj_change_of_line(l);
    let mut r: Vec<Change> = Vec::new();
    let mut i: usize = 0;
    while i < all.len()
        invariant
            i <= all.len(),
            lv == views(all@),
            f == (|l: Seq<char>| jj_change_of_line(l)),
            change_views(r@) == filter_map(lv.take(i as int), f),
        decreases all.len() - i,
    {
        assert(lv.take(i + 1).drop_last() =~= lv.take(i as int));
        assert(lv.take(i + 1).last() == lv[i as int]);
        match jj_change_from_line(&all[i]) {
            Some(ch) => {
                let ghost before = change_views(r@);
                let ghost chv = ch@;
                r.push(ch);
                assert(change_views(r@) =~= before.push(chv));
            },
            None => {},
        }
        i = i + 1;
    }
    assert(lv.take(i as int) =~= lv);
    r
}

/// The revset whose history the change list pages through: the ancestors of the working
/// copy, without the root.
pub fn history_revset() -> (r: String)
    ensures
        r@ == "(ancestors(@) ~ root())"@,
{
    owned("(ancestors(@) ~ root())")
}

/// One page of a JJ history `all` (newest first), at most `limit` long: from the newest
/// change without a cursor or with an empty one, else from just after the first change
/// that the cursor names, and nothing when no change matches.
pub open spec fn jj_page(all: Seq<ChangeView>, limit: nat, before: Option<Seq<char>>) -> Seq<
    ChangeView,
> {
    match before {
        None => take_up_to(all, limit),
        Some(id) => if id.len() == 0 {
            take_up_to(all, limit)
        } else {
            match cursor_index(all, id) {
                Some(k) => take_up_to(all.skip(k + 1), limit),
                None => Seq::empty(),
            }
        },
    }
}

/// A page of a JJ history (see [`jj_page`]).
pub fn changes(all: &Vec<Change>, limit: usize, before_id: Option<String>) -> (r: Vec<Change>)
    ensures
        change_views(r@) == jj_page(
            change_views(all@),
            limit as nat,
            match before_id {
                Some(id) => Some(id@),
                None => None,
            },
        ),
{
    let ghost cs = change_views(all@);
    assert(cs.skip(0) =~= cs);
    match before_id {
        None => copy_run(all, 0, limit),
        Some(id) => {
            if id.as_str().is_empty() {
                copy_run(all, 0, limit)
            } else {
                match find_cursor(all, &id) {
                    Some(k) => {
                        proof {
                            lemma_cursor_index(cs, id@);
                            assert(k < all.len());
                        }
                        copy_run(all, k + 1, limit)
                    },
                    None => Vec::new(),
                }
            }
        },
    }
}

/// The bookmark that a line of `jj bookmark list` describes (`name: id` or
/// `name (kind): id`): the first word of the trimmed part before the first colon, and the
/// first eight characters of the trimmed part after it; none without a colon or with an
/// empty name.
pub open spec fn jj_bookmark_of_line(l: Seq<char>) -> Option<BookmarkView> {
    let parts = split(l, ":"@);
    let name = split(trim(parts[0]), " "@)[0];
    if parts.len() < 2 || name.len() == 0 {
        None
    } else {
        Some(BookmarkView { name, id: take_up_to(trim(parts[1]), 8) })
    }
}

/// The bookmarks listed by `jj bookmark list`.
pub open spec fn jj_bookmarks(output: Seq<char>) -> Seq<BookmarkView> {
    filter_map(lines(output), |l: Seq<char>| jj_bookmark_of_line(l))
}

fn jj_bookmark_from_line(l: &Vec<char>) -> (r: Option<Bookmark>)
    ensures
        match r {
            Some(b) => jj_bookmark_of_line(l@) == Some(b@),
            None => jj_bookmark_of_line(l@) is None,
        },
{
    let colon = chars_of(":");
    let space = chars_of(" ");
    proof {
        reveal_strlit(":");
        reveal_strlit(" ");
    }
    let parts = split_chars(l, &colon);
    proof {
        lemma_split_nonempty(l@, colon@);
    }
    if parts.len() < 2 {
        return None;
    }
    let name_part = trim_chars(&parts[0]);
    let pieces = split_chars(&name_part, &space);
    proof {
        lemma_split_nonempty(name_part@, space@);
    }
    let name = &pieces[0];
    if name.len() == 0 {
        return None;
    }
    let id = take_chars(&trim_chars(&parts[1]), 8);
    Some(Bookmark { name: string_of(name), id: string_of(&id) })
}

/// The bookmarks listed by `jj bookmark list` (see [`jj_bookmark_of_line`]).
pub fn bookmarks(output: &str) -> (r: Vec<Bookmark>)
    ensures
        bookmark_views(r@) == jj_bookmarks(output@),
{
    let ls = lines_chars(&chars_of(output));
    let ghost lv = views(ls@);
    let ghost f = |l: Seq<char>| jj_bookmark_of_line(l);
    let mut r: Vec<Bookmark> = Vec::new();
    let mut i: usize = 0;
    while i < ls.len()
        invariant
            i <= ls.len(),
            lv == views(ls@),
            f == (|l: Seq<char>| jj_bookmark_of_line(l)),
            bookmark_views(r@) == filter_map(lv.take(i as int), f),
        decreases ls.len() - i,
    {
        assert(lv.take(i + 1).drop_last() =~= lv.take(i as int));
        assert(lv.take(i + 1).last() == lv[i as int]);
        match jj_bookmark_from_line(&ls[i]) {
            Some(b) => {
                let ghost before = bookmark_views(r@);
                let ghost bv = b@;
                r.push(b);
                assert(bookmark_views(r@) =~= before.push(bv));
            },
            None => {},
        }
        i = i + 1;
    }
    assert(lv.take(i as int) =~= lv);
    r
}

// ---------------------------------------------------------------------------
// Changed files in JJ.
// ---------------------------------------------------------------------------

/// The revsets that name the root commit, which has no diff.
pub open spec fn is_root_revset(revset: Seq<char>) -> bool {
    revset == "00000000"@ || revset == "zzzzzzzz"@ || revset == "root()"@
}

/// Whether `revset` names the root commit (see [`is_root_revset`]).
pub fn names_root(revset: &str) -> (r: bool)
    ensures
        r == is_root_revset(revset@),
{
    let r = chars_of(revset);
    eq_chars(&r, &chars_of("00000000")) || eq_chars(&r, &chars_of("zzzzzzzz")) || eq_chars(
        &r,
        &chars_of("root()"),
    )
}

/// Whether untracked files count as changes of `revset`: only for the working copy `@`.
pub fn lists_untracked(revset: &str) -> (r: bool)
    ensures
        r == (revset@ == "@"@),
{
    eq_chars(&chars_of(revset), &chars_of("@"))
}

/// The status a `jj diff --summary` code stands for; other codes are not reported.
pub open spec fn jj_status_of_code(code: Seq<char>) -> Option<Seq<char>> {
    if code == "A"@ {
        Some("added"@)
    } else if code == "M"@ {
        Some("modified"@)
    } else if code == "D"@ {
        Some("deleted"@)
    } else {
        None
    }
}

/// The (file, status) of a line of `jj diff --summary`: the code before the first space,
/// and the trimmed rest of the line as the file.
pub open spec fn summary_entry(l: Seq<char>) -> Option<(Seq<char>, Seq<char>)> {
    let p = split(l, " "@);
    if p.len() < 2 {
        None
    } else {
        match jj_status_of_code(p[0]) {
            Some(status) => Some((trim(l.skip(p[0].len() + 1int)), status)),
            None => None,
        }
    }
}

/// The (file, status) of a line of `jj status`: an untracked file `U <path>` counts as
/// added.
pub open spec fn status_entry(l: Seq<char>) -> Option<(Seq<char>, Seq<char>)> {
    let w = words(l);
    if w.len() >= 2 && w[0] == "U"@ {
        Some((w[1], "added"@))
    } else {
        None
    }
}

pub fn summary_entry_exec(l: &Vec<char>) -> (r: Option<(String, String)>)
    ensures
        match r {
            Some(e) => summary_entry(l@) == Some((e.0@, e.1@)),
            None => summary_entry(l@) is None,
        },
{
    let space = chars_of(" ");
    proof {
        reveal_strlit(" ");
    }
    let p = split_chars(l, &space);
    if p.len() < 2 {
        return None;
    }
    proof {
        crate::text::lemma_split_first(l@, space@);
    }
    let code = &p[0];
    let status = if eq_chars(code, &chars_of("A")) {
        owned("added")
    } else if eq_chars(code, &chars_of("M")) {
        owned("modified")
    } else if eq_chars(code, &chars_of("D")) {
        owned("deleted")
    } else {
        return None;
    };
    assert(code@ == views(p@)[0]);
    let n = l.len();
    let rest = crate::text::slice(l, code.len() + 1, n);
    assert(rest@ =~= l@.skip(code@.len() + 1int));
    let path = trim_chars(&rest);
    Some((string_of(&path), status))
}

pub fn status_entry_exec(l: &Vec<char>) -> (r: Option<(String, String)>)
    ensures
        match r {
            Some(e) => status_entry(l@) == Some((e.0@, e.1@)),
            None => status_entry(l@) is None,
        },
{
    let w = words_chars(l);
    if w.len() >= 2 && eq_chars(&w[0], &chars_of("U")) {
        Some((string_of(&w[1]), owned("added")))
    } else {
        None
    }
}

/// The change set that JJ reports for `revset`, from the output of `jj diff --summary`
/// and of `jj status` (`None` where the command failed): nothing for the root; the
/// summary's files; and, for the working copy `@`, the untracked files as added.
pub open spec fn jj_changed_entries(
    revset: Seq<char>,
    summary: Option<Seq<char>>,
    status: Option<Seq<char>>,
) -> EntriesView {
    if is_root_revset(revset) {
        Seq::empty()
    } else {
        let diffed = match summary {
            Some(out) => with_entries(Seq::empty(), listing_entries(ListingFormat::JjSummary, out)),
            None => Seq::empty(),
        };
        match status {
            Some(out) => if revset == "@"@ {
                with_entries(diffed, listing_entries(ListingFormat::JjStatus, out))
            } else {
                diffed
            },
            None => diffed,
        }
    }
}

/// The change set that JJ reports for `revset` (see [`jj_changed_entries`]).
pub fn changed_files(revset: &str, summary: Option<&str>, status: Option<&str>) -> (r: ChangeSet)
    ensures
        r@ == jj_changed_entries(
            revset@,
            match summary {
                Some(s) => Some(s@),
                None => None,
            },
            match status {
                Some(s) => Some(s@),
                None => None,
            },
        ),
{
    let mut set = ChangeSet::new();
    if names_root(revset) {
        return set;
    }
    match summary {
        Some(out) => record_listing(&mut set, ListingFormat::JjSummary, out),
        None => {},
    }
    match status {
        Some(out) => {
            if lists_untracked(revset) {
                record_listing(&mut set, ListingFormat::JjStatus, out);
            }
        },
        None => {},
    }
    set
}

/// The arguments of `jj` that list the files changed in `revset`.
pub fn diff_summary_args(revset: &str) -> (r: Vec<String>)
    ensures
        r@.map_values(|x: String| x@) == seq!["--no-pager"@, "diff"@, "--summary"@, "-r"@, revset@],
{
    let mut r: Vec<String> = Vec::new();
    r.push(owned("--no-pager"));
    r.push(owned("diff"));
    r.push(owned("--summary"));
    r.push(owned("-r"));
    r.push(owned(revset));
    assert(r@.map_values(|x: String| x@) =~= seq!["--no-pager"@, "diff"@, "--summary"@, "-r"@, revset@]);
    r
}

/// The arguments of `jj` that show the diff of `file`, optionally in the revision
/// `since`; none when `since` names the root, which has no diff.
pub open spec fn jj_file_diff_args(file: Seq<char>, since: Option<Seq<char>>) -> Option<
    Seq<Seq<char>>,
> {
    let head = seq!["--no-pager"@, "diff"@, "--git"@];
    match since {
        Some(s) => if is_root_revset(s) {
            None
        } else {
            Some(head + seq!["-r"@, s, "--"@, file])
        },
        None => Some(head + seq!["--"@, file]),
    }
}

/// The arguments of `jj` for the diff of `file` (see [`jj_file_diff_args`]).
pub fn file_diff_args(file: &str, since: Option<&str>) -> (r: Option<Vec<String>>)
    ensures
        match r {
            Some(v) => jj_file_diff_args(
                file@,
                match since {
                    Some(s) => Some(s@),
                    None => None,
                },
            ) == Some(v@.map_values(|x: String| x@)),
            None => jj_file_diff_args(
                file@,
                match since {
                    Some(s) => Some(s@),
                    None => None,
                },
            ) is None,
        },
{
    let mut r: Vec<String> = Vec::new();
    r.push(owned("--no-pager"));
    r.push(owned("diff"));
    r.push(owned("--git"));
    match since {
        Some(s) => {
            if names_root(s) {
                return None;
            }
            r.push(owned("-r"));
            r.push(owned(s));
        },
        None => {},
    }
    r.push(owned("--"));
    r.push(owned(file));
    let ghost sv = match since {
        Some(s) => Some(s@),
        None => None::<Seq<char>>,
    };
    assert(jj_file_diff_args(file@, sv) == Some(r@.map_values(|x: String| x@))) by {
        assert(r@.map_values(|x: String| x@) =~= jj_file_diff_args(file@, sv).unwrap());
    }
    Some(r)
}

/// The diff text that `jj diff` printed, trimmed, or nothing when it failed.
pub fn diff_text(output: Option<&str>) -> (r: String)
    ensures
        r@ == match output {
            Some(o) => trim(o@),
            None => Seq::empty(),
        },
{
    match output {
        Some(o) => string_of(&trim_chars(&chars_of(o))),
        None => String::new(),
    }
}

/// Paging goes on where the previous page stopped: a non-empty first page of `n`
/// changes (`n` is `limit`, or the whole history where that is shorter), followed by the
/// page after its last change, gives the first `n + limit` changes, as long as the last
/// change's id is not empty and does not begin the id of an earlier change.
pub proof fn lemma_pages_continue(all: Seq<ChangeView>, limit: nat)
    requires
        limit > 0,
        all.len() > 0,
        all[jj_page(all, limit, None).len() - 1].id.len() > 0,
        forall|j: int|
            0 <= j < jj_page(all, limit, None).len() - 1 ==> !crate::vcs::names_change(
                #[trigger] all[j],
                all[jj_page(all, limit, None).len() - 1].id,
            ),
    ensures
        jj_page(all, limit, None).len() > 0,
        jj_page(all, limit, None) + jj_page(
            all,
            limit,
            Some(all[jj_page(all, limit, None).len() - 1].id),
        ) == take_up_to(all, jj_page(all, limit, None).len() + limit),
{
    let n = jj_page(all, limit, None).len();
    assert(n == if all.len() <= limit { all.len() } else { limit });
    let id = all[n - 1].id;
    lemma_cursor_index(all, id);
    assert(crate::vcs::names_change(all[n - 1], id));
    match cursor_index(all, id) {
        Some(k) => {
            if k < n - 1 {
                assert(!crate::vcs::names_change(all[k], id));
            }
            assert(k == n - 1);
        },
        None => {
            assert(!crate::vcs::names_change(all[n - 1], id));
        },
    }
    let first = all.take(n as int);
    let second = take_up_to(all.skip(n as int), limit);
    assert(jj_page(all, limit, None) =~= first);
    assert(first + second =~= take_up_to(all, n + limit));
}

/// A page is never longer than asked for, and comes from the history in order.
pub proof fn lemma_page_within(all: Seq<ChangeView>, limit: nat, before: Option<Seq<char>>)
    ensures
        jj_page(all, limit, before).len() <= limit,
        exists|k: int|
            0 <= k <= all.len() && #[trigger] jj_page(all, limit, before) == take_up_to(
                all.skip(k),
                limit,
            ) || jj_page(all, limit, before).len() == 0,
{
    match before {
        None => {
            assert(all.skip(0) =~= all);
            assert(jj_page(all, limit, before) == take_up_to(all.skip(0), limit));
        },
        Some(id) => {
            lemma_cursor_index(all, id);
            if id.len() == 0 {
                assert(all.skip(0) =~= all);
                assert(jj_page(all, limit, before) == take_up_to(all.skip(0), limit));
            } else {
                match cursor_index(all, id) {
                    Some(k) => {
                        assert(jj_page(all, limit, before) == take_up_to(all.skip(k + 1), limit));
                    },
                    None => {},
                }
            }
        },
    }
}

/// The bookmark of a line is named by the first word before its first colon, and its id
/// is the first eight characters of the trimmed text between its first and second colon,
/// whatever follows a second colon.
pub proof fn lemma_bookmark_fields(l: Seq<char>)
    ensures
        jj_bookmark_of_line(l) matches Some(b) ==> b.name == split(trim(split(l, ":"@)[0]), " "@)[0]
            && b.id == take_up_to(trim(split(l, ":"@)[1]), 8),
{
}

/// Every change read from JJ output has a non-empty id without surrounding whitespace.
pub proof fn lemma_jj_change_ids(l: Seq<char>)
    ensures
        jj_change_of_line(l) matches Some(c) ==> c.id.len() > 0 && c.id == trim(c.id),
{
    crate::text::lemma_trim_idempotent(split(trim(l), "\t"@)[0]);
}

} // verus!
