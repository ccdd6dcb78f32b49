use vstd::prelude::*;

verus! {

// ---------------------------------------------------------------------------
// Specifications of the text operations used by the parsers.
// Strings are modelled by their characters (`Seq<char>`).
// ---------------------------------------------------------------------------

/// Unicode `White_Space`: the characters that `char::is_whitespace` accepts.
pub open spec fn is_ws(c: char) -> bool {
    let n = c as u32;
    ||| 0x9 <= n <= 0xd
    ||| n == 0x20
    ||| n == 0x85
    ||| n == 0xa0
    ||| n == 0x1680
    ||| 0x2000 <= n <= 0x200a
    ||| n == 0x2028
    ||| n == 0x2029
    ||| n == 0x202f
    ||| n == 0x205f
    ||| n == 0x3000
}

/// `s` without its leading whitespace.
pub open spec fn trim_start(s: Seq<char>) -> Seq<char>
    decreases s.len(),
{
    if s.len() > 0 && is_ws(s[0]) {
        trim_start(s.drop_first())
    } else {
        s
    }
}

/// `s` without its trailing whitespace.
pub open spec fn trim_end(s: Seq<char>) -> Seq<char>
    decreases s.len(),
{
    if s.len() > 0 && is_ws(s.last()) {
        trim_end(s.drop_last())
    } else {
        s
    }
}

/// `s` without leading and trailing whitespace (`str::trim`).
pub open spec fn trim(s: Seq<char>) -> Seq<char> {
    trim_end(trim_start(s))
}

/// `s` begins with `p`.
pub open spec fn starts_with(s: Seq<char>, p: Seq<char>) -> bool {
    p.len() <= s.len() && s.take(p.len() as int) == p
}

/// `s` ends with `p`.
pub open spec fn ends_with(s: Seq<char>, p: Seq<char>) -> bool {
    p.len() <= s.len() && s.skip(s.len() - p.len()) == p
}

/// `p` occurs in `s` at position `i`.
pub open spec fn occurs_at(s: Seq<char>, p: Seq<char>, i: int) -> bool {
    0 <= i && i + p.len() <= s.len() && s.subrange(i, i + p.len()) == p
}

/// `p` occurs somewhere in `s` (`str::contains`); the empty pattern occurs everywhere.
pub open spec fn contains_str(s: Seq<char>, p: Seq<char>) -> bool {
    exists|i: int| occurs_at(s, p, i)
}

/// The pieces of `s` between the occurrences of `pat`, which are found from the left
/// and do not overlap (`str::split` with a non-empty pattern).
pub open spec fn split(s: Seq<char>, pat: Seq<char>) -> Seq<Seq<char>>
    decreases s.len(),
{
    if pat.len() == 0 || s.len() < pat.len() {
        seq![s]
    } else if s.take(pat.len() as int) == pat {
        seq![Seq::<char>::empty()] + split(s.skip(pat.len() as int), pat)
    } else {
        let r = split(s.drop_first(), pat);
        r.update(0, seq![s[0]] + r[0])
    }
}

/// The characters of each vector in `v`.
pub open spec fn views(v: Seq<Vec<char>>) -> Seq<Seq<char>> {
    v.map_values(|x: Vec<char>| x@)
}

/// `first` put in front of the first piece of `r`.
pub open spec fn prepend_first(first: Seq<char>, r: Seq<Seq<char>>) -> Seq<Seq<char>> {
    r.update(0, first + r[0])
}

pub proof fn lemma_split_nonempty(s: Seq<char>, pat: Seq<char>)
    ensures
        split(s, pat).len() >= 1,
    decreases s.len(),
{
    if pat.len() == 0 || s.len() < pat.len() {
    } else if s.take(pat.len() as int) == pat {
        lemma_split_nonempty(s.skip(pat.len() as int), pat);
    } else {
        lemma_split_nonempty(s.drop_first(), pat);
    }
}


/// `l` without one trailing carriage return.
pub open spec fn strip_cr(l: Seq<char>) -> Seq<char> {
    if l.len() > 0 && l.last() == '\r' {
        l.drop_last()
    } else {
        l
    }
}

/// The lines of `s` (`str::lines`): pieces between line feeds, the last one dropped when
/// it is empty, and a carriage return dropped before each line feed.
pub open spec fn lines(s: Seq<char>) -> Seq<Seq<char>> {
    let p = split(s, seq!['\n']);
    let n = p.len() as int;
    let count = if n > 0 && p[n - 1].len() == 0 {
        n - 1
    } else {
        n
    };
    Seq::new(count as nat, |i: int| if i < n - 1 { strip_cr(p[i]) } else { p[i] })
}

/// The pieces `ps` joined with `sep` between them.
pub open spec fn join(ps: Seq<Seq<char>>, sep: Seq<char>) -> Seq<char>
    decreases ps.len(),
{
    if ps.len() == 0 {
        Seq::empty()
    } else if ps.len() == 1 {
        ps[0]
    } else {
        join(ps.drop_last(), sep) + sep + ps.last()
    }
}

/// `s.replace(from, to)` for a non-empty `from`.
pub open spec fn replace(s: Seq<char>, from: Seq<char>, to: Seq<char>) -> Seq<char> {
    join(split(s, from), to)
}

/// `s.trim_start_matches(p)`: every leading copy of `p` removed.
pub open spec fn strip_prefixes(s: Seq<char>, p: Seq<char>) -> Seq<char>
    decreases s.len(),
{
    if p.len() > 0 && starts_with(s, p) {
        strip_prefixes(s.skip(p.len() as int), p)
    } else {
        s
    }
}

/// The number of non-whitespace characters at the front of `s`.
pub open spec fn word_len(s: Seq<char>) -> nat
    decreases s.len(),
{
    if s.len() > 0 && !is_ws(s[0]) {
        1 + word_len(s.drop_first())
    } else {
        0
    }
}

/// The whitespace-separated words of `s` (`str::split_whitespace`).
pub open spec fn words(s: Seq<char>) -> Seq<Seq<char>>
    decreases s.len(),
{
    if s.len() == 0 {
        Seq::empty()
    } else if is_ws(s[0]) {
        words(s.drop_first())
    } else {
        let k = word_len(s);
        proof {
            lemma_word_len_bounds(s);
        }
        seq![s.take(k as int)] + words(s.skip(k as int))
    }
}


pub proof fn lemma_word_len_bounds(s: Seq<char>)
    ensures
        word_len(s) <= s.len(),
        s.len() > 0 && !is_ws(s[0]) ==> word_len(s) >= 1,
    decreases s.len(),
{
    if s.len() > 0 && !is_ws(s[0]) {
        lemma_word_len_bounds(s.drop_first());
    }
}


/// The results of `f` on the lines `ls` that it accepts, in order.
pub open spec fn filter_map<T>(ls: Seq<Seq<char>>, f: spec_fn(Seq<char>) -> Option<T>) -> Seq<T>
    decreases ls.len(),
{
    if ls.len() == 0 {
        Seq::empty()
    } else {
        let rest = filter_map(ls.drop_last(), f);
        match f(ls.last()) {
            Some(x) => rest.push(x),
            None => rest,
        }
    }
}

/// The first `n` elements of `s`, or all of `s` when it is shorter (`Iterator::take`).
pub open spec fn take_up_to<T>(s: Seq<T>, n: nat) -> Seq<T> {
    if n <= s.len() {
        s.take(n as int)
    } else {
        s
    }
}

/// The first piece of a split is a prefix of `s`; when there is a second piece, the
/// pattern follows the first one.
pub proof fn lemma_split_first(s: Seq<char>, pat: Seq<char>)
    requires
        pat.len() > 0,
    ensures
        split(s, pat)[0].len() <= s.len(),
        split(s, pat)[0] == s.take(split(s, pat)[0].len() as int),
        split(s, pat).len() >= 2 ==> split(s, pat)[0].len() + pat.len() <= s.len(),
    decreases s.len(),
{
    lemma_split_nonempty(s, pat);
    if s.len() < pat.len() {
        assert(s.take(s.len() as int) =~= s);
    } else if s.take(pat.len() as int) == pat {
        lemma_split_nonempty(s.skip(pat.len() as int), pat);
        assert(s.take(0) =~= Seq::<char>::empty());
    } else {
        let r = split(s.drop_first(), pat);
        lemma_split_first(s.drop_first(), pat);
        lemma_split_nonempty(s.drop_first(), pat);
        assert(split(s, pat)[0] =~= s.take(split(s, pat)[0].len() as int));
    }
}

proof fn lemma_trim_start_end(s: Seq<char>)
    ensures
        trim_start(s).len() > 0 ==> !is_ws(trim_start(s)[0]),
        trim_start(s).len() <= s.len(),
    decreases s.len(),
{
    if s.len() > 0 && is_ws(s[0]) {
        lemma_trim_start_end(s.drop_first());
    }
}

proof fn lemma_trim_end_keeps_front(s: Seq<char>)
    ensures
        trim_end(s).len() <= s.len(),
        trim_end(s) == s.take(trim_end(s).len() as int),
        trim_end(s).len() > 0 ==> !is_ws(trim_end(s).last()),
    decreases s.len(),
{
    if s.len() > 0 && is_ws(s.last()) {
        lemma_trim_end_keeps_front(s.drop_last());
        assert(s.drop_last().take(trim_end(s).len() as int) =~= s.take(trim_end(s).len() as int));
    } else {
        assert(s.take(s.len() as int) =~= s);
    }
}

/// Trimming a trimmed text changes nothing.
pub proof fn lemma_trim_idempotent(s: Seq<char>)
    ensures
        trim(trim(s)) == trim(s),
{
    let a = trim_start(s);
    let t = trim_end(a);
    lemma_trim_start_end(s);
    lemma_trim_end_keeps_front(a);
    if t.len() > 0 {
        assert(t[0] == a[0]);
        assert(trim_start(t) == t);
        assert(trim_end(t) == t);
    } else {
        assert(trim_start(t) == t);
        assert(trim_end(t) == t);
    }
}

/// Every element that `filter` keeps comes from the sequence filtered.
pub proof fn lemma_filter_from<A>(s: Seq<A>, pred: spec_fn(A) -> bool)
    ensures
        forall|i: int| 0 <= i < s.filter(pred).len() ==> s.contains(#[trigger] s.filter(pred)[i]),
    decreases s.len(),
{
    reveal(Seq::filter);
    if s.len() > 0 {
        let init = s.drop_last();
        lemma_filter_from(init, pred);
        let f = s.filter(pred);
        let g = init.filter(pred);
        assert forall|i: int| 0 <= i < f.len() implies s.contains(#[trigger] f[i]) by {
            if i < g.len() {
                assert(f[i] == g[i]);
                let k = choose|k: int| 0 <= k < init.len() && init[k] == g[i];
                assert(s[k] == f[i]);
            } else {
                assert(s[s.len() - 1] == f[i]);
            }
        }
    }
}


/// A quote character: `'` or `"`.
pub open spec fn is_quote(c: char) -> bool {
    c == '\'' || c == '"'
}

/// `s` without its leading quote characters.
pub open spec fn unquote_start(s: Seq<char>) -> Seq<char>
    decreases s.len(),
{
    if s.len() > 0 && is_quote(s[0]) {
        unquote_start(s.drop_first())
    } else {
        s
    }
}

/// `s` without its trailing quote characters.
pub open spec fn unquote_end(s: Seq<char>) -> Seq<char>
    decreases s.len(),
{
    if s.len() > 0 && is_quote(s.last()) {
        unquote_end(s.drop_last())
    } else {
        s
    }
}

/// `s` without quote characters at either end (`trim_matches` on `'` and `"`).
pub open spec fn unquote(s: Seq<char>) -> Seq<char> {
    unquote_end(unquote_start(s))
}

proof fn lemma_unquote_start_suffix(s: Seq<char>)
    ensures
        unquote_start(s).len() <= s.len(),
        unquote_start(s) == s.subrange(s.len() - unquote_start(s).len(), s.len() as int),
    decreases s.len(),
{
    if s.len() > 0 && is_quote(s[0]) {
        lemma_unquote_start_suffix(s.drop_first());
        let k = unquote_start(s).len();
        assert(s.drop_first().subrange(s.len() - 1 - k, s.len() - 1) =~= s.subrange(
            s.len() - k,
            s.len() as int,
        ));
    } else {
        assert(s.subrange(0, s.len() as int) =~= s);
    }
}

proof fn lemma_unquote_end_prefix(s: Seq<char>)
    ensures
        unquote_end(s).len() <= s.len(),
        unquote_end(s) == s.subrange(0, unquote_end(s).len() as int),
    decreases s.len(),
{
    if s.len() > 0 && is_quote(s.last()) {
        lemma_unquote_end_prefix(s.drop_last());
        let k = unquote_end(s).len();
        assert(s.drop_last().subrange(0, k as int) =~= s.subrange(0, k as int));
    } else {
        assert(s.subrange(0, s.len() as int) =~= s);
    }
}

/// Unquoting keeps a contiguous part of the text.
pub proof fn lemma_unquote_within(s: Seq<char>)
    ensures
        contains_str(s, unquote(s)),
{
    lemma_unquote_start_suffix(s);
    let a = unquote_start(s);
    lemma_unquote_end_prefix(a);
    let u = unquote_end(a);
    let i = s.len() - a.len();
    assert(s.subrange(i, i + u.len()) =~= u);
    assert(occurs_at(s, u, i));
}

/// A part of a part of `s` is a part of `s`.
pub proof fn lemma_contains_within(s: Seq<char>, t: Seq<char>, u: Seq<char>)
    requires
        contains_str(s, t),
        contains_str(t, u),
    ensures
        contains_str(s, u),
{
    let i = choose|i: int| occurs_at(s, t, i);
    let j = choose|j: int| occurs_at(t, u, j);
    assert(s.subrange(i + j, i + j + u.len()) =~= t.subrange(j, j + u.len()));
    assert(occurs_at(s, u, i + j));
}

// ---------------------------------------------------------------------------
// Executable text operations.
// ---------------------------------------------------------------------------

/// The characters of `s`, in order.
pub fn chars_of(s: &str) -> (v: Vec<char>)
    ensures
        v@ == s@,
{
    let mut v: Vec<char> = Vec::new();
    for c in it: s.chars()
        invariant
            v@ == it.seq().take(it.index() as int),
    {
        v.push(c);
    }
    v
}

/// `String::push`: appends one character.
#[verifier::external_body]
fn push_char(s: &mut String, c: char)
    ensures
        final(s)@ == old(s)@.push(c),
{
    s.push(c);
}

/// The string made of the characters `v`.
pub fn string_of(v: &Vec<char>) -> (s: String)
    ensures
        s@ == v@,
{
    let mut s = String::new();
    let mut i: usize = 0;
    while i < v.len()
        invariant
            i <= v.len(),
            s@ == v@.take(i as int),
        decreases v.len() - i,
    {
        push_char(&mut s, v[i]);
        i = i + 1;
        assert(s@ =~= v@.take(i as int));
    }
    assert(v@.take(v.len() as int) =~= v@);
    s
}

/// Whether `c` is whitespace (`char::is_whitespace`).
pub fn is_whitespace(c: char) -> (b: bool)
    ensures
        b == is_ws(c),
{
    let n = c as u32;
    (0x9 <= n && n <= 0xd) || n == 0x20 || n == 0x85 || n == 0xa0 || n == 0x1680 || (0x2000 <= n
        && n <= 0x200a) || n == 0x2028 || n == 0x2029 || n == 0x202f || n == 0x205f || n == 0x3000
}

/// The characters `v[from..to]`.
pub fn slice(v: &Vec<char>, from: usize, to: usize) -> (r: Vec<char>)
    requires
        from <= to <= v.len(),
    ensures
        r@ == v@.subrange(from as int, to as int),
{
    let mut r: Vec<char> = Vec::new();
    let mut i: usize = from;
    while i < to
        invariant
            from <= i <= to <= v.len(),
            r@ == v@.subrange(from as int, i as int),
        decreases to - i,
    {
        r.push(v[i]);
        i = i + 1;
        assert(r@ =~= v@.subrange(from as int, i as int));
    }
    r
}

/// Whether `p` occurs in `s` at position `i`.
pub fn occurs_at_exec(s: &Vec<char>, p: &Vec<char>, i: usize) -> (b: bool)
    ensures
        b == occurs_at(s@, p@, i as int),
{
    if p.len() > s.len() || i > s.len() - p.len() {
        return false;
    }
    let mut k: usize = 0;
    while k < p.len()
        invariant
            k <= p.len(),
            i + p.len() <= s.len(),
            forall|j: int| 0 <= j < k ==> s@[i + j] == p@[j],
        decreases p.len() - k,
    {
        if s[i + k] != p[k] {
            assert(s@.subrange(i as int, i + p.len())[k as int] != p@[k as int]);
            return false;
        }
        k = k + 1;
    }
    assert(s@.subrange(i as int, i + p.len()) =~= p@);
    true
}

/// `str::trim`.
pub fn trim_chars(v: &Vec<char>) -> (r: Vec<char>)
    ensures
        r@ == trim(v@),
{
    let mut i: usize = 0;
    assert(v@.skip(0) =~= v@);
    while i < v.len() && is_whitespace(v[i])
        invariant
            i <= v.len(),
            trim_start(v@) == trim_start(v@.skip(i as int)),
        decreases v.len() - i,
    {
        assert(v@.skip(i as int).drop_first() =~= v@.skip(i + 1));
        i = i + 1;
    }
    assert(trim_start(v@.skip(i as int)) == v@.skip(i as int));
    let mut j: usize = v.len();
    while j > i && is_whitespace(v[j - 1])
        invariant
            i <= j <= v.len(),
            trim_end(v@.skip(i as int)) == trim_end(v@.subrange(i as int, j as int)),
        decreases j,
    {
        assert(v@.subrange(i as int, j as int).drop_last() =~= v@.subrange(i as int, j - 1));
        j = j - 1;
    }
    assert(v@.skip(i as int) =~= v@.subrange(i as int, v.len() as int));
    slice(v, i, j)
}

/// `s.split(pat)`: the pieces between the occurrences of `pat`.
pub fn split_chars(s: &Vec<char>, pat: &Vec<char>) -> (r: Vec<Vec<char>>)
    requires
        pat.len() > 0,
    ensures
        views(r@) == split(s@, pat@),
{
    let mut pieces: Vec<Vec<char>> = Vec::new();
    let mut cur: Vec<char> = Vec::new();
    let mut i: usize = 0;
    proof {
        lemma_split_nonempty(s@, pat@);
        assert(s@.skip(0) =~= s@);
        assert(prepend_first(cur@, split(s@, pat@)) =~= split(s@, pat@));
        assert(views(pieces@) + split(s@, pat@) =~= split(s@, pat@));
    }
    while i < s.len()
        invariant
            i <= s.len(),
            pat.len() > 0,
            split(s@, pat@) == views(pieces@) + prepend_first(
                cur@,
                split(s@.skip(i as int), pat@),
            ),
        decreases s.len() - i,
    {
        let ghost rest = s@.skip(i as int);
        if occurs_at_exec(s, pat, i) {
            let ghost next = s@.skip(i + pat.len());
            proof {
                assert(rest.take(pat.len() as int) =~= s@.subrange(i as int, i + pat.len()));
                assert(rest.skip(pat.len() as int) =~= next);
                lemma_split_nonempty(next, pat@);
                assert(prepend_first(cur@, split(rest, pat@)) =~= seq![cur@] + split(next, pat@));
            }
            let ghost old_pieces = views(pieces@);
            let ghost done = cur@;
            pieces.push(cur);
            cur = Vec::new();
            i = i + pat.len();
            proof {
                assert(views(pieces@) =~= old_pieces.push(done));
                assert(prepend_first(cur@, split(next, pat@)) =~= split(next, pat@));
                assert(split(s@, pat@) =~= views(pieces@) + prepend_first(
                    cur@,
                    split(s@.skip(i as int), pat@),
                ));
            }
        } else {
            let ghost next = s@.skip(i + 1);
            let ghost old_cur = cur@;
            proof {
                assert(rest.drop_first() =~= next);
                lemma_split_nonempty(next, pat@);
                if rest.len() < pat.len() {
                    assert(next.len() < pat.len());
                    assert(old_cur + rest =~= old_cur.push(s@[i as int]) + next);
                    assert(prepend_first(old_cur, split(rest, pat@)) =~= prepend_first(
                        old_cur.push(s@[i as int]),
                        split(next, pat@),
                    ));
                } else {
                    assert(rest.take(pat.len() as int) =~= s@.subrange(i as int, i + pat.len()));
                    let r = split(next, pat@);
                    assert(old_cur + (seq![s@[i as int]] + r[0]) =~= old_cur.push(s@[i as int]) + r[0]);
                    assert(prepend_first(old_cur, split(rest, pat@)) =~= prepend_first(
                        old_cur.push(s@[i as int]),
                        split(next, pat@),
                    ));
                }
            }
            cur.push(s[i]);
            i = i + 1;
        }
    }
    proof {
        assert(s@.skip(i as int) =~= Seq::<char>::empty());
        assert(prepend_first(cur@, split(s@.skip(i as int), pat@)) =~= seq![cur@]);
    }
    let ghost before = views(pieces@);
    pieces.push(cur);
    assert(views(pieces@) =~= before.push(cur@));
    pieces
}

/// Whether `a` and `b` hold the same characters.
pub fn eq_chars(a: &Vec<char>, b: &Vec<char>) -> (r: bool)
    ensures
        r == (a@ == b@),
{
    if a.len() != b.len() {
        return false;
    }
    let mut i: usize = 0;
    while i < a.len()
        invariant
            i <= a.len() == b.len(),
            forall|j: int| 0 <= j < i ==> a@[j] == b@[j],
        decreases a.len() - i,
    {
        if a[i] != b[i] {
            return false;
        }
        i = i + 1;
    }
    assert(a@ =~= b@);
    true
}

/// Whether `s` begins with `p`.
pub fn starts_with_chars(s: &Vec<char>, p: &Vec<char>) -> (r: bool)
    ensures
        r == starts_with(s@, p@),
{
    let r = occurs_at_exec(s, p, 0);
    assert(p.len() <= s.len() ==> s@.take(p.len() as int) =~= s@.subrange(0, p.len() as int));
    r
}

/// Whether `s` ends with `p`.
pub fn ends_with_chars(s: &Vec<char>, p: &Vec<char>) -> (r: bool)
    ensures
        r == ends_with(s@, p@),
{
    if p.len() > s.len() {
        return false;
    }
    let r = occurs_at_exec(s, p, s.len() - p.len());
    assert(s@.skip(s.len() - p.len()) =~= s@.subrange(s.len() - p.len(), s.len() as int));
    r
}

/// Whether `p` occurs in `s`.
pub fn contains_chars(s: &Vec<char>, p: &Vec<char>) -> (r: bool)
    ensures
        r == contains_str(s@, p@),
{
    if p.len() > s.len() {
        return false;
    }
    let last = s.len() - p.len();
    let mut i: usize = 0;
    while i < last
        invariant
            p.len() <= s.len(),
            last == s.len() - p.len(),
            i <= last,
            forall|j: int| 0 <= j < i ==> !occurs_at(s@, p@, j),
        decreases last - i,
    {
        if occurs_at_exec(s, p, i) {
            return true;
        }
        i = i + 1;
    }
    if occurs_at_exec(s, p, last) {
        return true;
    }
    assert forall|j: int| !occurs_at(s@, p@, j) by {
        if 0 <= j && j + p.len() <= s.len() && j != last {
            assert(j < i);
        }
    }
    false
}

/// The number of lines of `s` (`s.lines().count()`).
pub fn line_count(s: &str) -> (n: usize)
    ensures
        n == lines(s@).len(),
{
    lines_chars(&chars_of(s)).len()
}

/// `str::lines`.
pub fn lines_chars(s: &Vec<char>) -> (r: Vec<Vec<char>>)
    ensures
        views(r@) == lines(s@),
{
    let nl: Vec<char> = vec!['\n'];
    let p = split_chars(s, &nl);
    proof {
        lemma_split_nonempty(s@, nl@);
    }
    let n = p.len();
    let count = if p[n - 1].len() == 0 {
        n - 1
    } else {
        n
    };
    let ghost target = lines(s@);
    assert(nl@ =~= seq!['\n']);
    let mut r: Vec<Vec<char>> = Vec::new();
    let mut i: usize = 0;
    while i < count
        invariant
            i <= count <= n == p.len(),
            count == target.len(),
            views(p@) == split(s@, nl@),
            nl@ == seq!['\n'],
            target == lines(s@),
            views(r@) == target.take(i as int),
        decreases count - i,
    {
        let ghost before = views(r@);
        let line = &p[i];
        if i + 1 < n && line.len() > 0 && line[line.len() - 1] == '\r' {
            r.push(slice(line, 0, line.len() - 1));
            assert(line@.drop_last() =~= line@.subrange(0, line.len() - 1));
        } else {
            r.push(slice(line, 0, line.len()));
            assert(line@ =~= line@.subrange(0, line@.len() as int));
        }
        assert(views(r@) =~= before.push(target[i as int]));
        i = i + 1;
        assert(views(r@) =~= target.take(i as int));
    }
    assert(target.take(count as int) =~= target);
    r
}

/// The pieces `ps` joined with `sep`.
pub fn join_chars(ps: &Vec<Vec<char>>, sep: &Vec<char>) -> (r: Vec<char>)
    ensures
        r@ == join(views(ps@), sep@),
{
    let mut r: Vec<char> = Vec::new();
    let mut i: usize = 0;
    while i < ps.len()
        invariant
            i <= ps.len(),
            r@ == join(views(ps@).take(i as int), sep@),
        decreases ps.len() - i,
    {
        let ghost prefix = views(ps@).take(i as int + 1);
        assert(prefix.drop_last() =~= views(ps@).take(i as int));
        if i > 0 {
            r = concat_chars(&r, sep);
        }
        r = concat_chars(&r, &ps[i]);
        i = i + 1;
        assert(r@ =~= join(views(ps@).take(i as int), sep@));
    }
    assert(views(ps@).take(ps.len() as int) =~= views(ps@));
    r
}

/// `a` followed by `b`.
pub fn concat_chars(a: &Vec<char>, b: &Vec<char>) -> (r: Vec<char>)
    ensures
        r@ == a@ + b@,
{
    let mut r = slice(a, 0, a.len());
    assert(a@.subrange(0, a.len() as int) =~= a@);
    let mut i: usize = 0;
    while i < b.len()
        invariant
            i <= b.len(),
            r@ == a@ + b@.take(i as int),
        decreases b.len() - i,
    {
        r.push(b[i]);
        i = i + 1;
        assert(r@ =~= a@ + b@.take(i as int));
    }
    assert(b@.take(b.len() as int) =~= b@);
    r
}

/// `s.replace(from, to)`.
pub fn replace_chars(s: &Vec<char>, from: &Vec<char>, to: &Vec<char>) -> (r: Vec<char>)
    requires
        from.len() > 0,
    ensures
        r@ == replace(s@, from@, to@),
{
    let pieces = split_chars(s, from);
    join_chars(&pieces, to)
}

/// `s.trim_start_matches(p)`.
pub fn strip_prefixes_chars(s: &Vec<char>, p: &Vec<char>) -> (r: Vec<char>)
    requires
        p.len() > 0,
    ensures
        r@ == strip_prefixes(s@, p@),
{
    let mut i: usize = 0;
    assert(s@.skip(0) =~= s@);
    while occurs_at_exec(s, p, i)
        invariant
            i <= s.len(),
            p.len() > 0,
            strip_prefixes(s@, p@) == strip_prefixes(s@.skip(i as int), p@),
        decreases s.len() - i,
    {
        let ghost rest = s@.skip(i as int);
        assert(rest.take(p.len() as int) =~= s@.subrange(i as int, i + p.len()));
        assert(rest.skip(p.len() as int) =~= s@.skip(i + p.len()));
        i = i + p.len();
    }
    let ghost rest = s@.skip(i as int);
    assert(p.len() <= rest.len() ==> rest.take(p.len() as int) =~= s@.subrange(
        i as int,
        i + p.len(),
    ));
    assert(rest =~= s@.subrange(i as int, s.len() as int));
    slice(s, i, s.len())
}

/// `str::split_whitespace`.
pub fn words_chars(s: &Vec<char>) -> (r: Vec<Vec<char>>)
    ensures
        views(r@) == words(s@),
{
    let mut r: Vec<Vec<char>> = Vec::new();
    let mut i: usize = 0;
    assert(s@.skip(0) =~= s@);
    assert(views(r@) + words(s@) =~= words(s@));
    while i < s.len()
        invariant
            i <= s.len(),
            words(s@) == views(r@) + words(s@.skip(i as int)),
        decreases s.len() - i,
    {
        let ghost rest = s@.skip(i as int);
        if is_whitespace(s[i]) {
            assert(rest.drop_first() =~= s@.skip(i + 1));
            i = i + 1;
        } else {
            let mut j: usize = i;
            assert(s@.skip(j as int) =~= rest);
            while j < s.len() && !is_whitespace(s[j])
                invariant
                    i <= j <= s.len(),
                    word_len(rest) == (j - i) + word_len(s@.skip(j as int)),
                decreases s.len() - j,
            {
                assert(s@.skip(j as int).drop_first() =~= s@.skip(j + 1));
                j = j + 1;
            }
            assert(word_len(s@.skip(j as int)) == 0);
            let ghost before = views(r@);
            let w = slice(s, i, j);
            r.push(w);
            proof {
                assert(rest.take(word_len(rest) as int) =~= s@.subrange(i as int, j as int));
                assert(rest.skip(word_len(rest) as int) =~= s@.skip(j as int));
                assert(views(r@) =~= before.push(s@.subrange(i as int, j as int)));
                assert(words(s@) =~= views(r@) + words(s@.skip(j as int)));
            }
            i = j;
        }
    }
    assert(s@.skip(i as int) =~= Seq::<char>::empty());
    assert(views(r@) + words(s@.skip(i as int)) =~= views(r@));
    r
}

/// The first `n` characters of `v`, or all of them.
pub fn take_chars(v: &Vec<char>, n: usize) -> (r: Vec<char>)
    ensures
        r@ == take_up_to(v@, n as nat),
{
    if n <= v.len() {
        slice(v, 0, n)
    } else {
        let r = slice(v, 0, v.len());
        assert(r@ =~= v@);
        r
    }
}

/// `s` without quote characters at either end.
pub fn unquote_chars(v: &Vec<char>) -> (r: Vec<char>)
    ensures
        r@ == unquote(v@),
{
    let mut i: usize = 0;
    assert(v@.skip(0) =~= v@);
    while i < v.len() && (v[i] == '\'' || v[i] == '"')
        invariant
            i <= v.len(),
            unquote_start(v@) == unquote_start(v@.skip(i as int)),
        decreases v.len() - i,
    {
        assert(v@.skip(i as int).drop_first() =~= v@.skip(i + 1));
        i = i + 1;
    }
    assert(unquote_start(v@.skip(i as int)) == v@.skip(i as int));
    let mut j: usize = v.len();
    while j > i && (v[j - 1] == '\'' || v[j - 1] == '"')
        invariant
            i <= j <= v.len(),
            unquote_end(v@.skip(i as int)) == unquote_end(v@.subrange(i as int, j as int)),
        decreases j,
    {
        assert(v@.subrange(i as int, j as int).drop_last() =~= v@.subrange(i as int, j - 1));
        j = j - 1;
    }
    assert(v@.skip(i as int) =~= v@.subrange(i as int, v.len() as int));
    slice(v, i, j)
}

} // verus!
